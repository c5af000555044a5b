//! The radar page and its data.

use holocubic::face::{radar, CardTexts, Mark};
use holocubic::json::{read, Json};
use holocubic::radar::{refresh_due, DeviceData, RadarPage};
use holocubic::radar_data::{compact, Scaled};

fn json(text: &str) -> Json {
    read(text.as_bytes()).unwrap()
}

fn reply() -> Json {
    let ones = ["1"; 24].join(",");
    json(&format!(
        r#"{{"mode":"radar","radar_mirror_protocol":1,"crc32":"12345678","age":5,"scene_seconds":6,
            "radar_data":{{"cards":[["Astra max",8,16743965,10650,500,250],["Luna high",1,11977943,8000,-1,100],["Sol high",1,15909390,9800,300,200]],
            "series":[["Astra",16743965,24,[{ones}]]],"total":24,"reset":10,"age":2,"warn":false,"tasks":true}}}}"#
    ))
}

#[test]
fn preview_uses_acknowledged_data_and_device_clock() {
    let mut page = RadarPage::default();
    page.accept_device(&mut reply()).unwrap();
    page.collected(Ok(json(r#"{"usage":{"total":9999}}"#)));
    let device = page.device().unwrap();
    assert_eq!(device.data.total, 24);
    assert_eq!(device.page(0), 1);
    assert_eq!(device.page(6), 0);
    assert_eq!(device.reset_text(0), "EST. 00:00:07");
    assert_eq!(device.reset_text(8), "WINDOW ENDED / CHECK PC");
}

#[test]
fn readback_crc_and_counts_must_match() {
    let mut page = RadarPage::default();
    let mut state = reply();
    page.accept_device(&mut state).unwrap();
    assert!(state.get("radar_data").is_none());
    page.accept_device(&mut state).unwrap();
    state.insert("crc32", Json::text("87654321"));
    assert!(page.accept_device(&mut state).is_err());
    let mut invalid = reply();
    invalid.insert_in("radar_data", "total", Json::Uint(25));
    assert!(page.accept_device(&mut invalid).is_err());
    assert_eq!(page.device_crc(), Some("12345678"));
    page.accept_device(&mut json(r#"{"mode":"task"}"#)).unwrap();
    assert!(page.device().is_none());
}

#[test]
fn hidden_page_has_no_refresh_worker() {
    let page = RadarPage::default();
    assert!(!refresh_due(false, false, None));
    assert!(!page.ready());
    assert!(page.device().is_none());
}

#[test]
fn refresh_and_animation_boundaries() {
    assert!(refresh_due(true, false, None));
    assert!(!refresh_due(true, false, Some(4999)));
    assert!(refresh_due(true, false, Some(5000)));
    assert!(!refresh_due(false, false, Some(30000)));
    assert!(!refresh_due(true, true, Some(30000)));
}

#[test]
fn every_fault_of_a_reply_has_its_message() {
    let faults: [(&str, &str); 4] = [
        ("radar_mirror_protocol", "请更新设备程序以回读雷达预览"),
        ("crc32", "设备缺少雷达 CRC"),
        ("age", "设备缺少雷达数据年龄"),
        ("scene_seconds", "设备缺少雷达轮播时钟"),
    ];
    for (key, message) in faults {
        let mut page = RadarPage::default();
        let mut state = reply();
        state.remove(key);
        assert_eq!(page.accept_device(&mut state).unwrap_err(), message);
    }
    let mut page = RadarPage::default();
    let mut bare = reply();
    bare.remove("radar_data");
    assert_eq!(page.accept_device(&mut bare).unwrap_err(), "尚未完整回读雷达，请重新检测连接");
    let mut odd = reply().with("radar_data", Json::Uint(1));
    assert_eq!(
        page.accept_device(&mut odd).unwrap_err(),
        "设备雷达数据无效：invalid type: integer `1`, expected struct DeviceData"
    );
    let mut young = reply().with("age", Json::Uint(1));
    assert_eq!(page.accept_device(&mut young).unwrap_err(), "雷达时钟或校验值无效");
    let mut named = reply().with("crc32", Json::text("123"));
    assert_eq!(page.accept_device(&mut named).unwrap_err(), "雷达时钟或校验值无效");
    let mut far = reply();
    far.insert_in("radar_data", "reset", Json::Int(-2));
    assert_eq!(page.accept_device(&mut far).unwrap_err(), "设备雷达数据超出范围或计数不一致");
}

#[test]
fn previous_data_stay_until_the_sum_changes() {
    let mut page = RadarPage::default();
    page.accept_device(&mut reply()).unwrap();
    let mut next = reply().with("crc32", Json::text("0badcafe"));
    next.insert_in("radar_data", "reset", Json::Int(-1));
    page.accept_device(&mut next).unwrap();
    let device = page.device().unwrap();
    assert_eq!(device.previous.reset, 10);
    assert_eq!(device.data.reset, -1);
    assert_eq!(device.reset_text(0), "NO DEADLINE / SEE PC");
    let mut same = next.clone();
    same.remove("radar_data");
    page.accept_device(&mut same).unwrap();
    assert_eq!(page.device().unwrap().previous.reset, 10);
}

#[test]
fn collections_do_not_touch_the_preview() {
    let mut page = RadarPage::default();
    page.accept_device(&mut reply()).unwrap();
    page.collected(Err("网络错误".to_owned()));
    assert!(page.ready());
    assert_eq!(page.revision(), 0);
    assert_eq!(page.error(), Some("网络错误"));
    page.collected(Ok(json("{}")));
    assert_eq!(page.revision(), 1);
    assert_eq!(page.error(), None);
    assert!(page.snapshot().is_some());
    assert_eq!(page.device_crc(), Some("12345678"));
    page.clear_device();
    assert!(page.device_crc().is_none());
}

#[test]
fn screen_shows_two_cards_and_the_legend() {
    let mut page = RadarPage::default();
    page.accept_device(&mut reply()).unwrap();
    let device = page.device().unwrap();
    let cards = vec![
        CardTexts { score: "106".into(), price: "$5.00".into(), minutes: "25m".into() },
        CardTexts { score: "80".into(), price: "unused".into(), minutes: "10m".into() },
    ];
    let marks = radar(device, 6, &cards, &vec!["100%".to_owned()], "24 requests");
    let texts: Vec<String> = marks
        .into_iter()
        .filter_map(|m| match m {
            Mark::Label { text, .. } => Some(text),
            _ => None,
        })
        .collect();
    assert_eq!(
        texts,
        [
            "AI RADAR",
            "USB LIVE",
            "CODE / LAST 10 TASKS",
            "REQUESTS / 24H",
            "Astra max",
            "106",
            "x8",
            "$5.00   25m",
            "Luna high",
            "80",
            "x1",
            "$--   10m",
            "CODE  1/2",
            "Astra 100%",
            "24 requests",
            "RESET",
            "EST. 00:00:01",
        ]
    );
    assert_eq!(device.badge(11), "STALE 16s");
    assert_eq!(device.pages(), 2);
}

#[test]
fn compacted_snapshot_reads_as_device_data() {
    let bins = ["2"; 96].join(",");
    let snapshot = json(&format!(
        r#"{{"collected_at":1000,"errors":[],"reset":null,
        "scores":{{"points":[{{"model":"gpt-6-astra","effort":"max","score":80.0}}]}},
        "tasks":{{"total":1,"combos":[{{"model":"gpt-6-astra","effort":"max","count":1}}]}},
        "usage":{{"total":192,"models":[{{"model":"gpt-6-astra","count":192,"bins":[{bins}]}}]}}}}"#
    ));
    let scaled = vec![Scaled { score: Some(8000), price: None, minutes: Some(120) }];
    let data = compact(&snapshot, 1005, &scaled).unwrap();
    let read = DeviceData::read(&data).unwrap();
    assert!(read.validate().is_ok());
    assert_eq!(read.age, 5);
    assert_eq!(read.cards.len(), 1);
    assert_eq!(read.cards[0].1, 1);
    assert!(!read.warn);
    assert!(read.tasks);
    assert_eq!(
        compact(&snapshot, 1031, &scaled).unwrap_err(),
        "雷达数据已过期，请等待新采集结果"
    );
}

#[test]
fn unreadable_data_say_what_is_wrong() {
    let faults = [
        ("cards", "{}", "invalid type: map, expected a sequence"),
        ("cards", "[{}]", "invalid type: map, expected tuple struct Card"),
        ("cards", r#"[["a"]]"#, "invalid length 1, expected tuple struct Card with 6 elements"),
        ("cards", "[[1]]", "invalid type: integer `1`, expected a string"),
        ("series", r#"[["a",1,2,[3]]]"#, "invalid length 1, expected an array of length 24"),
        ("total", "18446744073709551615", "invalid value: integer `18446744073709551615`, expected i64"),
        ("age", "-1", "invalid value: integer `-1`, expected u64"),
        ("warn", "1.5", "invalid type: floating point `1.5`, expected a boolean"),
    ];
    for (key, value, text) in faults {
        let mut state = reply();
        state.insert_in("radar_data", key, json(value));
        assert_eq!(
            RadarPage::default().accept_device(&mut state).unwrap_err(),
            format!("设备雷达数据无效：{text}")
        );
    }
    let mut short = reply().with("radar_data", json(r#"[[],[],0]"#));
    assert_eq!(
        RadarPage::default().accept_device(&mut short).unwrap_err(),
        "设备雷达数据无效：invalid length 3, expected struct DeviceData with 7 elements"
    );
    let mut empty = reply().with("radar_data", Json::object());
    assert_eq!(
        RadarPage::default().accept_device(&mut empty).unwrap_err(),
        "设备雷达数据无效：missing field `cards`"
    );
}
