//! The calendar: reading a day, its signature, and its page.

use holocubic::calendar::{CalendarPage, Snapshot};
use holocubic::calendar_data::{
    choose_account, current_account, day_key, day_record, decode_text, json_dumps_sorted,
    parse_items, split_lines, weave, weekday_label, Account, Day, Setting,
};
use holocubic::json::{dump, read, Json};
use holocubic::radar::refresh_due;
use holocubic::readback::bytes_json;

fn json(text: &str) -> Json {
    read(text.as_bytes()).unwrap()
}

fn jpeg() -> Vec<u8> {
    let canvas = holocubic::canvas::Canvas::screen((1, 2, 3));
    holocubic::canvas::encode_jpeg(&canvas).unwrap()
}

fn setting(name: &str, number: i64, text: &str) -> Setting {
    Setting { name: name.to_owned(), number, text: text.to_owned() }
}

fn settings() -> Vec<Setting> {
    let accounts = r#"{"vdata":{"list":[{"id":1,"name":"工作"},{"id":2,"name":"生活"}]}}"#
        .replace('"', "|&quot;|");
    vec![
        setting("sys_current_sub_account", 1, ""),
        setting("sys_sub_account_list", 0, &accounts),
        setting("group_id", 0, ""),
    ]
}

const DAY: Day = Day { year: 2026, month: 9, day: 8 };

#[test]
fn collection_does_not_replace_device_preview() {
    let mut page = CalendarPage::default();
    page.collected(Ok(json(r#"{"signature":"1234567890abcdef"}"#)));
    assert!(page.needs_send());
    assert!(page.display().is_none());
    assert!(!refresh_due(false, false, None));
}

#[test]
fn invalid_page_metadata_is_rejected() {
    let mut page = CalendarPage::default();
    let mut state = json(
        r#"{"mode":"calendar","calendar_signature":"1234567890abcdef",
            "calendar_elapsed_ms":0,"calendar_page_ms":8000,"calendar_pages":[]}"#,
    );
    assert!(page.accept(&mut state).is_err());
    assert!(page.display().is_none());
}

#[test]
fn parse_completion_and_color_markup() {
    let items = parse_items(
        "普通[+]正文\r\n|&lt;|font color=|&quot;|#FF0000|&quot;||&gt;|[+]完成|&lt;|/font|&gt;|\r\n\r\n",
    );
    assert_eq!(items.len(), 2);
    assert_eq!(items[0].get_str("text"), Some("普通[+]正文"));
    assert_eq!(items[0].get_bool("done"), Some(false));
    assert_eq!(items[1].get_str("text"), Some("完成"));
    assert_eq!(items[1].get_bool("done"), Some(true));
}

#[test]
fn collect_today_account_only() {
    let mut rows = settings();
    rows.push(setting("user_token", 0, "DO_NOT_READ"));
    let account = current_account(&rows).unwrap();
    assert_eq!(account.id, 1);
    assert_eq!(account.name, "工作");
    assert_eq!(account.group, "");
    assert_eq!(day_key(DAY).unwrap(), "dkcal_mdays_20260908");
    let rows = vec!["待办\r\n[+]已完成".to_owned()];
    let result = day_record(&account, DAY, &rows, "calendar.db").unwrap();
    assert_eq!(result.get_u64("total"), Some(2));
    assert_eq!(result.get_u64("done"), Some(1));
    assert_eq!(result.get_str("account"), Some("工作"));
    let items = result.get_array("items").unwrap();
    assert_eq!(items[0].get_str("text"), Some("待办"));
    assert_eq!(items[1].get_bool("done"), Some(true));
    assert!(!dump(&result).contains("DO_NOT_READ"));
    let again = day_record(&account, DAY, &rows, "elsewhere.db").unwrap();
    assert_eq!(result.get_str("signature"), again.get_str("signature"));
    assert_eq!(result.get_str("signature").unwrap().len(), 16);
    let empty = day_record(&account, Day { day: 9, ..DAY }, &Vec::new(), "calendar.db").unwrap();
    assert_eq!(empty.get_u64("total"), Some(0));
    assert_ne!(result.get_str("signature"), empty.get_str("signature"));
}

#[test]
fn day_has_its_date_and_weekday() {
    let account = Account { id: 7, name: "n".into(), group: "".into() };
    let record = day_record(&account, DAY, &Vec::new(), "p").unwrap();
    assert_eq!(record.get_str("date"), Some("2026-09-08"));
    assert_eq!(record.get_str("weekday"), Some("周二"));
    assert_eq!(record.get_str("db_path"), Some("p"));
    assert_eq!(record.get_u64("layout"), Some(2));
    assert_eq!(weekday_label(6), "周日");
    for (year, month, day, date, week) in [
        (2024, 2, 29, "2024-02-29", "周四"),
        (2000, 2, 29, "2000-02-29", "周二"),
        (1970, 1, 1, "1970-01-01", "周四"),
        (1, 1, 1, "0001-01-01", "周一"),
        (0, 12, 31, "0000-12-31", "周日"),
        (-1, 3, 1, "-0001-03-01", "周一"),
        (12345, 6, 7, "+12345-06-07", "周四"),
    ] {
        let record = day_record(&account, Day { year, month, day }, &Vec::new(), "p").unwrap();
        assert_eq!(record.get_str("date"), Some(date));
        assert_eq!(record.get_str("weekday"), Some(week));
    }
    for (year, month, day) in [(1900, 2, 29), (2023, 2, 29), (2026, 4, 31), (2026, 13, 1), (2026, 0, 1), (2026, 1, 0), (262143, 1, 1), (-262144, 1, 1)] {
        assert!(day_key(Day { year, month, day }).is_none());
    }
    assert!(day_key(Day { year: 262142, month: 12, day: 31 }).is_some());
    assert!(day_key(Day { year: -262143, month: 1, day: 1 }).is_some());
    let never = Day { year: 2026, month: 2, day: 30 };
    assert!(day_key(never).is_none());
    assert_eq!(day_record(&account, never, &Vec::new(), "p").unwrap_err(), "日期无效");
    let two = vec!["a".to_owned(), "b".to_owned()];
    assert_eq!(
        day_record(&account, DAY, &two, "p").unwrap_err(),
        "当天日格存在多条记录，需先核对日历数据，未擅自合并"
    );
}

#[test]
fn signature_is_the_sum_of_the_sorted_text() {
    let account = Account { id: 7, name: "n".into(), group: "".into() };
    let record = day_record(&account, DAY, &vec!["a".to_owned()], "p").unwrap();
    let text = "{\"account\": \"n\", \"account_id\": 7, \"date\": \"2026-09-08\", \"done\": 0, \"items\": [{\"done\": false, \"text\": \"a\"}], \"layout\": 2, \"total\": 1, \"weekday\": \"周二\"}";
    let mut plain = record.clone();
    plain.remove("signature");
    plain.remove("db_path");
    assert_eq!(json_dumps_sorted(&plain), text);
    let sum = <sha2::Sha256 as sha2::Digest>::digest(text.as_bytes());
    let hex: String = sum.iter().map(|b| format!("{b:02x}")).collect();
    assert_eq!(record.get_str("signature"), Some(&hex[..16]));
}

#[test]
fn sorted_text_has_spaces_and_order() {
    let value = json(r#"{"b":[1,-2,{"z":null,"a":true}],"a":"x\"y","é":"","Z":{}}"#);
    assert_eq!(
        json_dumps_sorted(&value),
        "{\"Z\": {}, \"a\": \"x\\\"y\", \"b\": [1, -2, {\"a\": true, \"z\": null}], \"é\": \"\"}"
    );
}

#[test]
fn accounts_are_found_or_refused() {
    let missing = "请在日历清单中选择一个具体子日历";
    assert_eq!(current_account(&Vec::new()).unwrap_err(), missing);
    let mut all = settings();
    all.push(setting("sys_current_sub_account", -1, ""));
    assert_eq!(current_account(&all).unwrap_err(), missing);
    all.push(setting("sys_current_sub_account", 2, ""));
    assert_eq!(current_account(&all).unwrap().name, "生活");
    all.push(setting("sys_current_sub_account", 3, ""));
    assert_eq!(current_account(&all).unwrap_err(), missing);
    all.push(setting("sys_sub_account_list", 0, "{}"));
    assert_eq!(current_account(&all).unwrap_err(), "子日历列表无效");
    all.push(setting("sys_sub_account_list", 0, "{"));
    assert!(current_account(&all).is_err());
    assert_eq!(choose_account(Err("坏".to_owned()), 1).unwrap_err(), "坏");
    let list = vec![setting("sys_current_sub_account", 1, "")];
    assert_eq!(current_account(&list).unwrap_err(), missing);
}

#[test]
fn texts_are_decoded() {
    assert_eq!(decode_text("a|&amp;|b"), "a&b");
    assert_eq!(decode_text("x|&lt;|FONT size=2|&gt;|y|&lt;|/font|&gt;|"), "xy");
    assert_eq!(decode_text("1&nbsp;2&#65;"), "1 2A");
    assert_eq!(decode_text("|plain|"), "|plain|");
    assert_eq!(
        weave(&vec!["a".into(), "b".into(), "c".into()], &vec!["1".into(), "2".into()]),
        "a1b2c"
    );
    assert_eq!(split_lines("a\n\nb"), ["a", "", "b"]);
    assert_eq!(split_lines(""), [""]);
    assert!(parse_items("  \n[+]  \n").is_empty());
    assert_eq!(parse_items(" [+] x ")[0].get_str("text"), Some("x"));
}

fn shown(data: bool) -> Json {
    let picture = jpeg();
    let mut meta = Json::object()
        .with("crc32", Json::text("00000000"))
        .with("size", Json::Uint(picture.len() as u64));
    if data {
        meta.insert("data", bytes_json(&picture));
    }
    json(
        r#"{"mode":"calendar","calendar_signature":"1234567890abcdef",
            "calendar_elapsed_ms":0,"calendar_page_ms":0}"#,
    )
    .with("calendar_pages", Json::list(vec![meta]))
}

#[test]
fn page_comes_once_and_is_kept() {
    let mut page = CalendarPage::default();
    assert_eq!(
        page.accept(&mut shown(false)).unwrap_err(),
        "日历页面尚未完整回读，请重新检测连接"
    );
    let mut whole = shown(true);
    page.accept(&mut whole).unwrap();
    assert!(whole.get_array("calendar_pages").unwrap()[0].get("data").is_none());
    assert_eq!(page.signature(), Some("1234567890abcdef"));
    assert_eq!(page.display().unwrap().page.height, 240);
    page.accept(&mut whole).unwrap();
    page.collected(Ok(json(r#"{"signature":"1234567890abcdef"}"#)));
    assert!(!page.needs_send());
    page.collected(Ok(json(r#"{"signature":"fedcba0987654321"}"#)));
    assert!(page.needs_send());
    page.collected(Err("坏".to_owned()));
    assert_eq!(page.error(), Some("坏"));
    assert!(page.ready());
    page.accept(&mut json(r#"{"mode":"task"}"#)).unwrap();
    assert!(page.signature().is_none());
}

#[test]
fn every_fault_of_a_calendar_reply_has_its_message() {
    for (key, message) in [
        ("calendar_signature", "日历缺少签名"),
        ("calendar_elapsed_ms", "日历缺少分页相位"),
        ("calendar_page_ms", "日历缺少分页时长"),
        ("calendar_pages", "日历缺少页面列表"),
    ] {
        let mut page = CalendarPage::default();
        let mut state = shown(true);
        state.remove(key);
        assert_eq!(page.accept(&mut state).unwrap_err(), message);
    }
    let mut page = CalendarPage::default();
    let mut turning = shown(true).with("calendar_elapsed_ms", Json::Uint(1));
    assert_eq!(page.accept(&mut turning).unwrap_err(), "日历分页回执无效");
    let meta = Json::object().with("size", Json::Uint(3)).with("data", bytes_json(b"ab"));
    let mut short = shown(true).with("calendar_pages", Json::list(vec![meta]));
    assert_eq!(page.accept(&mut short).unwrap_err(), "日历图片大小不一致");
}

#[test]
fn record_can_be_listed() {
    let account = Account { id: 7, name: "工作".into(), group: "".into() };
    let record = day_record(&account, DAY, &vec!["a\n[+]b".to_owned()], "/db").unwrap();
    let list = Snapshot::read(&record).unwrap();
    assert_eq!(list.date, "2026-09-08");
    assert_eq!(list.account, "工作");
    assert_eq!(list.db_path, "/db");
    assert_eq!(list.items.len(), 2);
    assert_eq!(list.items[1].text, "b");
    assert!(list.items[1].done && !list.items[0].done);
    let row = json(r#"["2026-09-08","工作","/db",[["b",true]]]"#);
    assert_eq!(Snapshot::read(&row).unwrap().items[0].text, "b");
    let faults = [
        ("null", "invalid type: null, expected struct Snapshot"),
        (r#"{"date":"d"}"#, "missing field `account`"),
        (r#"{"items":[{"text":"a"}]}"#, "missing field `done`"),
        (r#"{"items":[],"date":[]}"#, "invalid type: sequence, expected a string"),
    ];
    for (value, text) in faults {
        assert_eq!(Snapshot::read(&json(value)).unwrap_err(), text);
    }
}
