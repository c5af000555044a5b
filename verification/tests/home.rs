//! The playlist.

use holocubic::home::{
    display_mode, fade_opacity, protocol_mode, Choice, Clock, Config, HomePage, Slot,
};
use holocubic::json::{read, Json};
use holocubic::model::Mode;
use holocubic::preload::check_entries;
use holocubic::readback::bytes_json;

fn json(text: &str) -> Json {
    read(text.as_bytes()).unwrap()
}

fn jpeg() -> Vec<u8> {
    let canvas = holocubic::canvas::Canvas::screen((9, 9, 9));
    holocubic::canvas::encode_jpeg(&canvas).unwrap()
}

fn clock() -> Clock {
    Clock {
        home_id: "12345678".into(),
        home_entries: vec![
            Slot { mode: "task".into(), seconds: 2 },
            Slot { mode: "radar".into(), seconds: 3 },
        ],
        home_elapsed_ms: 0,
        home_transition_ms: 1200,
    }
}

#[test]
fn playlist_phase_matches_device() {
    let clock = clock();
    clock.validate().unwrap();
    assert_eq!(clock.project(1999), (Mode::Hourglass, None));
    assert_eq!(clock.project(2200).0, Mode::Hourglass);
    assert_eq!(clock.project(2600).0, Mode::Radar);
    assert_eq!(clock.project(3200), (Mode::Radar, None));
    assert_eq!(clock.project(14800), (Mode::Hourglass, None));
    assert_eq!(
        [
            fade_opacity(0, 1200),
            fade_opacity(300, 1200),
            fade_opacity(600, 1200),
            fade_opacity(900, 1200),
            fade_opacity(1200, 1200)
        ],
        [0, 128, 255, 128, 0]
    );
}

#[test]
fn fade_is_the_smooth_curve() {
    for ms in 0..=1200u64 {
        let animation = ms as f32 / 1200.0;
        let phase = if animation <= 0.5 { animation * 2. } else { (1. - animation) * 2. };
        let phase = phase.clamp(0., 1.);
        let wanted = (phase * phase * (3. - 2. * phase) * 255.).round() as u8;
        assert_eq!(fade_opacity(ms, 1200), wanted);
    }
}

#[test]
fn selection_validation_and_defaults() {
    let mut page = HomePage::default();
    assert_eq!(page.entries().unwrap().len(), 2);
    for c in &mut page.config.choices {
        c.enabled = false;
    }
    assert!(page.entries().is_err());
    page.config.choices[0].enabled = true;
    page.config.choices[0].seconds = 0;
    assert!(page.entries().is_err());
}

#[test]
fn calendar_can_join_all_five_modes() {
    let mut page = HomePage::default();
    assert!(!page.wants_calendar());
    for choice in &mut page.config.choices {
        choice.enabled = true;
    }
    let entries = page.entries().unwrap();
    assert_eq!(entries.len(), 5);
    assert!(page.wants_calendar());
}

#[test]
fn selection_can_be_started() {
    let page = HomePage::default();
    let entries = page.entries().unwrap();
    assert!(check_entries(&entries).is_none());
    assert_eq!(entries[0].get_str("mode"), Some("task"));
    assert_eq!(entries[1].get_u64("seconds"), Some(15));
    assert!(page.wants_radar());
}

#[test]
fn bad_selections_have_their_messages() {
    let twice = Config {
        choices: vec![
            Choice { mode: Mode::Text, enabled: true, seconds: 1 },
            Choice { mode: Mode::Text, enabled: true, seconds: 2 },
        ],
    };
    assert_eq!(
        HomePage::new(twice).entries().unwrap_err(),
        "轮播时长应为1～3600秒，画面不能重复"
    );
    let itself = Config { choices: vec![Choice { mode: Mode::Home, enabled: true, seconds: 1 }] };
    assert_eq!(HomePage::new(itself).entries().unwrap_err(), "主页不能作为自己的轮播画面");
    let none = Config { choices: Vec::new() };
    assert_eq!(HomePage::new(none).entries().unwrap_err(), "请勾选至少一个轮播画面");
}

#[test]
fn names_and_modes_correspond() {
    for mode in [Mode::Hourglass, Mode::Radar, Mode::Calendar, Mode::Text, Mode::Image] {
        assert_eq!(display_mode(protocol_mode(mode).unwrap()), Some(mode));
    }
    assert_eq!(protocol_mode(Mode::Home), None);
    assert_eq!(display_mode("home"), None);
}

#[test]
fn bad_clocks_are_refused() {
    let mut far = clock();
    far.home_elapsed_ms = 7400;
    assert_eq!(far.cycle(), 7400);
    assert_eq!(far.validate().unwrap_err(), "轮播时钟回执无效");
    let mut fast = clock();
    fast.home_transition_ms = 0;
    assert!(fast.validate().is_err());
    let mut named = clock();
    named.home_id = "1234567g".into();
    assert!(named.validate().is_err());
    let mut twice = clock();
    twice.home_entries[1].mode = "task".into();
    assert_eq!(twice.validate().unwrap_err(), "轮播回执包含无效画面或时长");
    let mut long = clock();
    long.home_entries[0].seconds = 3601;
    assert!(long.validate().is_err());
    let single = Clock {
        home_id: "abcdef01".into(),
        home_entries: vec![Slot { mode: "image".into(), seconds: 1 }],
        home_elapsed_ms: 999,
        home_transition_ms: 0,
    };
    single.validate().unwrap();
    assert_eq!(single.project(u64::MAX), (Mode::Image, None));
}

#[test]
fn playlist_goes_round() {
    let clock = clock();
    for ms in [0u64, 1999, 2000, 2599, 2600, 3199, 3200, 6199, 6200, 6800, 7399] {
        assert_eq!(clock.project(ms), clock.project(ms + clock.cycle()));
    }
    assert_eq!(clock.project(6800), (Mode::Hourglass, Some(600)));
    assert_eq!(clock.project(6799), (Mode::Radar, Some(599)));
}

fn running(extra: &str) -> Json {
    json(&format!(
        r#"{{"mode":"home","home_id":"12345678","home_entries":[{{"mode":"text","seconds":5}},["radar",6]],
        "home_elapsed_ms":100,"home_transition_ms":1200{extra}}}"#
    ))
}

#[test]
fn device_playlist_is_taken_over() {
    let mut page = HomePage::default();
    page.accept(&mut running("")).unwrap();
    assert!(page.running() && page.has_radar() && !page.has_calendar());
    assert_eq!(page.shown(0), (Some(Mode::Text), None));
    page.accept(&mut json(r#"{"mode":"task"}"#)).unwrap();
    assert!(!page.running());
    assert_eq!(page.shown(0), (Some(Mode::Hourglass), None));
    page.accept(&mut json(r#"{"mode":"image","held_mode":"text"}"#)).unwrap();
    assert_eq!(page.shown(0).0, Some(Mode::Text));
    page.accept(&mut json(r#"{"mode":"image"}"#)).unwrap();
    assert_eq!(page.shown(0).0, None);
    assert_eq!(
        page.accept(&mut json(r#"{"mode":"home"}"#)).unwrap_err(),
        "轮播状态无效：missing field `home_id`"
    );
}

#[test]
fn playlist_pictures_are_checked_and_kept() {
    let mut page = HomePage::default();
    let picture = jpeg();
    let meta = Json::object()
        .with("crc32", Json::text("aabbccdd"))
        .with("size", Json::Uint(picture.len() as u64))
        .with("data", bytes_json(&picture));
    let images = Json::object().with("text", meta.clone());
    let mut value = running("").with("home_images", images);
    page.accept(&mut value).unwrap();
    assert!(value.get_in("home_images", "text").unwrap().get("data").is_none());
    assert_eq!(page.asset_crcs().get_str("text"), Some("aabbccdd"));
    assert_eq!(page.picture(Mode::Text).unwrap().rgba.width, 320);
    page.accept(&mut value).unwrap();
    let wrong = Json::object().with("text", meta.clone().with("size", Json::Uint(1)));
    let mut refused = running("").with("home_images", wrong);
    assert_eq!(page.accept(&mut refused).unwrap_err(), "轮播图片大小不匹配");
    assert!(refused.get_in("home_images", "text").unwrap().get("data").is_none());
    let unknown = Json::object().with("zebra", meta.clone());
    assert_eq!(
        page.accept(&mut running("").with("home_images", unknown)).unwrap_err(),
        "未知轮播图片类型"
    );
    let nameless = Json::object().with("image", Json::object());
    assert_eq!(
        page.accept(&mut running("").with("home_images", nameless)).unwrap_err(),
        "图片缺少校验值"
    );
    let absent =
        Json::object().with("image", Json::object().with("crc32", Json::text("00000000")));
    assert_eq!(
        page.accept(&mut running("").with("home_images", absent)).unwrap_err(),
        "轮播图片尚未完整回读"
    );
    assert_eq!(page.asset_crcs().get_str("text"), Some("aabbccdd"));
    page.clear_device();
    assert!(page.asset_crcs().get("text").is_none());
}

#[test]
fn unreadable_playlists_say_what_is_wrong() {
    let said = |value: Json| HomePage::default().accept(&mut value.clone()).unwrap_err();
    let odd = running("").with("home_transition_ms", Json::Null).with("home_id", Json::Uint(7));
    assert_eq!(said(odd), "轮播状态无效：invalid type: integer `7`, expected a string");
    let mut bare = running("");
    bare.remove("home_elapsed_ms");
    bare.remove("home_entries");
    assert_eq!(said(bare), "轮播状态无效：missing field `home_entries`");
    let scenes = [
        (r#"1"#, "invalid type: integer `1`, expected a sequence"),
        (r#"[5]"#, "invalid type: integer `5`, expected struct Slot"),
        (r#"[["task"]]"#, "invalid length 1, expected struct Slot with 2 elements"),
        (r#"[["task",1,2]]"#, "invalid length 3, expected fewer elements in array"),
        (r#"[{"mode":"task"}]"#, "missing field `seconds`"),
        (r#"[{"mode":"task","seconds":-1}]"#, "invalid value: integer `-1`, expected u32"),
    ];
    for (entries, text) in scenes {
        let value = running("").with("home_entries", json(entries));
        assert_eq!(said(value), format!("轮播状态无效：{text}"));
    }
    let images = json(r#"{"text":{"crc32":"aabbccdd","size":1,"data":[300]}}"#);
    let value = running("").with("home_images", images);
    assert_eq!(said(value), "invalid value: integer `300`, expected u8");
}

#[test]
fn selection_is_that_of_the_settings() {
    let mut config = Config::default();
    for choice in &mut config.choices {
        choice.enabled = choice.mode == Mode::Radar;
    }
    let page = HomePage::new(config);
    assert!(page.wants_radar() && !page.wants_calendar());
    assert_eq!(page.entries().unwrap().len(), 1);
    let nothing = HomePage::new(Config { choices: Vec::new() });
    assert!(!nothing.wants_radar());
    assert_eq!(nothing.entries().unwrap_err(), "请勾选至少一个轮播画面");
}
