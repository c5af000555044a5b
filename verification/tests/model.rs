//! Modes, drafts, and how percentages and times are written.

use holocubic::canvas::parse_color;
use holocubic::json::Json;
use holocubic::model::{format_duration, format_percent, Mode, Settings};
use holocubic::task::{accent_hex, rgb_value, task_values};

#[test]
fn precise_percent() {
    assert_eq!(format_percent(7235), "72.35%");
    assert_eq!(format_percent(1), "0.01%");
    assert_eq!(format_percent(10000), "100.00%");
}

#[test]
fn duration_bounds() {
    let mut settings = Settings::default();
    assert_eq!(settings.duration(), Ok(1500));
    settings.hours = 168;
    settings.minutes = 0;
    assert_eq!(settings.duration(), Ok(604800));
    settings.seconds = 1;
    assert!(settings.duration().is_err());
    assert_eq!(format_duration(90061), "25:01:01");
}

#[test]
fn every_fault_of_a_draft_has_its_message() {
    let good = Settings::default();
    assert!(good.validate_task().is_ok());
    let faults: [(fn(&mut Settings), &str); 7] = [
        (|s| s.minutes = 60, "时间字段超出范围"),
        (|s| s.minutes = 0, "任务时长应在 1 秒至 7 天之间"),
        (|s| s.remaining = None, "百分比应在 0.00～100.00 之间"),
        (|s| s.remaining = Some(10001), "百分比应在 0.00～100.00 之间"),
        (|s| s.task_name = "  ".to_owned(), "任务名称需为 1～24 个字符"),
        (|s| s.task_name = "二".repeat(25), "任务名称需为 1～24 个字符"),
        (|s| s.footer = "a\nb".to_owned(), "顶部说明最多 36 个字符，不能换行"),
    ];
    for (spoil, message) in faults {
        let mut settings = Settings::default();
        spoil(&mut settings);
        assert_eq!(settings.validate_task().unwrap_err(), message);
    }
}

#[test]
fn checked_draft_can_be_sent() {
    let mut settings = Settings::default();
    settings.task_name = "  核对数据 ".to_owned();
    settings.remaining = Some(7235);
    assert!(settings.validate_task().is_ok());
    let values = task_values(&settings.to_json(), settings.remaining).unwrap();
    assert_eq!(values.title, "核对数据");
    assert_eq!(values.footer, "完成一件重要的事");
    assert_eq!(values.duration, 1500);
    assert_eq!(values.points, 7235);
    assert_eq!(values.rgb, (53, 231, 255));
    assert!(task_values(&settings.to_json(), Some(10000)).is_ok());
    assert_eq!(
        task_values(&settings.to_json(), Some(20000)).unwrap_err(),
        "时间或百分比超出范围"
    );
}

#[test]
fn every_fault_of_sent_settings_has_its_message() {
    let base = Settings::default().to_json();
    let faults: [(&str, Json, &str); 7] = [
        ("task_name", Json::text(""), "任务名称需要 1～24 个字符且不能换行"),
        ("footer", Json::text("a\rb"), "顶部说明最多 36 个字符且不能换行"),
        ("minutes", Json::Uint(60), "无效的时间字段"),
        ("minutes", Json::Uint(0), "时间或百分比超出范围"),
        ("timed", Json::Null, "timed 必须是布尔值"),
        ("looping", Json::Uint(1), "looping 必须是布尔值"),
        ("accent", Json::list(Vec::new()), "无效的 RGB 颜色"),
    ];
    for (key, value, message) in faults {
        let settings = base.clone().with(key, value);
        assert_eq!(task_values(&settings, Some(1)).unwrap_err(), message);
    }
    assert_eq!(task_values(&base, None).unwrap_err(), "时间或百分比超出范围");
}

#[test]
fn colours_read_back() {
    let settings = Settings::default().to_json();
    let text = accent_hex(&settings).unwrap();
    assert_eq!(text, "#35e7ff");
    assert_eq!(parse_color(&text).unwrap(), (53, 231, 255));
    assert_eq!(rgb_value((53, 231, 255)), 0x35e7ff);
    assert_eq!(parse_color(" ##02070B ").unwrap(), (2, 7, 11));
    assert_eq!(parse_color("#12345").unwrap_err().message(), "颜色必须是 #RRGGBB：#12345");
    assert!(parse_color("#12345G").is_err());
}

#[test]
fn modes_have_names() {
    assert_eq!(Mode::default(), Mode::Hourglass);
    let names: Vec<&str> = [
        Mode::Home,
        Mode::Hourglass,
        Mode::Text,
        Mode::Image,
        Mode::Radar,
        Mode::Calendar,
    ]
    .iter()
    .map(|m| m.name())
    .collect();
    assert_eq!(names, ["主页", "沙漏", "文字", "图片", "AI 雷达", "日历"]);
}
