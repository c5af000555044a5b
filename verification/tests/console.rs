//! The console: what is asked of the device and what becomes of the answers.

use holocubic::console::{action_name, mode_command, run_label, Console, Next};
use holocubic::home::HomePage;
use holocubic::json::{read, Json};
use holocubic::mirror::TaskState;
use holocubic::model::{Mode, Settings};

fn json(text: &str) -> Json {
    read(text.as_bytes()).unwrap()
}

fn console() -> Console {
    Console::new(HomePage::default(), "就绪", false)
}

fn connected() -> Console {
    let mut console = console();
    assert!(matches!(console.complete("status", Ok(json(r#"{"mode":"image"}"#)), ""), Next::Rest));
    assert!(console.connected());
    console
}

#[test]
fn idle_gui_does_not_poll_usb() {
    let console = connected();
    for frame in 0..100u64 {
        assert!(!console.calendar_due(), "空闲界面不能发起后台 USB 查询");
        assert!(!console.radar_due(10_000 + frame), "空闲界面不能发起后台 USB 查询");
        assert!(console.pending().is_none());
    }
}

#[test]
fn one_action_at_a_time() {
    let mut console = connected();
    let settings = Settings { port: "COM4".into(), ..Settings::default() };
    let request = console.submit("text", &settings).unwrap();
    assert_eq!(request.get_str("action"), Some("text"));
    assert_eq!(request.get_str("port"), Some("COM4"));
    assert!(request.get("labels_crc").unwrap().is_null());
    assert_eq!(console.pending(), Some("text"));
    assert!(console.changing());
    assert!(console.submit("clear", &settings).is_none());
    assert!(!console.can_apply(Mode::Text));
    console.complete("text", Ok(json(r#"{"mode":"image"}"#)), "COM4");
    assert_eq!(console.message(), ("发送文字：设备已确认", false));
    assert!(console.can_apply(Mode::Text));
    assert_eq!(console.state().unwrap().get_str("mode"), Some("image"));
}

#[test]
fn missing_data_are_named() {
    let mut console = connected();
    let settings = Settings::default();
    assert!(console.submit("radar_usb", &settings).is_none());
    assert_eq!(console.message(), ("请等待雷达首次采集完成", true));
    assert!(console.submit("calendar_only", &settings).is_none());
    assert_eq!(console.message(), ("请等待首次日历读取完成", true));
    let unnamed = Settings { task_name: " ".into(), ..Settings::default() };
    assert!(console.submit("task", &unnamed).is_none());
    assert!(console.message().1);
    assert!(console.pending().is_none());
    assert!(!console.can_apply(Mode::Radar));
    assert!(!console.can_apply(Mode::Calendar));
}

#[test]
fn failure_ends_the_connection() {
    let mut console = connected();
    console.complete("text", Err("断开".to_owned()), "");
    assert!(!console.connected());
    assert_eq!(console.message(), ("断开", true));
    let mut console = connected();
    console.complete("browse", Err("取消".to_owned()), "");
    assert!(console.connected());
}

#[test]
fn refused_answer_leaves_nothing() {
    let mut console = connected();
    console.complete("status", Ok(json(r#"{"mode":"radar","radar_mirror_protocol":1}"#)), "");
    assert!(!console.connected());
    assert!(console.message().1);
    assert!(console.radar.device().is_none());
    console.port_changed();
    assert!(console.state().is_none());
}

#[test]
fn only_device_is_chosen() {
    let mut console = console();
    let listed = r#"{"ports":[{"device":"COM1","vid":1,"pid":2},{"device":"COM2","vid":12346,"pid":4097}]}"#;
    match console.complete("ports", Ok(json(listed)), "") {
        Next::Ports(Some(port)) => assert_eq!(port, "COM2"),
        other => panic!("{other:?}"),
    }
    assert_eq!(console.ports(), &["COM1", "COM2"]);
    assert!(matches!(console.complete("ports", Ok(json(listed)), "COM1"), Next::Ports(None)));
    assert!(matches!(
        console.complete("browse", Ok(json(r#"{"path":"a.png"}"#)), ""),
        Next::Picture(p) if p == "a.png"
    ));
    assert!(matches!(console.complete("browse", Ok(json(r#"{"path":""}"#)), ""), Next::Rest));
}

#[test]
fn radar_is_kept_in_step() {
    let mut console = connected();
    console.radar.collected(Ok(json("{}")));
    let request = console.submit("radar_usb", &Settings::default()).unwrap();
    assert!(request.get("snapshot").is_some());
    let ones = ["1"; 24].join(",");
    let answer = json(&format!(
        r#"{{"mode":"radar","radar_mirror_protocol":1,"crc32":"12345678","age":5,"scene_seconds":6,
            "radar_data":{{"cards":[["Astra max",8,1,1,1,1]],"series":[["Astra",1,24,[{ones}]]],
            "total":24,"reset":10,"age":2,"warn":false,"tasks":true}}}}"#
    ));
    console.complete("radar_usb", Ok(answer), "");
    assert_eq!(console.message(), ("同步雷达：设备已确认", false));
    assert!(console.radar_sync());
    assert!(!console.radar_due(5000));
    console.radar.collected(Ok(json("{}")));
    assert!(!console.radar_due(4999));
    assert!(console.radar_due(5000));
    assert!(console.radar_active(Mode::Text));
    assert!(!console.calendar_active(Mode::Text));
    console.stop_radar_sync();
    assert!(!console.radar_due(5000));
}

#[test]
fn window_is_captured_when_it_shows_something() {
    let mut console = console();
    assert!(!console.capture_due(Mode::Text, 3000));
    assert!(console.capture_due(Mode::Text, 3001));
    assert!(!console.capture_due(Mode::Radar, 3001));
    console.radar.collected(Err("x".to_owned()));
    assert!(console.capture_due(Mode::Radar, 3001));
    assert!(!console.capture_due(Mode::Calendar, 3001));
}

#[test]
fn actions_and_modes_have_names() {
    assert_eq!(action_name("home_stop"), "停止轮播");
    assert_eq!(action_name("dance"), "dance");
    assert_eq!(mode_command(Mode::Hourglass), ("task", "应用并开始"));
    assert_eq!(mode_command(Mode::Calendar).0, "calendar_only");
    console().report("好");
    let mut task = TaskState {
        bp: 1,
        initial_bp: 1,
        timed: false,
        looping: true,
        reset_seconds: 5,
        counter: 0,
        frames: 0,
        paused: true,
        duration: 5,
        accent: 0,
        labels_crc: "00000000".into(),
    };
    assert_eq!(run_label(&task), "已暂停");
    task.paused = false;
    assert_eq!(run_label(&task), "循环运行");
    task.looping = false;
    assert_eq!(run_label(&task), "运行中");
    task.reset_seconds = 0;
    assert_eq!(run_label(&task), "已完成");
}

#[test]
fn null_part_is_told_how_long_it_was_under_way() {
    let mut console = connected();
    let answer = json(
        r#"{"mode":"home","_transport_ms":7,"radar":null,"home_id":"12345678",
        "home_entries":[{"mode":"text","seconds":5}],"home_elapsed_ms":100,
        "home_transition_ms":0}"#,
    );
    console.complete("status", Ok(answer), "");
    assert_eq!(console.message().1, false, "{}", console.message().0);
    let radar = console.state().unwrap().get("radar").unwrap();
    assert_eq!(radar.get_u64("_transport_ms"), Some(7));
}
