//! Scripts run against a device that is played by the tests.

use base64::Engine;
use holocubic::bridge::{call, route, session_id, Route};
use holocubic::device::device_port;
use holocubic::json::{dump, read, Json};
use holocubic::playlist::{mirror_state, Known};
use holocubic::protocol::{crc32_hex, ProtocolError, USB_PID, USB_VID};
use holocubic::readback::{bytes_from_json_array, bytes_json};
use holocubic::radar_data::Scaled;
use holocubic::script::{Answer, Ask, Halt};
use holocubic::usb::{
    describe_port, find_holocubic_port, list_ports_result, HoloCubicUsb, PortInfo, UsbIdentity,
};

fn json(text: &str) -> Json {
    read(text.as_bytes()).unwrap()
}

/// A device that keeps what it is sent and gives it back.
struct Fake {
    state: Json,
    target: String,
    incoming: Vec<u8>,
    stored: Vec<(String, Vec<u8>)>,
    sent: Vec<String>,
    refuse: &'static str,
    wrong_sum: bool,
    now: i64,
    seconds_per_command: i64,
}

impl Fake {
    fn new() -> Fake {
        Fake {
            state: json(
                r#"{"mode":"image","task_protocol":1,"mirror_protocol":1,"loop_protocol":1,
                "radar_protocol":1,"radar_mirror_protocol":1,"calendar_protocol":1,"home_protocol":1}"#,
            ),
            target: String::new(),
            incoming: Vec::new(),
            stored: Vec::new(),
            sent: Vec::new(),
            refuse: "",
            wrong_sum: false,
            now: 1000,
            seconds_per_command: 0,
        }
    }

    fn kept(&self, target: &str) -> Vec<u8> {
        self.stored.iter().rev().find(|(t, _)| t == target).map(|(_, d)| d.clone()).unwrap()
    }

    fn part(&self, data: &[u8], command: &Json) -> Json {
        let offset = command.get_u64("offset").unwrap() as usize;
        let end = data.len().min(offset + 192);
        let text = base64::engine::general_purpose::STANDARD.encode(&data[offset..end]);
        let mut part = Json::object()
            .with("crc32", Json::text(&crc32_hex(data)))
            .with("offset", Json::Uint(offset as u64))
            .with("data", Json::text(&text));
        if let Some(page) = command.get("page") {
            part.insert("page", page.clone());
        }
        part
    }

    fn calendar(&self, signature: &str) -> Json {
        let page = self.kept("calendar_b_01");
        let meta = Json::object()
            .with("size", Json::Uint(page.len() as u64))
            .with("crc32", Json::text(&crc32_hex(&page)));
        json(r#"{"mode":"calendar","calendar_elapsed_ms":0,"calendar_page_ms":0}"#)
            .with("calendar_signature", Json::text(signature))
            .with("calendar_pages", Json::list(vec![meta]))
    }

    fn request(&mut self, command: &Json) -> Answer {
        let name = command.get_str("cmd").unwrap().to_owned();
        self.sent.push(name.clone());
        self.now += self.seconds_per_command;
        if name == self.refuse {
            return Answer::Failed("拒绝".to_owned());
        }
        Answer::Value(match name.as_str() {
            "image_begin" => {
                self.target = command.get_str("target").unwrap().to_owned();
                self.incoming.clear();
                Json::object()
            }
            "image_chunk" | "radar_chunk" => {
                let text = command.get_str("data").unwrap();
                let bytes = base64::engine::general_purpose::STANDARD.decode(text).unwrap();
                self.incoming.extend_from_slice(&bytes);
                let next = command.get_u64("seq").unwrap() + 1;
                Json::object().with("next_seq", Json::Uint(next))
            }
            "image_end" => {
                let data = self.incoming.clone();
                let status = if self.target == "frame" { "displayed" } else { "stored" };
                let crc = if self.wrong_sum { "00000000".to_owned() } else { crc32_hex(&data) };
                self.stored.push((self.target.clone(), data.clone()));
                Json::object()
                    .with("status", Json::text(status))
                    .with("bytes", Json::Uint(data.len() as u64))
                    .with("crc32", Json::text(&crc))
            }
            "radar_begin" => {
                self.incoming.clear();
                Json::object()
            }
            "radar_end" => {
                let data = self.incoming.clone();
                self.stored.push(("radar".to_owned(), data.clone()));
                self.state = self
                    .state
                    .clone()
                    .with("mode", Json::text("radar"))
                    .with("radar_size", Json::Uint(data.len() as u64))
                    .with("crc32", Json::text(&crc32_hex(&data)));
                self.state.clone()
            }
            "radar_read" => self.part(&self.kept("radar"), command),
            "task" => {
                let labels = self.kept("task_labels");
                self.state = self
                    .state
                    .clone()
                    .with("mode", Json::text("task"))
                    .with("bp", command.get("bp").unwrap().clone())
                    .with("looping", command.get("looping").unwrap().clone())
                    .with("labels_crc", Json::text(&crc32_hex(&labels)))
                    .with("labels_size", Json::Uint(labels.len() as u64));
                self.state.clone()
            }
            "task_labels_read" => self.part(&self.kept("task_labels"), command),
            "calendar_begin" => Json::object().with("bank", Json::text("b")),
            "calendar_commit" => {
                self.state = self.calendar(command.get_str("signature").unwrap());
                self.state.clone()
            }
            "calendar_read" => self.part(&self.kept("calendar_b_01"), command),
            "home_apply" => {
                let picture = self.kept("home_text");
                let meta = Json::object()
                    .with("crc32", Json::text(&crc32_hex(&picture)))
                    .with("size", Json::Uint(picture.len() as u64));
                self.state = Json::object()
                    .with("mode", Json::text("home"))
                    .with("home_protocol", Json::Uint(1))
                    .with("home_id", command.get("session").unwrap().clone())
                    .with("home_entries", command.get("entries").unwrap().clone())
                    .with("home_images", Json::object().with("text", meta));
                self.state.clone()
            }
            "home_asset_read" => self.part(&self.kept("home_text"), command),
            "status" => self.state.clone(),
            _ => Json::object(),
        })
    }

    fn serve(&mut self, ask: &Ask) -> Answer {
        match ask {
            Ask::Request { command, .. } => self.request(command),
            Ask::Ready { .. } => Answer::Value(self.state.clone()),
            Ask::Labels { title, footer } => Answer::Bytes(format!("{title}/{footer}").into_bytes()),
            Ask::Text { body, .. } => Answer::Bytes(body.repeat(120).into_bytes()),
            Ask::Image { path } => Answer::Bytes(path.clone().into_bytes()),
            Ask::Pages { .. } => Answer::Pages(vec![vec![7; 500]]),
            Ask::Session => Answer::Text("deadbeef".to_owned()),
            Ask::Time => Answer::Time(self.now),
        }
    }

    fn run(&mut self, request: &Json, points: Option<u32>) -> Result<Json, String> {
        let mut device = HoloCubicUsb::new("COM9");
        let scaled = vec![Scaled { score: Some(8000), price: None, minutes: Some(120) }];
        loop {
            match call(&mut device, request, points, &scaled) {
                Ok(state) => return Ok(state),
                Err(Halt::Failed(ProtocolError(message))) => return Err(message),
                Err(Halt::Ask(ask)) => device.answer(self.serve(&ask)),
            }
        }
    }
}

fn settings() -> Json {
    json(
        r#"{"task_name":" 题 ","footer":"注","hours":0,"minutes":25,"seconds":0,"timed":true,
        "looping":false,"accent":[1,2,255],"text_title":"t","text_body":"正文","image_path":"p.png"}"#,
    )
}

fn snapshot() -> Json {
    let bins = ["2"; 96].join(",");
    json(&format!(
        r#"{{"collected_at":1000,"errors":[],"reset":null,
        "scores":{{"points":[{{"model":"gpt-6-astra","effort":"max","score":80.0}}]}},
        "tasks":{{"total":1,"combos":[{{"model":"gpt-6-astra","effort":"max","count":1}}]}},
        "usage":{{"total":192,"models":[{{"model":"gpt-6-astra","count":192,"bins":[{bins}]}}]}}}}"#
    ))
}

fn action(name: &str) -> Json {
    Json::object().with("action", Json::text(name)).with("settings", settings())
}

fn info(device: &str, vid: u16) -> PortInfo {
    PortInfo {
        device: device.into(),
        description: "".into(),
        vid: Some(vid),
        pid: Some(USB_PID),
        serial_number: None,
    }
}

#[test]
fn find_port_respects_explicit_name() {
    let port = find_holocubic_port(Some("COM4"), Ok(Vec::new())).unwrap();
    assert_eq!(port, "COM4");
}

#[test]
fn port_info_json_includes_vid_pid_fields() {
    let info = PortInfo {
        device: "/dev/ttyACM0".into(),
        description: "USB JTAG".into(),
        vid: Some(USB_VID),
        pid: Some(USB_PID),
        serial_number: Some("ABC".into()),
    };
    let value = info.to_json();
    assert_eq!(value.get_u64("vid"), Some(USB_VID as u64));
    assert_eq!(value.get_u64("pid"), Some(USB_PID as u64));
    assert_eq!(value.get_str("device"), Some("/dev/ttyACM0"));
    let listed = list_ports_result(&vec![info]);
    let first = &listed.get_array("ports").unwrap()[0];
    assert_eq!(first.get_str("serial_number"), Some("ABC"));
}

#[test]
fn only_port_with_the_device_is_found() {
    let ports = vec![info("COM1", 1), info("COM2", USB_VID)];
    assert_eq!(find_holocubic_port(None, Ok(ports)).unwrap(), "COM2");
    assert_eq!(
        find_holocubic_port(Some(""), Ok(vec![info("COM1", 1)])).unwrap_err().0,
        "未找到 Espressif 303A:1001 串口，请检查 USB 线或用 --port COMx 指定。"
    );
    let two = vec![info("COM1", USB_VID), info("COM2", USB_VID)];
    assert_eq!(
        find_holocubic_port(None, Ok(two)).unwrap_err().0,
        "找到多个 ESP32-S3 串口：COM1, COM2，请用 --port 指定。"
    );
    let broken = Err(ProtocolError("坏".to_owned()));
    assert_eq!(find_holocubic_port(None, broken).unwrap_err().0, "坏");
    assert_eq!(device_port(&Json::object(), Ok(Vec::new())).unwrap_err().0, "缺少 action");
    let request = action("text").with("port", Json::text("COM7"));
    assert_eq!(device_port(&request, Ok(Vec::new())).unwrap(), "COM7");
}

#[test]
fn ports_are_described_by_what_they_say() {
    let identity = |manufacturer: Option<&str>, product: Option<&str>| UsbIdentity {
        vid: 1,
        pid: 2,
        serial_number: Some("s".into()),
        manufacturer: manufacturer.map(|m| m.into()),
        product: product.map(|p| p.into()),
    };
    let port = describe_port("COM1".into(), Some(identity(Some("m"), Some("p"))));
    assert_eq!((port.description.as_str(), port.vid, port.pid), ("p", Some(1), Some(2)));
    assert_eq!(describe_port("COM1".into(), Some(identity(Some("m"), None))).description, "m");
    assert_eq!(describe_port("COM1".into(), Some(identity(None, None))).description, "COM1");
    let plain = describe_port("COM1".into(), None);
    assert_eq!((plain.device.as_str(), plain.vid), ("COM1", None));
}

#[test]
fn requests_go_where_they_belong() {
    assert!(matches!(route(&action("ports")).unwrap(), Route::Ports));
    assert!(matches!(route(&action("browse")).unwrap(), Route::Browse));
    assert!(matches!(route(&action("calendar_data")).unwrap(), Route::CalendarData));
    assert!(matches!(route(&action("radar")).unwrap(), Route::Radar(None)));
    let kept = action("radar").with("cache_dir", Json::text("d"));
    assert!(matches!(route(&kept).unwrap(), Route::Radar(Some(d)) if d == "d"));
    assert!(matches!(route(&action("status")).unwrap(), Route::Device));
    assert_eq!(route(&Json::object()).unwrap_err(), "缺少 action");
}

#[test]
fn session_names_are_eight_digits() {
    let name = session_id();
    assert_eq!(name.len(), 8);
    assert!(name.chars().all(|c| c.is_ascii_hexdigit()));
    assert_ne!(name, session_id());
}

#[test]
fn picture_arrives_whole() {
    let mut fake = Fake::new();
    let state = fake.run(&action("text"), None).unwrap();
    let picture = "正文".repeat(120).into_bytes();
    assert_eq!(fake.kept("frame"), picture);
    assert_eq!(fake.sent.iter().filter(|c| *c == "image_chunk").count(), 720usize.div_ceil(96));
    assert_eq!(state.get_str("mode"), Some("image"));
    assert_eq!(state.get_str("port"), Some("COM9"));
    assert_eq!(state.get_u64("crc32"), Some(crc32fast::hash(&picture) as u64));
    fake.run(&action("image"), None).unwrap();
    assert_eq!(fake.kept("frame"), b"p.png");
}

#[test]
fn wrong_sum_is_refused() {
    let mut fake = Fake::new();
    fake.wrong_sum = true;
    assert_eq!(
        fake.run(&action("text"), None).unwrap_err(),
        "设备完成回执与发送画面的大小或 CRC32 不一致。"
    );
    let mut device = HoloCubicUsb::new("COM9");
    match device.upload_jpeg(b"x", "elsewhere") {
        Err(Halt::Failed(e)) => assert_eq!(e.0, "不支持的图片目标。"),
        _ => panic!("accepted"),
    }
}

#[test]
fn task_is_started_and_read_back() {
    let mut fake = Fake::new();
    let state = fake.run(&action("task"), Some(7235)).unwrap();
    assert_eq!(state.get_u64("bp"), Some(7235));
    let labels = bytes_from_json_array(state.get("labels").unwrap()).unwrap();
    assert_eq!(labels, "题/注".as_bytes());
    let shown = fake.run(&action("status"), None).unwrap();
    assert_eq!(bytes_from_json_array(shown.get("labels").unwrap()).unwrap(), labels);
    let known = action("status").with("labels_crc", Json::text(&crc32_hex(&labels)));
    let brief = fake.run(&known, None).unwrap();
    assert!(brief.get("labels").is_none());
    assert_eq!(fake.run(&action("task"), None).unwrap_err(), "时间或百分比超出范围");
    fake.state.remove("loop_protocol");
    assert_eq!(
        fake.run(&action("task"), Some(1)).unwrap_err(),
        "设备程序需要更新：请通过热点上传 main.lua 和 quota_scene.lua"
    );
}

#[test]
fn every_bad_task_setting_has_its_message() {
    let bad: [(&str, Json, &str); 7] = [
        ("task_name", Json::text("  "), "任务名称需要 1～24 个字符且不能换行"),
        ("task_name", Json::text("a\nb"), "任务名称需要 1～24 个字符且不能换行"),
        ("footer", Json::text(&"x".repeat(37)), "顶部说明最多 36 个字符且不能换行"),
        ("minutes", Json::Uint(60), "无效的时间字段"),
        ("timed", Json::Null, "timed 必须是布尔值"),
        ("looping", Json::Null, "looping 必须是布尔值"),
        ("accent", Json::list(vec![Json::Uint(256); 3]), "无效的 RGB 颜色"),
    ];
    for (key, value, message) in bad {
        let mut fake = Fake::new();
        let request = action("task").with("settings", settings().with(key, value));
        assert_eq!(fake.run(&request, Some(1)).unwrap_err(), message);
    }
}

#[test]
fn radar_is_sent_and_read_back() {
    let mut fake = Fake::new();
    let request = action("radar_usb").with("snapshot", snapshot());
    let state = fake.run(&request, None).unwrap();
    let data = state.get("radar_data").unwrap();
    assert_eq!(dump(data).into_bytes(), fake.kept("radar"));
    let shown = fake.run(&action("status"), None).unwrap();
    assert!(shown.get("radar_data").unwrap().same(data));
    assert_eq!(
        fake.run(&action("radar_only"), None).unwrap_err(),
        "请等待雷达首次采集完成"
    );
}

#[test]
fn calendar_is_sent_and_read_back() {
    let mut fake = Fake::new();
    let day = json(r#"{"signature":"1234567890abcdef","date":"d","total":1,"done":0}"#);
    let request = action("calendar_update").with("calendar_snapshot", day);
    let state = fake.run(&request, None).unwrap();
    assert_eq!(fake.kept("calendar_b_01"), vec![7; 500]);
    let page = &state.get_array("calendar_pages").unwrap()[0];
    assert_eq!(bytes_from_json_array(page.get("data").unwrap()).unwrap(), vec![7; 500]);
    let shown = fake.run(&action("status"), None).unwrap();
    let page = &shown.get_array("calendar_pages").unwrap()[0];
    assert_eq!(bytes_from_json_array(page.get("data").unwrap()).unwrap(), vec![7; 500]);
    fake.state = Fake::new().state;
    fake.refuse = "calendar_begin";
    assert_eq!(fake.run(&request, None).unwrap_err(), "拒绝");
}

fn playlist() -> Json {
    action("home").with("home_entries", json(r#"[{"mode":"text","seconds":5}]"#))
}

#[test]
fn playlist_is_prepared_and_started() {
    let mut fake = Fake::new();
    let state = fake.run(&playlist(), None).unwrap();
    assert_eq!(state.get_str("home_id"), Some("deadbeef"));
    assert_eq!(fake.sent.first().map(|s| s.as_str()), Some("home_begin"));
    let picture = state.get("home_images").unwrap().get("text").unwrap();
    assert_eq!(
        bytes_from_json_array(picture.get("data").unwrap()).unwrap(),
        fake.kept("home_text")
    );
    let shown = fake.run(&action("status"), None).unwrap();
    let picture = shown.get("home_images").unwrap().get("text").unwrap();
    assert_eq!(
        bytes_from_json_array(picture.get("data").unwrap()).unwrap(),
        fake.kept("home_text")
    );
}

#[test]
fn radar_is_packed_at_the_time_it_is_sent() {
    let mut fake = Fake::new();
    fake.now = 1030;
    let request = action("radar_usb").with("snapshot", snapshot());
    let state = fake.run(&request, None).unwrap();
    assert_eq!(state.get_in("radar_data", "age").unwrap().as_u64(), Some(30));
    fake.now = 1031;
    assert_eq!(fake.run(&request, None).unwrap_err(), "雷达数据已过期，请等待新采集结果");
    let entries = json(r#"[{"mode":"text","seconds":5},{"mode":"radar","seconds":5}]"#);
    let both = playlist().with("home_entries", entries).with("snapshot", snapshot());
    let mut slow = Fake::new();
    slow.seconds_per_command = 11;
    assert_eq!(slow.run(&both, None).unwrap_err(), "雷达数据已过期，请等待新采集结果");
    assert!(slow.sent.iter().any(|c| c == "image_end"));
    assert!(!slow.sent.iter().any(|c| c == "radar_begin"));
    assert_eq!(slow.sent.last().map(|s| s.as_str()), Some("clear"));
}

#[test]
fn failed_start_clears_the_screen() {
    let mut fake = Fake::new();
    fake.refuse = "home_apply";
    assert_eq!(fake.run(&playlist(), None).unwrap_err(), "拒绝");
    assert_eq!(fake.sent.last().map(|s| s.as_str()), Some("clear"));
}

#[test]
fn bad_playlists_are_refused() {
    for (entries, message) in [
        ("[]", "至少勾选一个轮播画面"),
        (r#"[{"mode":"other","seconds":5}]"#, "轮播模式无效或重复"),
        (
            r#"[{"mode":"text","seconds":5},{"mode":"text","seconds":5}]"#,
            "轮播模式无效或重复",
        ),
        (r#"[{"mode":"text","seconds":0}]"#, "每个画面的停留时间应为 1～3600 秒"),
        (r#"[{"mode":"radar","seconds":1}]"#, "请等待雷达首次采集完成"),
        (r#"[{"mode":"calendar","seconds":1}]"#, "请等待首次日历读取完成"),
    ] {
        let mut fake = Fake::new();
        let request = playlist().with("home_entries", json(entries));
        assert_eq!(fake.run(&request, Some(1)).unwrap_err(), message);
        assert!(fake.sent.is_empty());
    }
}

#[test]
fn plain_actions_are_one_command() {
    for (name, command) in [
        ("clear", "clear"),
        ("pause", "task_control"),
        ("resume", "task_control"),
        ("reset", "task_control"),
        ("home_stop", "home_stop"),
    ] {
        let mut fake = Fake::new();
        let state = fake.run(&action(name), None).unwrap();
        assert_eq!(fake.sent, [command]);
        assert_eq!(state.get_str("port"), Some("COM9"));
    }
    let mut fake = Fake::new();
    assert_eq!(fake.run(&action("dance"), None).unwrap_err(), "不支持的操作: dance");
    assert_eq!(fake.run(&action("ping"), None).unwrap().get_str("port"), Some("COM9"));
    assert_eq!(fake.run(&action("hello"), None).unwrap().get_str("mode"), Some("image"));
}

#[test]
fn bytes_survive_as_numbers() {
    let all: Vec<u8> = (0..=255).collect();
    assert_eq!(bytes_from_json_array(&bytes_json(&all)).unwrap(), all);
    assert_eq!(bytes_from_json_array(&json("[257,null,2]")).unwrap(), [1, 2]);
    assert!(bytes_from_json_array(&json("{}")).is_none());
}

#[test]
fn what_is_in_hand_is_not_read_again() {
    let picture = vec![1u8, 2, 3, 255];
    let crc = crc32_hex(&picture);
    let task = Json::object()
        .with("mode", Json::text("task"))
        .with("mirror_protocol", Json::Uint(1))
        .with("labels_crc", Json::text(&crc))
        .with("labels_size", Json::Uint(4));
    let radar = json(r#"{"radar_mirror_protocol":1,"crc32":"12345678","radar_size":9}"#);
    let calendar = json(r#"{"calendar_signature":"s","calendar_pages":[{"data":[]}]}"#);
    let images = json(r#"{"text":{"crc32":"aabbccdd","size":1}}"#);
    let state = json(r#"{"mode":"home","home_protocol":1}"#)
        .with("radar", radar.clone())
        .with("calendar", calendar.clone())
        .with("home_images", images);
    let crcs = json(r#"{"text":"aabbccdd"}"#);
    let known = Known {
        labels_crc: Some(&crc),
        radar_crc: Some("12345678"),
        calendar_signature: None,
        home_crcs: Some(&crcs),
    };
    let brought = task.clone().with("labels", bytes_json(&picture));
    for scene in [task.clone(), brought.clone()] {
        let whole = state.clone().with("task", scene);
        let mut device = HoloCubicUsb::new("COM1");
        let back = mirror_state(&mut device, whole.clone(), &known, None).unwrap();
        assert!(back.same(&whole));
    }
    for scene in [task, radar.with("mode", Json::text("radar"))] {
        let mut device = HoloCubicUsb::new("COM1");
        let back = mirror_state(&mut device, scene.clone(), &known, None).unwrap();
        assert!(back.same(&scene));
    }
    let unknown = Known { radar_crc: None, ..known };
    let mut device = HoloCubicUsb::new("COM1");
    let whole = state.with("task", brought);
    assert!(matches!(
        mirror_state(&mut device, whole, &unknown, None),
        Err(Halt::Ask(Ask::Request { .. }))
    ));
}

#[test]
fn answers_are_responses_or_errors() {
    assert!(matches!(Answer::of(Ok(Json::Null)), Answer::Value(Json::Null)));
    match Answer::of(Err(ProtocolError("坏".to_owned()))) {
        Answer::Failed(text) => assert_eq!(text, "坏"),
        _ => panic!("an error is no response"),
    }
}
