//! Framing, sums, parts and targets.

use base64::Engine;
use holocubic::codes::read_base64;
use holocubic::json::{read, Json};
use holocubic::link::{
    frame_command, is_multipart, request_id, settle, unanswered, Multipart, Readiness, ReadyStep,
    Receiver, Reply,
};
use holocubic::protocol::{
    assemble_multipart_body, crc32_hex, decode_line, decode_response_part, encode_frame, err,
    is_calendar_target, is_valid_image_target, jpeg_chunks, validate_multipart_meta,
    PROTOCOL_PREFIX,
};

fn json(text: &str) -> Json {
    read(text.as_bytes()).unwrap()
}

fn b64(data: &[u8]) -> String {
    base64::engine::general_purpose::STANDARD.encode(data)
}

fn unb64(text: &str) -> Vec<u8> {
    base64::engine::general_purpose::STANDARD.decode(text).unwrap()
}

#[test]
fn crc32_matches_python_zlib_style() {
    assert_eq!(crc32_hex(b"123456789"), "cbf43926");
    assert_eq!(crc32_hex(b""), "00000000");
    let payload: Vec<u8> = (0..200).map(|i| i as u8).collect();
    assert_eq!(crc32_hex(&payload).len(), 8);
}

#[test]
fn encode_frame_uses_prefix_and_newline() {
    let frame = encode_frame(&json(r#"{"cmd":"hello","id":"1-1"}"#)).unwrap();
    assert!(frame.starts_with(&PROTOCOL_PREFIX));
    assert!(frame.ends_with(b"\n"));
    let body = std::str::from_utf8(&frame[PROTOCOL_PREFIX.len()..frame.len() - 1]).unwrap();
    assert!(body.contains("\"cmd\":\"hello\""));
    assert!(!body.contains(' '));
}

#[test]
fn decode_ignores_non_prefix_and_bad_json() {
    assert!(decode_line(b"noise\n").unwrap().is_none());
    assert!(decode_line(b"@HCUSB/1 not-json\n").unwrap().is_none());
    let ok = decode_line(b"@HCUSB/1 {\"id\":\"1\",\"status\":\"ok\"}\n").unwrap().unwrap();
    assert_eq!(ok.get_str("id"), Some("1"));
}

#[test]
fn jpeg_chunks_are_96_bytes_base64() {
    let data: Vec<u8> = (0..200).map(|i| i as u8).collect();
    let chunks = jpeg_chunks(&data);
    assert_eq!(chunks.len(), 3);
    assert_eq!((chunks[0].0, chunks[1].0, chunks[2].0), (0, 1, 2));
    assert_eq!(unb64(&chunks[0].1).len(), 96);
    assert_eq!(unb64(&chunks[1].1).len(), 96);
    assert_eq!(unb64(&chunks[2].1).len(), 8);
}

#[test]
fn chunks_put_together_are_the_data() {
    let data: Vec<u8> = (0..1000).map(|i| (i * 7 % 251) as u8).collect();
    let mut whole = Vec::new();
    for (_, part) in jpeg_chunks(&data) {
        whole.extend(unb64(&part));
    }
    assert_eq!(whole, data);
    assert!(jpeg_chunks(b"").is_empty());
}

#[test]
fn multipart_assembly_checks_crc_and_id() {
    let inner = Json::object()
        .with("id", Json::text("t-1"))
        .with("status", Json::text("ok"))
        .with("mode", Json::text("home"))
        .with("padding", Json::text(&"x".repeat(100)));
    let raw = holocubic::json::dump(&inner).into_bytes();
    let checksum = crc32_hex(&raw);
    let assembled = assemble_multipart_body(&raw, &checksum, "t-1").unwrap();
    assert_eq!(assembled.get_str("mode"), Some("home"));
    assert!(assemble_multipart_body(&raw, "deadbeef", "t-1").is_err());
    assert!(assemble_multipart_body(&raw, &checksum, "other").is_err());
}

#[test]
fn response_part_rejects_bad_offset_or_length() {
    let chunk = vec![1u8; 10];
    let part = Json::object()
        .with("status", Json::text("part"))
        .with("offset", Json::Uint(0))
        .with("data", Json::text(&b64(&chunk)));
    assert_eq!(decode_response_part(&part, 0, 50).unwrap(), chunk);
    assert!(decode_response_part(&part, 1, 50).is_err());
    let too_big = Json::object()
        .with("status", Json::text("part"))
        .with("offset", Json::Uint(0))
        .with("data", Json::text(&b64(&vec![0u8; 97])));
    assert!(decode_response_part(&too_big, 0, 200).is_err());
}

#[test]
fn image_target_validation_matches_python() {
    assert!(is_valid_image_target("frame"));
    assert!(is_valid_image_target("task_labels"));
    assert!(is_valid_image_target("home_text"));
    assert!(is_valid_image_target("calendar_a_01"));
    assert!(is_valid_image_target("calendar_b_32"));
    assert!(!is_valid_image_target("calendar_a_1"));
    assert!(!is_valid_image_target("calendar_c_01"));
    assert!(!is_valid_image_target("calendar_a_00"));
    assert!(!is_valid_image_target("calendar_a_33"));
    assert!(!is_valid_image_target("other"));
}

#[test]
fn validate_multipart_meta_bounds() {
    assert!(validate_multipart_meta(&json(r#"{"size":100,"crc32":"abcdef01"}"#)).is_ok());
    assert!(validate_multipart_meta(&json(r#"{"size":0,"crc32":"abcdef01"}"#)).is_err());
    assert!(validate_multipart_meta(&json(r#"{"size":20000,"crc32":"abcdef01"}"#)).is_err());
    assert!(validate_multipart_meta(&json(r#"{"size":10,"crc32":"abcd"}"#)).is_err());
}

#[test]
fn calendar_slots_need_two_digits() {
    for bank in ["a", "b"] {
        for page in 1..=32 {
            assert!(is_calendar_target(&format!("calendar_{bank}_{page:02}")));
        }
    }
    assert!(!is_calendar_target("calendar_a_ab"));
    assert!(!is_calendar_target("calendar_a_1x"));
    assert!(!is_calendar_target("calendar_a_+1"));
    assert!(!is_valid_image_target("calendar_a_+1"));
    assert!(!is_valid_image_target("calendar_b_-1"));
    assert!(!is_calendar_target("home_text"));
    assert!(is_valid_image_target("home_image"));
}

#[test]
fn frame_reads_back_as_the_command() {
    let command = json(r#"{"cmd":"text","title":"今日 \"任务\"\n","n":[1,-2,null,true]}"#);
    let frame = frame_command(command.clone(), "7-8").unwrap();
    assert_eq!(frame.iter().filter(|b| **b == b'\n').count(), 1);
    let back = decode_line(&frame).unwrap().unwrap();
    assert_eq!(back.get_str("id"), Some("7-8"));
    assert!(back.same(&command.with("id", Json::text("7-8"))));
    assert!(frame_command(Json::Null, "1-1").is_err());
    assert_eq!(encode_frame(&Json::list(Vec::new())).unwrap(), b"@HCUSB/1 []\n");
}

#[test]
fn frames_are_ascii() {
    let frame = encode_frame(&json(r#"{"t":"中é😀~"}"#)).unwrap();
    let text = String::from_utf8(frame.clone()).unwrap();
    assert_eq!(text, "@HCUSB/1 {\"t\":\"\\u4e2d\\u00e9\\ud83d\\ude00~\"}\n");
    assert!(frame.iter().all(|b| *b < 128));
    assert_eq!(decode_line(&frame).unwrap().unwrap().get_str("t"), Some("中é😀~"));
    let named = frame_command(json(r#"{"题":"\\中"}"#), "1-2").unwrap();
    assert!(named.iter().all(|b| *b < 128));
    assert_eq!(decode_line(&named).unwrap().unwrap().get_str("题"), Some("\\中"));
}

#[test]
fn cuts_do_not_matter() {
    let mut bytes = b"noise\n@HCUSB/1 {\"id\":\"8-1\",\"n\":1}\n@HCUSB/1 {\"id\"\n".to_vec();
    bytes.extend_from_slice(b"@HCUSB/1 {\"id\":\"8-2\",\"n\":2}\r\n@HCUSB/1 {\"id\":\"8-2\",\"n\":3}\n");
    for size in 1..=bytes.len() {
        let mut receiver = Receiver::new("8-2");
        let found = bytes.chunks(size).find_map(|block| receiver.feed(block).unwrap());
        assert_eq!(found.unwrap().get_u64("n"), Some(2));
    }
}

#[test]
fn base64_is_taken_as_it_is_written() {
    assert_eq!(read_base64("").unwrap(), b"");
    assert_eq!(read_base64("TQ==").unwrap(), b"M");
    assert_eq!(read_base64("TWE=").unwrap(), b"Ma");
    assert_eq!(read_base64("TWFu+/8=").unwrap(), b"Man\xfb\xff");
    for bad in ["TQ", "TQ=", "TR==", "TWF=", "TQ==TQ==", "T-==", "====", "TW E="] {
        assert!(read_base64(bad).is_none());
    }
}

#[test]
fn lines_that_are_not_text_are_passed_over() {
    assert!(decode_line(b"@HCUSB/1 \"\xff\"\n").unwrap().is_none());
    assert_eq!(decode_line(b"@HCUSB/1 7\r\n").unwrap().unwrap().as_u64(), Some(7));
    assert!(decode_line(b"@HCUSB/2 7\n").unwrap().is_none());
    assert!(decode_line(b"").unwrap().is_none());
}

#[test]
fn request_names_differ() {
    assert_eq!(request_id(1700000000123, 4), "1700000000123-4");
    assert_ne!(request_id(12, 3), request_id(1, 23));
    assert_ne!(request_id(1, 2), request_id(1, 3));
}

#[test]
fn response_is_found_among_noise_in_any_pieces() {
    let mut stream = b"boot ok\n@HCUSB/1 {\"id\":\"9-1\",\"status\":\"ok\"}\n".to_vec();
    stream.extend_from_slice(b"@HCUSB/1 {\"id\":\"9-2\",\"status\":\"ok\",\"mode\":\"task\"}\n");
    for size in [1usize, 2, 7, 50, 500] {
        let mut receiver = Receiver::new("9-2");
        let mut found = None;
        for piece in stream.chunks(size) {
            if let Some(v) = receiver.feed(piece).unwrap() {
                found = Some(v);
                break;
            }
        }
        assert_eq!(found.unwrap().get_str("mode"), Some("task"));
    }
    let mut receiver = Receiver::new("9-3");
    assert!(receiver.feed(&stream).unwrap().is_none());
}

#[test]
fn endless_line_is_refused() {
    let mut receiver = Receiver::new("1-1");
    let long = vec![b'x'; 65537];
    assert!(receiver.feed(&long).is_err());
}

#[test]
fn error_responses_are_errors() {
    let ok = settle(json(r#"{"status":"ok","a":1}"#)).unwrap();
    assert_eq!(ok.get_u64("a"), Some(1));
    let bad = settle(json(r#"{"status":"error","message":"坏"}"#)).unwrap_err();
    assert_eq!(bad.0, "坏");
    assert_eq!(settle(json(r#"{"status":"error"}"#)).unwrap_err().0, "设备返回未知错误");
}

#[test]
fn long_response_comes_in_parts() {
    let inner = Json::object()
        .with("id", Json::text("5-6"))
        .with("status", Json::text("ok"))
        .with("text", Json::text(&"长回执".repeat(60)));
    let raw = holocubic::json::dump(&inner).into_bytes();
    let header = Json::object()
        .with("status", Json::text("multipart"))
        .with("size", Json::Uint(raw.len() as u64))
        .with("crc32", Json::text(&crc32_hex(&raw)));
    assert!(is_multipart(&header));
    assert!(!is_multipart(&inner));
    let mut parts = Multipart::start(&header, "5-6").unwrap();
    let mut asked = 0;
    while let Some(command) = parts.next(1000).unwrap() {
        let offset = command.get_u64("offset").unwrap() as usize;
        assert_eq!(offset, asked);
        let end = raw.len().min(offset + 96);
        let part = Json::object()
            .with("status", Json::text("part"))
            .with("offset", Json::Uint(offset as u64))
            .with("data", Json::text(&b64(&raw[offset..end])));
        parts.accept(&part).unwrap();
        asked = end;
    }
    let whole = parts.finish(12).unwrap();
    assert_eq!(whole.get_str("text"), inner.get_str("text"));
}

#[test]
fn handshake_is_repeated_until_time_is_up() {
    let mut ready = Readiness::new(6000);
    match ready.next(0) {
        ReadyStep::Hello { command, timeout_ms } => {
            assert_eq!(command.get_str("cmd"), Some("hello"));
            assert_eq!(timeout_ms, 1500);
        }
        ReadyStep::GiveUp(_) => panic!("there is time left"),
    }
    match ready.next(6000) {
        ReadyStep::GiveUp(e) => assert_eq!(e.0, "设备未就绪。"),
        ReadyStep::Hello { .. } => panic!("time is up"),
    }
    ready.failed(err("无响应"));
    assert!(matches!(ready.next(5999), ReadyStep::Hello { .. }));
    match ready.next(6001) {
        ReadyStep::GiveUp(e) => assert_eq!(e.0, "无响应"),
        ReadyStep::Hello { .. } => panic!("time is up"),
    }
}

#[test]
fn parts_are_refused_out_of_order_and_out_of_time() {
    let header = json(r#"{"status":"multipart","size":5,"crc32":"00000000"}"#);
    let mut parts = Multipart::start(&header, "1-1").unwrap();
    assert_eq!(parts.next(0).unwrap_err().0, "USB 分块回执超时。");
    let late = json(r#"{"status":"part","offset":3,"data":"AAAA"}"#);
    assert_eq!(parts.accept(&late).unwrap_err().0, "USB 分块回执顺序或长度不匹配。");
    let long = json(r#"{"status":"part","offset":0,"data":"AAAAAAAA"}"#);
    assert!(parts.accept(&long).is_err());
    assert!(Multipart::start(&json(r#"{"size":17000,"crc32":"00000000"}"#), "1-1").is_err());
}

/// What a request comes to when these bytes arrive in blocks of a size.
fn outcome(bytes: &[u8], size: usize) -> Result<Reply, String> {
    let mut receiver = Receiver::new("4-2");
    for block in bytes.chunks(size) {
        if let Some(reply) = receiver.reply(block).map_err(|e| e.0)? {
            return Ok(reply);
        }
    }
    Err(unanswered().0)
}

#[test]
fn first_reply_is_the_result() {
    let noise = "boot\n@HCUSB/1 {\"id\":\"4-1\",\"status\":\"error\"}\n@HCUSB/1 {\"id\"\n";
    let good = format!("{noise}@HCUSB/1 {{\"id\":\"4-2\",\"n\":1}}\n@HCUSB/1 {{\"id\":\"4-2\",\"n\":2}}\n");
    let bad = format!("{noise}@HCUSB/1 {{\"id\":\"4-2\",\"status\":\"error\",\"message\":\"坏\"}}\n@HC");
    let mute = format!("{noise}@HCUSB/1 {{\"id\":\"4-2\"}}");
    for size in [1, 3, 20, 1024] {
        match outcome(good.as_bytes(), size) {
            Ok(Reply::Whole(v)) => assert_eq!(v.get_u64("n"), Some(1)),
            _ => panic!("there is a whole response"),
        }
        assert_eq!(outcome(bad.as_bytes(), size).err().unwrap(), "坏");
        assert_eq!(
            outcome(mute.as_bytes(), size).err().unwrap(),
            "设备未响应：请先在 HoloCubic Launcher 中启动“USB直连显示”应用。"
        );
    }
    assert_eq!(
        outcome(&vec![b'x'; 65537], 65537).err().unwrap(),
        "USB 回执超过 64KB 上限。"
    );
}

#[test]
fn announced_parts_are_the_result() {
    let raw = br#"{"id":"4-2","status":"ok","n":3}"#;
    let parts_of = |raw: &[u8]| {
        let head = Json::object()
            .with("id", Json::text("4-2"))
            .with("status", Json::text("multipart"))
            .with("size", Json::Uint(raw.len() as u64))
            .with("crc32", Json::text(&crc32_hex(raw)));
        let mut parts = match outcome(&encode_frame(&head).unwrap(), 5) {
            Ok(Reply::Parts(parts)) => parts,
            _ => panic!("parts are announced"),
        };
        let ask = parts.next(10).unwrap().unwrap();
        assert_eq!(ask.get_str("token"), Some("4-2"));
        let part = Json::object()
            .with("status", Json::text("part"))
            .with("offset", Json::Uint(0))
            .with("data", Json::text(&b64(raw)));
        parts.accept(&part).unwrap();
        assert!(parts.next(0).unwrap().is_none());
        parts.end(7)
    };
    let whole = parts_of(raw).unwrap();
    assert_eq!((whole.get_u64("n"), whole.get_u64("_transport_ms")), (Some(3), Some(7)));
    let bad = parts_of(br#"{"id":"4-2","status":"error","message":"m"}"#);
    assert_eq!(bad.unwrap_err().0, "m");
    let header = b"@HCUSB/1 {\"id\":\"4-2\",\"status\":\"multipart\",\"size\":0,\"crc32\":\"00000000\"}\n";
    assert_eq!(outcome(header, 9).err().unwrap(), "USB 分块回执元数据无效。");
}
