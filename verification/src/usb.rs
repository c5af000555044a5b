//! The device on the other end of the USB line: finding its port, matching
//! responses to requests, and the scripts that upload pictures to it and read
//! back what it shows.

use vstd::prelude::*;

use crate::codes::{b64_encoded, crc32_of};
use crate::json::{
    at, empty_object, items_of, models, opt_text, put, same_text, text_of, u64_of, Json, JsonView,
};
use crate::outside::crc32_hash;
use crate::protocol::{
    chunk, chunk_count, crc32_hex, crc_hex, err, image_target, is_valid_image_target, jpeg_chunks,
    ProtocolError, USB_PID, USB_VID,
};
use crate::script::{
    byte_lists, bytes_end, bytes_turn, failed, pages_end, pages_turn, stopped, text_end, text_turn, time_end,
    time_turn,
    value_end, value_turn, Answer, AnswerView, Ask, AskView, Halt, Turn,
};
use crate::text::{glue, join, joined, texts};

verus! {

/// The contents of a list of answers.
pub open spec fn answer_views(v: Seq<Answer>) -> Seq<AnswerView> {
    Seq::new(v.len(), |i: int| v[i]@)
}

/// A session with the device on one port: the answers that its scripts have
/// got so far, and how many of them the running script has used.
pub struct HoloCubicUsb {
    port_name: String,
    answers: Vec<Answer>,
    used: usize,
}

impl HoloCubicUsb {
    pub closed spec fn port(&self) -> Seq<char> {
        self.port_name@
    }

    pub closed spec fn log(&self) -> Seq<AnswerView> {
        answer_views(self.answers@)
    }

    pub closed spec fn pos(&self) -> int {
        self.used as int
    }

    /// A session on a port, with no answer yet.
    pub fn new(port: &str) -> (r: Self)
        ensures
            r.port() == port@,
            r.log() == Seq::<AnswerView>::empty(),
            r.pos() == 0,
    {
        let r = HoloCubicUsb { port_name: port.to_owned(), answers: Vec::new(), used: 0 };
        assert(r.log() =~= Seq::<AnswerView>::empty());
        r
    }

    /// The name of the port.
    pub fn port_name(&self) -> (r: &str)
        ensures
            r@ == self.port(),
    {
        self.port_name.as_str()
    }

    /// Adds the answer to what the last run asked for, and starts over.
    pub fn answer(&mut self, answer: Answer)
        ensures
            final(self).log() == old(self).log().push(answer@),
            final(self).pos() == 0,
            final(self).port() == old(self).port(),
    {
        let ghost before = self.answers@;
        self.answers.push(answer);
        self.used = 0;
        assert(answer_views(self.answers@) =~= answer_views(before).push(answer@));
    }

    /// A value, or the end of the run.
    pub(crate) fn value(&mut self, ask: Ask) -> (r: Result<Json, Halt>)
        ensures
            value_end(r, final(self).pos()) == value_turn(old(self).log(), old(self).pos(), ask@),
            final(self).log() == old(self).log(),
            final(self).port() == old(self).port(),
    {
        if self.used < self.answers.len() {
            assert(self.log()[self.used as int] == self.answers@[self.used as int]@);
            match &self.answers[self.used] {
                Answer::Value(v) => {
                    let out = v.clone();
                    self.used = self.used + 1;
                    return Ok(out);
                },
                Answer::Failed(m) => {
                    let out = m.clone();
                    self.used = self.used + 1;
                    return Err(Halt::Failed(ProtocolError(out)));
                },
                _ => {},
            }
        }
        Err(Halt::Ask(ask))
    }

    /// Bytes, or the end of the run.
    pub(crate) fn bytes(&mut self, ask: Ask) -> (r: Result<Vec<u8>, Halt>)
        ensures
            bytes_end(r, final(self).pos()) == bytes_turn(old(self).log(), old(self).pos(), ask@),
            final(self).log() == old(self).log(),
            final(self).port() == old(self).port(),
    {
        if self.used < self.answers.len() {
            assert(self.log()[self.used as int] == self.answers@[self.used as int]@);
            match &self.answers[self.used] {
                Answer::Bytes(v) => {
                    let out = copy_bytes(v);
                    self.used = self.used + 1;
                    return Ok(out);
                },
                Answer::Failed(m) => {
                    let out = m.clone();
                    self.used = self.used + 1;
                    return Err(Halt::Failed(ProtocolError(out)));
                },
                _ => {},
            }
        }
        Err(Halt::Ask(ask))
    }

    /// Pages, or the end of the run.
    pub(crate) fn pages(&mut self, ask: Ask) -> (r: Result<Vec<Vec<u8>>, Halt>)
        ensures
            pages_end(r, final(self).pos()) == pages_turn(old(self).log(), old(self).pos(), ask@),
            final(self).log() == old(self).log(),
            final(self).port() == old(self).port(),
    {
        if self.used < self.answers.len() {
            assert(self.log()[self.used as int] == self.answers@[self.used as int]@);
            match &self.answers[self.used] {
                Answer::Pages(v) => {
                    let out = copy_pages(v);
                    self.used = self.used + 1;
                    return Ok(out);
                },
                Answer::Failed(m) => {
                    let out = m.clone();
                    self.used = self.used + 1;
                    return Err(Halt::Failed(ProtocolError(out)));
                },
                _ => {},
            }
        }
        Err(Halt::Ask(ask))
    }

    /// A text, or the end of the run.
    pub(crate) fn text(&mut self, ask: Ask) -> (r: Result<String, Halt>)
        ensures
            text_end(r, final(self).pos()) == text_turn(old(self).log(), old(self).pos(), ask@),
            final(self).log() == old(self).log(),
            final(self).port() == old(self).port(),
    {
        if self.used < self.answers.len() {
            assert(self.log()[self.used as int] == self.answers@[self.used as int]@);
            match &self.answers[self.used] {
                Answer::Text(v) => {
                    let out = v.clone();
                    self.used = self.used + 1;
                    return Ok(out);
                },
                Answer::Failed(m) => {
                    let out = m.clone();
                    self.used = self.used + 1;
                    return Err(Halt::Failed(ProtocolError(out)));
                },
                _ => {},
            }
        }
        Err(Halt::Ask(ask))
    }

    /// The time, or the end of the run.
    pub(crate) fn time(&mut self) -> (r: Result<i64, Halt>)
        ensures
            time_end(r, final(self).pos()) == time_turn(old(self).log(), old(self).pos()),
            final(self).log() == old(self).log(),
            final(self).port() == old(self).port(),
    {
        if self.used < self.answers.len() {
            assert(self.log()[self.used as int] == self.answers@[self.used as int]@);
            match &self.answers[self.used] {
                Answer::Time(t) => {
                    let out: i64 = *t;
                    self.used = self.used + 1;
                    return Ok(out);
                },
                Answer::Failed(m) => {
                    let out = m.clone();
                    self.used = self.used + 1;
                    return Err(Halt::Failed(ProtocolError(out)));
                },
                _ => {},
            }
        }
        Err(Halt::Ask(Ask::Time))
    }

    /// Sends one command and gets its response.
    pub fn request(&mut self, command: Json, timeout_ms: u64) -> (r: Result<Json, Halt>)
        ensures
            value_end(r, final(self).pos()) == value_turn(
                old(self).log(),
                old(self).pos(),
                AskView::Request { command: command@, timeout_ms },
            ),
            final(self).log() == old(self).log(),
            final(self).port() == old(self).port(),
    {
        self.value(Ask::Request { command, timeout_ms })
    }

    /// Repeats the hello handshake until the device answers or the time is up.
    pub fn wait_until_ready(&mut self, timeout_ms: u64) -> (r: Result<Json, Halt>)
        ensures
            value_end(r, final(self).pos()) == value_turn(
                old(self).log(),
                old(self).pos(),
                AskView::Ready { timeout_ms },
            ),
            final(self).log() == old(self).log(),
            final(self).port() == old(self).port(),
    {
        self.value(Ask::Ready { timeout_ms })
    }

    /// The handshake after opening the port.
    pub fn hello(&mut self) -> (r: Result<Json, Halt>)
        ensures
            value_end(r, final(self).pos()) == value_turn(
                old(self).log(),
                old(self).pos(),
                AskView::Ready { timeout_ms: 6000 },
            ),
            final(self).log() == old(self).log(),
            final(self).port() == old(self).port(),
    {
        self.wait_until_ready(6000)
    }

    /// Asks the device what it shows.
    pub fn status(&mut self) -> (r: Result<Json, Halt>)
        ensures
            value_end(r, final(self).pos()) == value_turn(
                old(self).log(),
                old(self).pos(),
                status_ask(),
            ),
            final(self).log() == old(self).log(),
            final(self).port() == old(self).port(),
    {
        self.request(command("status"), 3000)
    }
}

/// A command without arguments.
pub open spec fn plain_command(name: Seq<char>) -> JsonView {
    put(empty_object(), "cmd"@, JsonView::Str(name))
}

/// The question what the device shows.
pub open spec fn status_ask() -> AskView {
    AskView::Request { command: plain_command("status"@), timeout_ms: 3000 }
}

/// A command without arguments.
pub fn command(name: &str) -> (r: Json)
    ensures
        r@ == plain_command(name@),
{
    Json::object().with("cmd", Json::text(name))
}

fn copy_bytes(v: &Vec<u8>) -> (r: Vec<u8>)
    ensures
        r@ == v@,
{
    vstd::slice::slice_to_vec(v.as_slice())
}

fn copy_pages(v: &Vec<Vec<u8>>) -> (r: Vec<Vec<u8>>)
    ensures
        byte_lists(r@) == byte_lists(v@),
{
    let mut out: Vec<Vec<u8>> = Vec::new();
    let mut i: usize = 0;
    while i < v.len()
        invariant
            i <= v@.len(),
            byte_lists(out@) == byte_lists(v@).take(i as int),
        decreases v@.len() - i,
    {
        let ghost before = out@;
        out.push(copy_bytes(&v[i]));
        i += 1;
        assert(byte_lists(out@) =~= byte_lists(before).push(v@[i - 1]@));
        assert(byte_lists(out@) =~= byte_lists(v@).take(i as int));
    }
    assert(byte_lists(v@).take(v@.len() as int) =~= byte_lists(v@));
    out
}

/// Commands one after another, each sent when the one before was answered.
pub open spec fn exchange(
    log: Seq<AnswerView>,
    pos: int,
    asks: Seq<AskView>,
) -> Turn<Seq<JsonView>>
    decreases asks.len(),
{
    if asks.len() == 0 {
        Turn::Done(Seq::empty(), pos)
    } else {
        match exchange(log, pos, asks.drop_last()) {
            Turn::Done(values, k) => match value_turn(log, k, asks.last()) {
                Turn::Done(v, n) => Turn::Done(values.push(v), n),
                other => stopped(other),
            },
            other => stopped(other),
        }
    }
}

/// Announces a picture.
pub open spec fn image_begin(data: Seq<u8>, target: Seq<char>) -> AskView {
    AskView::Request {
        command: put(
            put(
                put(plain_command("image_begin"@), "size"@, JsonView::Int(data.len() as int)),
                "crc32"@,
                JsonView::Str(crc_hex(data)),
            ),
            "target"@,
            JsonView::Str(target),
        ),
        timeout_ms: 4000,
    }
}

/// Carries one part of a picture.
pub open spec fn image_chunk(data: Seq<u8>, i: int) -> AskView {
    AskView::Request {
        command: put(
            put(plain_command("image_chunk"@), "seq"@, JsonView::Int(i)),
            "data"@,
            JsonView::Str(b64_encoded(chunk(data, i))),
        ),
        timeout_ms: 3000,
    }
}

/// Completes a picture.
pub open spec fn image_end() -> AskView {
    AskView::Request { command: plain_command("image_end"@), timeout_ms: 5000 }
}

/// The first commands of an upload: the announcement and `n` parts.
pub open spec fn upload_start(data: Seq<u8>, target: Seq<char>, n: nat) -> Seq<AskView> {
    Seq::new(
        n + 1,
        |i: int|
            if i == 0 {
                image_begin(data, target)
            } else {
                image_chunk(data, i - 1)
            },
    )
}

/// The commands of an upload: announcement, every part in order, completion.
pub open spec fn upload_asks(data: Seq<u8>, target: Seq<char>) -> Seq<AskView> {
    upload_start(data, target, chunk_count(data.len())).push(image_end())
}

/// Whether the device confirms size and sum of a picture.
pub open spec fn upload_confirmed(data: Seq<u8>, target: Seq<char>, reply: JsonView) -> bool {
    &&& text_of(at(reply, "status"@)) == Some(
        if target == "frame"@ {
            "displayed"@
        } else {
            "stored"@
        },
    )
    &&& u64_of(at(reply, "bytes"@)) == Some(data.len() as u64)
    &&& text_of(at(reply, "crc32"@)) == Some(crc_hex(data))
}

/// Uploading a picture: the last response, its sum as a number.
pub open spec fn upload(
    log: Seq<AnswerView>,
    pos: int,
    data: Seq<u8>,
    target: Seq<char>,
) -> Turn<JsonView> {
    if !image_target(target) {
        Turn::Failed("不支持的图片目标。"@, pos)
    } else {
        match exchange(log, pos, upload_asks(data, target)) {
            Turn::Done(values, k) => if upload_confirmed(data, target, values.last()) {
                Turn::Done(
                    put(values.last(), "crc32"@, JsonView::Int(crc32_of(data) as int)),
                    k,
                )
            } else {
                Turn::Failed("设备完成回执与发送画面的大小或 CRC32 不一致。"@, k)
            },
            other => stopped(other),
        }
    }
}

impl HoloCubicUsb {
    /// Uploads a JPEG in numbered parts and checks what the device confirms.
    pub fn upload_jpeg(&mut self, data: &[u8], target: &str) -> (r: Result<Json, Halt>)
        ensures
            value_end(r, final(self).pos()) == upload(
                old(self).log(),
                old(self).pos(),
                data@,
                target@,
            ),
            final(self).log() == old(self).log(),
            final(self).port() == old(self).port(),
    {
        if !is_valid_image_target(target) {
            return Err(failed("不支持的图片目标。"));
        }
        let ghost log = self.log();
        let ghost pos = self.pos();
        let ghost asks = upload_asks(data@, target@);
        let checksum = crc32_hex(data);
        let parts = jpeg_chunks(data);
        proof {
            assert(upload_start(data@, target@, 0).drop_last() =~= Seq::empty());
            assert(asks.drop_last() =~= upload_start(data@, target@, parts@.len()));
            assert(exchange(log, pos, Seq::empty()) == Turn::Done(Seq::<JsonView>::empty(), pos));
            lemma_exchange_stops(log, pos, asks, 1);
            assert(asks.take(1) =~= upload_start(data@, target@, 0));
        }
        let begin = command("image_begin").with("size", Json::Uint(data.len() as u64)).with(
            "crc32",
            Json::text(checksum.as_str()),
        ).with("target", Json::text(target));
        self.request(begin, 4000)?;
        let mut i: usize = 0;
        while i < parts.len()
            invariant
                i <= parts@.len(),
                parts@.len() == chunk_count(data@.len()),
                forall|k: int|
                    #![trigger parts@[k]]
                    0 <= k < parts@.len() ==> parts@[k].0 == k && parts@[k].1@ == b64_encoded(
                        chunk(data@, k),
                    ),
                asks == upload_asks(data@, target@),
                image_target(target@),
                log == old(self).log(),
                pos == old(self).pos(),
                self.log() == log,
                self.port() == old(self).port(),
                exchange(log, pos, upload_start(data@, target@, i as nat)) is Done,
                exchange(log, pos, upload_start(data@, target@, i as nat))->Done_1 == self.pos(),
            decreases parts@.len() - i,
        {
            let part = command("image_chunk").with("seq", Json::Uint(parts[i].0 as u64)).with(
                "data",
                Json::text(parts[i].1.as_str()),
            );
            proof {
                let next = upload_start(data@, target@, (i + 1) as nat);
                assert(next.drop_last() =~= upload_start(data@, target@, i as nat));
                assert(asks.take(i as int + 2) =~= next);
                lemma_exchange_stops(log, pos, asks, i as int + 2);
            }
            self.request(part, 3000)?;
            i += 1;
        }
        proof {
            assert(asks.drop_last() =~= upload_start(data@, target@, i as nat));
        }
        let mut response = self.request(command("image_end"), 5000)?;
        let expected = if same_text(target, "frame") {
            "displayed"
        } else {
            "stored"
        };
        if !response.is_str("status", expected) || response.get_u64("bytes") != Some(
            data.len() as u64,
        ) || !response.is_str("crc32", checksum.as_str()) {
            return Err(failed("设备完成回执与发送画面的大小或 CRC32 不一致。"));
        }
        response.insert("crc32", Json::Uint(crc32_hash(data) as u64));
        Ok(response)
    }
}

/// Where the first commands of an exchange stop it, the whole of it stops there.
proof fn lemma_exchange_stops(log: Seq<AnswerView>, pos: int, asks: Seq<AskView>, n: int)
    requires
        0 <= n <= asks.len(),
    ensures
        !(exchange(log, pos, asks.take(n)) is Done) ==> exchange(log, pos, asks) == exchange(
            log,
            pos,
            asks.take(n),
        ),
    decreases asks.len() - n,
{
    if n < asks.len() {
        lemma_exchange_stops(log, pos, asks, n + 1);
        assert(asks.take(n + 1).drop_last() =~= asks.take(n));
    } else {
        assert(asks.take(n) =~= asks);
    }
}

/// One serial port with what is known of the device behind it.
#[derive(Debug)]
pub struct PortInfo {
    pub device: String,
    pub description: String,
    pub vid: Option<u16>,
    pub pid: Option<u16>,
    pub serial_number: Option<String>,
}

/// A number that may be missing.
pub open spec fn opt_number(n: Option<u16>) -> JsonView {
    match n {
        Some(v) => JsonView::Int(v as int),
        None => JsonView::Null,
    }
}

/// A text that may be missing.
pub open spec fn opt_string(s: Option<String>) -> JsonView {
    match s {
        Some(v) => JsonView::Str(v@),
        None => JsonView::Null,
    }
}

fn number_json(n: Option<u16>) -> (r: Json)
    ensures
        r@ == opt_number(n),
{
    match n {
        Some(v) => Json::Uint(v as u64),
        None => Json::Null,
    }
}

impl PortInfo {
    /// The port as JSON.
    pub open spec fn model(&self) -> JsonView {
        put(
            put(
                put(
                    put(
                        put(empty_object(), "device"@, JsonView::Str(self.device@)),
                        "description"@,
                        JsonView::Str(self.description@),
                    ),
                    "vid"@,
                    opt_number(self.vid),
                ),
                "pid"@,
                opt_number(self.pid),
            ),
            "serial_number"@,
            opt_string(self.serial_number),
        )
    }

    /// Whether this is the USB interface of the device.
    pub open spec fn is_holocubic(&self) -> bool {
        self.vid == Some(USB_VID) && self.pid == Some(USB_PID)
    }

    /// The port as JSON.
    pub fn to_json(&self) -> (r: Json)
        ensures
            r@ == self.model(),
    {
        let serial = match &self.serial_number {
            Some(s) => Json::text(s.as_str()),
            None => Json::Null,
        };
        Json::object().with("device", Json::text(self.device.as_str())).with(
            "description",
            Json::text(self.description.as_str()),
        ).with("vid", number_json(self.vid)).with("pid", number_json(self.pid)).with(
            "serial_number",
            serial,
        )
    }
}

/// What a USB port says of the device behind it.
#[derive(Debug)]
pub struct UsbIdentity {
    pub vid: u16,
    pub pid: u16,
    pub serial_number: Option<String>,
    pub manufacturer: Option<String>,
    pub product: Option<String>,
}

/// A port by its name and, for a USB port, by what it says of the device: it is
/// described by the product, else by the manufacturer, else by its name.
pub fn describe_port(name: String, usb: Option<UsbIdentity>) -> (r: PortInfo)
    ensures
        r.device == name,
        match usb {
            Some(id) => {
                &&& r.vid == Some(id.vid)
                &&& r.pid == Some(id.pid)
                &&& r.serial_number == id.serial_number
                &&& r.description == match (id.product, id.manufacturer) {
                    (Some(product), _) => product,
                    (None, Some(manufacturer)) => manufacturer,
                    (None, None) => name,
                }
            },
            None => r.vid is None && r.pid is None && r.serial_number is None && r.description
                == name,
        },
{
    match usb {
        Some(id) => {
            let description = match (id.product, id.manufacturer) {
                (Some(product), _) => product,
                (None, Some(manufacturer)) => manufacturer,
                (None, None) => name.clone(),
            };
            PortInfo {
                device: name,
                description,
                vid: Some(id.vid),
                pid: Some(id.pid),
                serial_number: id.serial_number,
            }
        },
        None => {
            let description = name.clone();
            PortInfo { device: name, description, vid: None, pid: None, serial_number: None }
        },
    }
}

/// The names of the ports behind which the device is.
pub open spec fn holocubic_ports(ports: Seq<PortInfo>) -> Seq<Seq<char>>
    decreases ports.len(),
{
    if ports.len() == 0 {
        Seq::empty()
    } else if ports.last().is_holocubic() {
        holocubic_ports(ports.drop_last()).push(ports.last().device@)
    } else {
        holocubic_ports(ports.drop_last())
    }
}

/// Which port to open: the one that was asked for, else the only one with the
/// device behind it.
pub open spec fn chosen_port(
    requested: Option<Seq<char>>,
    listed: Result<Seq<PortInfo>, Seq<char>>,
) -> Result<Seq<char>, Seq<char>> {
    if requested is Some && requested->0.len() > 0 {
        Ok(requested->0)
    } else {
        match listed {
            Err(e) => Err(e),
            Ok(ports) => {
                let found = holocubic_ports(ports);
                if found.len() == 0 {
                    Err("未找到 Espressif 303A:1001 串口，请检查 USB 线或用 --port COMx 指定。"@)
                } else if found.len() == 1 {
                    Ok(found[0])
                } else {
                    Err("找到多个 ESP32-S3 串口："@ + joined(found, ", "@) + "，请用 --port 指定。"@)
                }
            },
        }
    }
}

/// The port that was asked for or, without one, the only listed port with the
/// device behind it.
pub fn find_holocubic_port(
    requested: Option<&str>,
    listed: Result<Vec<PortInfo>, ProtocolError>,
) -> (r: Result<String, ProtocolError>)
    ensures
        match r {
            Ok(port) => chosen_port(opt_text(requested), listing(listed)) == Ok::<
                Seq<char>,
                Seq<char>,
            >(port@),
            Err(e) => chosen_port(opt_text(requested), listing(listed)) == Err::<
                Seq<char>,
                Seq<char>,
            >(e.0@),
        },
{
    match requested {
        Some(port) => {
            if !port.is_empty() {
                return Ok(port.to_owned());
            }
        },
        None => {},
    }
    let ports = match listed {
        Ok(p) => p,
        Err(e) => {
            return Err(e);
        },
    };
    let mut found: Vec<String> = Vec::new();
    let mut i: usize = 0;
    while i < ports.len()
        invariant
            i <= ports@.len(),
            texts(found@) == holocubic_ports(ports@.take(i as int)),
        decreases ports@.len() - i,
    {
        proof {
            assert(ports@.take(i as int + 1).drop_last() =~= ports@.take(i as int));
            assert(ports@.take(i as int + 1).last() == ports@[i as int]);
        }
        if ports[i].vid == Some(USB_VID) && ports[i].pid == Some(USB_PID) {
            let ghost before = found@;
            found.push(ports[i].device.clone());
            assert(texts(found@) =~= texts(before).push(ports@[i as int].device@));
        }
        i += 1;
    }
    assert(ports@.take(ports@.len() as int) =~= ports@);
    assert(texts(found@).len() == found@.len());
    if found.len() == 0 {
        Err(err("未找到 Espressif 303A:1001 串口，请检查 USB 线或用 --port COMx 指定。"))
    } else if found.len() == 1 {
        assert(texts(found@)[0] == found@[0]@);
        Ok(found[0].clone())
    } else {
        let names = join(&found, ", ");
        let head = glue("找到多个 ESP32-S3 串口：", names.as_str());
        Err(ProtocolError(glue(head.as_str(), "，请用 --port 指定。")))
    }
}

/// A list of ports, or the message of the error that came instead.
pub open spec fn listing(listed: Result<Vec<PortInfo>, ProtocolError>) -> Result<
    Seq<PortInfo>,
    Seq<char>,
> {
    match listed {
        Ok(ports) => Ok(ports@),
        Err(e) => Err(e.0@),
    }
}

/// The ports as JSON.
pub open spec fn ports_json(ports: Seq<PortInfo>) -> JsonView {
    put(
        empty_object(),
        "ports"@,
        JsonView::Array(Seq::new(ports.len(), |i: int| ports[i].model())),
    )
}

/// The ports as JSON.
pub fn list_ports_result(ports: &Vec<PortInfo>) -> (r: Json)
    ensures
        r@ == ports_json(ports@),
{
    let mut out: Vec<Json> = Vec::new();
    let mut i: usize = 0;
    while i < ports.len()
        invariant
            i <= ports@.len(),
            out@.len() == i,
            forall|k: int| 0 <= k < i ==> (#[trigger] out@[k])@ == ports@[k].model(),
        decreases ports@.len() - i,
    {
        out.push(ports[i].to_json());
        i += 1;
    }
    assert(models(out@) =~= Seq::new(ports@.len(), |i: int| ports@[i].model()));
    Json::object().with("ports", Json::list(out))
}

/// Commands one after another take one answer each.
proof fn lemma_exchange_answers(log: Seq<AnswerView>, pos: int, asks: Seq<AskView>)
    requires
        0 <= pos <= log.len(),
    ensures
        match exchange(log, pos, asks) {
            Turn::Done(values, k) => {
                &&& k == pos + asks.len() <= log.len()
                &&& values.len() == asks.len()
                &&& forall|i: int|
                    #![trigger values[i]]
                    0 <= i < values.len() ==> log[pos + i] == AnswerView::Value(values[i])
            },
            _ => true,
        },
    decreases asks.len(),
{
    if asks.len() > 0 {
        lemma_exchange_answers(log, pos, asks.drop_last());
    }
}

/// An upload succeeds only where the last answer of the device confirms what was
/// sent: that it is shown or stored, how long it is, and its sum.
pub proof fn law_upload_is_confirmed(log: Seq<AnswerView>, pos: int, data: Seq<u8>, target: Seq<char>)
    requires
        0 <= pos <= log.len(),
    ensures
        match upload(log, pos, data, target) {
            Turn::Done(_, k) => {
                &&& image_target(target)
                &&& k == pos + chunk_count(data.len()) + 2 <= log.len()
                &&& match log[k - 1] {
                    AnswerView::Value(reply) => upload_confirmed(data, target, reply),
                    _ => false,
                }
            },
            _ => true,
        },
{
    let asks = upload_asks(data, target);
    lemma_exchange_answers(log, pos, asks);
    match exchange(log, pos, asks) {
        Turn::Done(values, k) => {
            assert(asks.len() == chunk_count(data.len()) + 2);
            let last = values.len() - 1;
            assert(log[pos + last] == AnswerView::Value(values[last]));
        },
        _ => {},
    }
}

proof fn lemma_port_members()
    ensures
        "device"@.len() == 6,
        "description"@.len() == 11,
        "vid"@.len() == 3,
        "pid"@.len() == 3,
        "serial_number"@.len() == 13,
        "vid"@[0] == 'v',
        "pid"@[0] == 'p',
{
    reveal_strlit("device");
    reveal_strlit("description");
    reveal_strlit("vid");
    reveal_strlit("pid");
    reveal_strlit("serial_number");
}

/// A port is described by its name, its description, its numbers and its serial number,
/// null for what it does not say.
pub proof fn law_port_record_says_the_port(p: PortInfo)
    ensures
        at(p.model(), "device"@) == Some(JsonView::Str(p.device@)),
        at(p.model(), "description"@) == Some(JsonView::Str(p.description@)),
        at(p.model(), "vid"@) == Some(
            match p.vid {
                Some(n) => JsonView::Int(n as int),
                None => JsonView::Null,
            },
        ),
        at(p.model(), "pid"@) == Some(
            match p.pid {
                Some(n) => JsonView::Int(n as int),
                None => JsonView::Null,
            },
        ),
        at(p.model(), "serial_number"@) == Some(
            match p.serial_number {
                Some(s) => JsonView::Str(s@),
                None => JsonView::Null,
            },
        ),
{
    lemma_port_members();
}

/// Whether a port has the numbers of the device's maker and model.
pub open spec fn behind_it(p: PortInfo) -> bool {
    p.vid == Some(12346u16) && p.pid == Some(4097u16)
}

/// The port that is named is opened; without a name the one port with the device
/// behind it is, and none where there is no such port or more than one.
pub proof fn law_port_is_found(
    requested: Option<Seq<char>>,
    listed: Result<Seq<PortInfo>, Seq<char>>,
)
    ensures
        ({
            let r = chosen_port(requested, listed);
            let named = requested is Some && requested->0.len() > 0;
            &&& named ==> r == Ok::<Seq<char>, Seq<char>>(requested->0)
            &&& !named && listed is Err ==> r == Err::<Seq<char>, Seq<char>>(listed->Err_0)
            &&& !named && listed is Ok ==> {
                let found = listed->Ok_0.filter(|p: PortInfo| behind_it(p));
                &&& r is Ok <==> found.len() == 1
                &&& r is Ok ==> r->Ok_0 == found[0].device@
            }
        }),
{
    if listed is Ok {
        lemma_found_ports(listed->Ok_0);
    }
}

proof fn lemma_found_ports(ports: Seq<PortInfo>)
    ensures
        ({
            let found = ports.filter(|p: PortInfo| behind_it(p));
            &&& holocubic_ports(ports).len() == found.len()
            &&& forall|i: int|
                0 <= i < found.len() ==> #[trigger] holocubic_ports(ports)[i] == found[i].device@
        }),
    decreases ports.len(),
{
    reveal(Seq::filter);
    if ports.len() > 0 {
        lemma_found_ports(ports.drop_last());
        assert(ports.last().is_holocubic() == behind_it(ports.last()));
    }
}

/// The list of ports holds every port in order, under its name.
pub proof fn law_ports_are_listed_in_order(ports: Seq<PortInfo>)
    ensures
        items_of(at(ports_json(ports), "ports"@)) matches Some(list) && list.len() == ports.len()
            && forall|i: int|
            #![trigger list[i]]
            0 <= i < list.len() ==> list[i] == ports[i].model() && at(list[i], "device"@) == Some(
                JsonView::Str(ports[i].device@),
            ),
{
    assert forall|i: int| 0 <= i < ports.len() implies #[trigger] at(ports[i].model(), "device"@)
        == Some(JsonView::Str(ports[i].device@)) by {
        law_port_record_says_the_port(ports[i]);
    }
}

} // verus!
