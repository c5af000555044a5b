//! Reading back what the device holds: labels, radar data, calendar pages and
//! playlist pictures, in checked parts.

use vstd::prelude::*;
use vstd::utf8::encode_utf8;

use crate::codes::{b64_decoded, read_base64};
use crate::json::{
    at, copy_values, is_text, items_of, json_of_bytes, models, opt_text, parse_bytes, put,
    same_text, text_of, u64_of, Json, JsonView,
};
use crate::protocol::{crc32_hex, crc_hex, READBACK_CHUNK};
use crate::script::{
    byte_lists, bytes_end, failed, pages_end, stopped, value_end, value_turn, AnswerView, AskView,
    Halt, Turn,
};
use crate::text::byte_len;
use crate::usb::{command, plain_command, status_ask, HoloCubicUsb};

verus! {

/// The bytes of one part, where it is the part that was asked for.
pub open spec fn asset_part(
    part: JsonView,
    crc: Seq<char>,
    page: Option<u64>,
    offset: int,
    remaining: int,
) -> Option<Seq<u8>> {
    match text_of(at(part, "data"@)) {
        Some(text) => match b64_decoded(text) {
            Some(data) => if text_of(at(part, "crc32"@)) == Some(crc) && u64_of(
                at(part, "offset"@),
            ) == Some(offset as u64) && (page is Some ==> u64_of(at(part, "page"@)) == page) && 1
                <= data.len() <= READBACK_CHUNK && data.len() <= remaining {
                Some(data)
            } else {
                None
            },
            None => None,
        },
        None => None,
    }
}

/// Reading `size` bytes in parts, of which `got` are there: each part is asked
/// for by its offset.
pub open spec fn read_back(
    log: Seq<AnswerView>,
    pos: int,
    command: JsonView,
    crc: Seq<char>,
    page: Option<u64>,
    message: Seq<char>,
    size: int,
    got: Seq<u8>,
) -> Turn<Seq<u8>>
    decreases size - got.len(),
{
    if got.len() >= size {
        Turn::Done(got, pos)
    } else {
        match value_turn(
            log,
            pos,
            AskView::Request {
                command: put(command, "offset"@, JsonView::Int(got.len() as int)),
                timeout_ms: 3000,
            },
        ) {
            Turn::Done(part, k) => match asset_part(
                part,
                crc,
                page,
                got.len() as int,
                size - got.len(),
            ) {
                Some(data) => read_back(log, k, command, crc, page, message, size, got + data),
                None => Turn::Failed(message, k),
            },
            other => stopped(other),
        }
    }
}

/// What was read back is as long as it was announced to be.
pub proof fn law_read_back_length(
    log: Seq<AnswerView>,
    pos: int,
    command: JsonView,
    crc: Seq<char>,
    page: Option<u64>,
    message: Seq<char>,
    size: int,
    got: Seq<u8>,
)
    requires
        got.len() <= size,
    ensures
        match read_back(log, pos, command, crc, page, message, size, got) {
            Turn::Done(data, k) => data.len() == size && got.is_prefix_of(data),
            _ => true,
        },
    decreases size - got.len(),
{
    if got.len() < size {
        let ask = AskView::Request {
            command: put(command, "offset"@, JsonView::Int(got.len() as int)),
            timeout_ms: 3000,
        };
        match value_turn(log, pos, ask) {
            Turn::Done(part, k) => match asset_part(
                part,
                crc,
                page,
                got.len() as int,
                size - got.len(),
            ) {
                Some(data) => {
                    law_read_back_length(log, k, command, crc, page, message, size, got + data);
                    match read_back(log, k, command, crc, page, message, size, got + data) {
                        Turn::Done(whole, n) => {
                            assert(whole.take(got.len() as int) =~= whole.take(
                                (got + data).len() as int,
                            ).take(got.len() as int));
                            assert((got + data).take(got.len() as int) =~= got);
                        },
                        _ => {},
                    }
                },
                None => {},
            },
            _ => {},
        }
    } else {
        assert(got.take(got.len() as int) =~= got);
    }
}

impl HoloCubicUsb {
    /// Reads `size` bytes in parts.
    pub(crate) fn read_back(
        &mut self,
        command: &Json,
        crc: &str,
        page: Option<u64>,
        message: &str,
        size: usize,
    ) -> (r: Result<Vec<u8>, Halt>)
        ensures
            bytes_end(r, final(self).pos()) == read_back(
                old(self).log(),
                old(self).pos(),
                command@,
                crc@,
                page,
                message@,
                size as int,
                Seq::empty(),
            ),
            match r {
                Ok(data) => data@.len() == size,
                Err(_) => true,
            },
            final(self).log() == old(self).log(),
            final(self).port() == old(self).port(),
    {
        let mut data: Vec<u8> = Vec::new();
        while data.len() < size
            invariant
                data@.len() <= size,
                self.log() == old(self).log(),
                self.port() == old(self).port(),
                read_back(
                    old(self).log(),
                    old(self).pos(),
                    command@,
                    crc@,
                    page,
                    message@,
                    size as int,
                    Seq::empty(),
                ) == read_back(
                    self.log(),
                    self.pos(),
                    command@,
                    crc@,
                    page,
                    message@,
                    size as int,
                    data@,
                ),
            decreases size - data@.len(),
        {
            let ask = command.clone().with("offset", Json::Uint(data.len() as u64));
            let part = self.request(ask, 3000)?;
            let remaining: usize = size - data.len();
            let mut fits = part.is_str("crc32", crc) && part.get_u64("offset") == Some(
                data.len() as u64,
            );
            match page {
                Some(n) => {
                    fits = fits && part.get_u64("page") == Some(n);
                },
                None => {},
            }
            let decoded = match part.get_str("data") {
                Some(text) => read_base64(text),
                None => None,
            };
            match decoded {
                Some(bytes) => {
                    if !fits || bytes.len() < 1 || bytes.len() > READBACK_CHUNK || bytes.len()
                        > remaining {
                        return Err(failed(message));
                    }
                    let ghost before = data@;
                    data.extend_from_slice(bytes.as_slice());
                    assert(data@ =~= before + bytes@);
                },
                None => {
                    return Err(failed(message));
                },
            }
        }
        Ok(data)
    }
}

/// Bytes as a JSON array of numbers.
pub open spec fn bytes_view(data: Seq<u8>) -> JsonView {
    JsonView::Array(Seq::new(data.len(), |i: int| JsonView::Int(data[i] as int)))
}

/// Bytes as a JSON array of numbers.
pub fn bytes_json(data: &[u8]) -> (r: Json)
    ensures
        r@ == bytes_view(data@),
{
    let mut out: Vec<Json> = Vec::new();
    let mut i: usize = 0;
    while i < data.len()
        invariant
            i <= data@.len(),
            out@.len() == i,
            forall|k: int| 0 <= k < i ==> (#[trigger] out@[k])@ == JsonView::Int(data@[k] as int),
        decreases data@.len() - i,
    {
        out.push(Json::Uint(data[i] as u64));
        i += 1;
    }
    let r = Json::Array(out);
    proof {
        crate::json::lemma_array_model(out);
        assert(models(out@) =~= bytes_view(data@)->Array_0);
    }
    r
}

/// The bytes of an array of numbers: of each number its lowest eight bits;
/// anything else is passed over.
pub open spec fn bytes_of(items: Seq<JsonView>) -> Seq<u8>
    decreases items.len(),
{
    if items.len() == 0 {
        Seq::empty()
    } else {
        match u64_of(Some(items.last())) {
            Some(n) => bytes_of(items.drop_last()).push((n % 256) as u8),
            None => bytes_of(items.drop_last()),
        }
    }
}

/// The bytes of a JSON array of numbers.
pub fn bytes_from_json_array(value: &Json) -> (r: Option<Vec<u8>>)
    ensures
        match r {
            Some(data) => items_of(Some(value@)) is Some && data@ == bytes_of(
                items_of(Some(value@))->0,
            ),
            None => items_of(Some(value@)) is None,
        },
{
    match value.as_array() {
        Some(items) => {
            let mut out: Vec<u8> = Vec::new();
            let mut i: usize = 0;
            while i < items.len()
                invariant
                    i <= items@.len(),
                    out@ == bytes_of(models(items@).take(i as int)),
                decreases items@.len() - i,
            {
                proof {
                    assert(models(items@).take(i as int + 1).drop_last() =~= models(items@).take(
                        i as int,
                    ));
                    assert(models(items@).take(i as int + 1).last() == items@[i as int]@);
                }
                match items[i].as_u64() {
                    Some(n) => {
                        assert(n % 256 == (n as u8)) by (bit_vector);
                        out.push(n as u8);
                    },
                    None => {},
                }
                i += 1;
            }
            assert(models(items@).take(items@.len() as int) =~= models(items@));
            Some(out)
        },
        None => None,
    }
}

/// The part of a state that one scene is in: a playlist holds each scene
/// under its key, any other state is the scene itself.
pub open spec fn scene_of(state: JsonView, key: Seq<char>) -> Option<JsonView> {
    if text_of(at(state, "mode"@)) == Some("home"@) {
        at(state, key)
    } else {
        Some(state)
    }
}

/// The part of a state that one scene is in.
pub fn scene(state: &Json, key: &str) -> (r: Option<Json>)
    ensures
        match r {
            Some(v) => scene_of(state@, key@) == Some(v@),
            None => scene_of(state@, key@) is None,
        },
{
    if state.is_str("mode", "home") {
        match state.get(key) {
            Some(v) => Some(v.clone()),
            None => None,
        }
    } else {
        Some(state.clone())
    }
}

/// A task state with the label picture put in, once size and sum are right.
pub open spec fn labelled(
    pos: int,
    state: JsonView,
    data: Seq<u8>,
    crc: Seq<char>,
    size: int,
) -> Turn<JsonView> {
    if data.len() == size && crc_hex(data) == crc {
        Turn::Done(put(state, "labels"@, bytes_view(data)), pos)
    } else {
        Turn::Failed("设备标签 CRC32 校验失败"@, pos)
    }
}

/// Sum and size of a label picture.
pub open spec fn labels_meta(state: JsonView) -> Option<(Seq<char>, int)> {
    match (text_of(at(state, "labels_crc"@)), u64_of(at(state, "labels_size"@))) {
        (Some(crc), Some(size)) => if encode_utf8(crc).len() == 8 && 1 <= size <= 524288 {
            Some((crc, size as int))
        } else {
            None
        },
        _ => None,
    }
}

/// The state of a task with its label picture: the one just uploaded, or the
/// one read back from the device unless it is known already.
pub open spec fn labels_mirrored(
    log: Seq<AnswerView>,
    pos: int,
    state: JsonView,
    known: Option<Seq<char>>,
    uploaded: Option<Seq<u8>>,
) -> Turn<JsonView> {
    if text_of(at(state, "mode"@)) != Some("task"@) {
        Turn::Done(state, pos)
    } else if u64_of(at(state, "mirror_protocol"@)) != Some(1u64) {
        Turn::Failed(
            "设备程序需要更新：请上传新版 main.lua 和 quota_scene.lua 以回读实际画面"@,
            pos,
        )
    } else {
        match labels_meta(state) {
            None => Turn::Failed("设备标签元数据无效"@, pos),
            Some((crc, size)) => match uploaded {
                Some(data) => labelled(pos, state, data, crc, size),
                None => if known == Some(crc) {
                    Turn::Done(state, pos)
                } else {
                    match read_back(
                        log,
                        pos,
                        put(plain_command("task_labels_read"@), "crc32"@, JsonView::Str(crc)),
                        crc,
                        None,
                        "设备标签分块不匹配"@,
                        size,
                        Seq::empty(),
                    ) {
                        Turn::Done(data, k) => match value_turn(log, k, status_ask()) {
                            Turn::Done(now, n) => match scene_of(now, "task"@) {
                                Some(fresh) => if text_of(at(fresh, "mode"@)) == Some("task"@)
                                    && text_of(at(fresh, "labels_crc"@)) == Some(crc) {
                                    labelled(n, fresh, data, crc, size)
                                } else {
                                    Turn::Failed("回读期间设备任务已变化，请重新检测连接"@, n)
                                },
                                None => Turn::Failed("回读期间设备任务已变化，请重新检测连接"@, n),
                            },
                            other => stopped(other),
                        },
                        other => stopped(other),
                    }
                },
            },
        }
    }
}

fn with_labels(state: Json, data: &[u8], crc: &str, size: usize) -> (r: Result<Json, Halt>)
    ensures
        forall|pos: int| #[trigger]
            value_end(r, pos) == labelled(pos, state@, data@, crc@, size as int),
{
    if data.len() != size || !same_text(crc32_hex(data).as_str(), crc) {
        return Err(failed("设备标签 CRC32 校验失败"));
    }
    let mut out = state;
    out.insert("labels", bytes_json(data));
    Ok(out)
}

impl HoloCubicUsb {
    /// The state of a task with its label picture.
    pub fn mirror_labels(
        &mut self,
        state: Json,
        known_crc: Option<&str>,
        uploaded: Option<&[u8]>,
    ) -> (r: Result<Json, Halt>)
        ensures
            value_end(r, final(self).pos()) == labels_mirrored(
                old(self).log(),
                old(self).pos(),
                state@,
                opt_text(known_crc),
                match uploaded {
                    Some(data) => Some(data@),
                    None => None,
                },
            ),
            final(self).log() == old(self).log(),
            final(self).port() == old(self).port(),
    {
        if !state.is_str("mode", "task") {
            return Ok(state);
        }
        if state.get_u64("mirror_protocol") != Some(1) {
            return Err(
                failed("设备程序需要更新：请上传新版 main.lua 和 quota_scene.lua 以回读实际画面"),
            );
        }
        let (crc, size): (String, usize) = match (
            state.get_str("labels_crc"),
            state.get_u64("labels_size"),
        ) {
            (Some(crc), Some(size)) => {
                if byte_len(crc) != 8 || size < 1 || size > 524288 {
                    return Err(failed("设备标签元数据无效"));
                }
                (crc.to_owned(), size as usize)
            },
            _ => {
                return Err(failed("设备标签元数据无效"));
            },
        };
        match uploaded {
            Some(data) => with_labels(state, data, crc.as_str(), size),
            None => {
                if is_text(known_crc, crc.as_str()) {
                    return Ok(state);
                }
                let ask = command("task_labels_read").with("crc32", Json::text(crc.as_str()));
                let data = self.read_back(&ask, crc.as_str(), None, "设备标签分块不匹配", size)?;
                let now = self.status()?;
                match scene(&now, "task") {
                    Some(fresh) => {
                        if !fresh.is_str("mode", "task") || !fresh.is_str(
                            "labels_crc",
                            crc.as_str(),
                        ) {
                            return Err(failed("回读期间设备任务已变化，请重新检测连接"));
                        }
                        with_labels(fresh, data.as_slice(), crc.as_str(), size)
                    },
                    None => Err(failed("回读期间设备任务已变化，请重新检测连接")),
                }
            },
        }
    }
}

/// Sum and size of radar data.
pub open spec fn radar_meta(state: JsonView) -> Option<(Seq<char>, int)> {
    match (text_of(at(state, "crc32"@)), u64_of(at(state, "radar_size"@))) {
        (Some(crc), Some(size)) => if encode_utf8(crc).len() == 8 && 1 <= size <= 8192 {
            Some((crc, size as int))
        } else {
            None
        },
        _ => None,
    }
}

/// The state of the radar with its data, read back unless it is known already.
pub open spec fn radar_mirrored(
    log: Seq<AnswerView>,
    pos: int,
    state: JsonView,
    known: Option<Seq<char>>,
) -> Turn<JsonView> {
    if u64_of(at(state, "radar_mirror_protocol"@)) != Some(1u64) {
        Turn::Failed("设备程序需要更新：请上传支持雷达预览的 main.lua 和 radar_scene.lua"@, pos)
    } else {
        match radar_meta(state) {
            None => Turn::Failed("设备雷达元数据无效"@, pos),
            Some((crc, size)) => if at(state, "radar_data"@) is Some || known == Some(crc) {
                Turn::Done(state, pos)
            } else {
                match read_back(
                    log,
                    pos,
                    put(plain_command("radar_read"@), "crc32"@, JsonView::Str(crc)),
                    crc,
                    None,
                    "设备雷达分块不匹配"@,
                    size,
                    Seq::empty(),
                ) {
                    Turn::Done(data, k) => if crc_hex(data) != crc {
                        Turn::Failed("设备雷达 CRC 校验失败"@, k)
                    } else {
                        match value_turn(log, k, status_ask()) {
                            Turn::Done(now, n) => radar_filled(n, now, data, crc),
                            other => stopped(other),
                        }
                    },
                    other => stopped(other),
                }
            },
        }
    }
}

/// A radar state with the data put in, if it is still the one that was read.
pub open spec fn radar_filled(
    pos: int,
    now: JsonView,
    data: Seq<u8>,
    crc: Seq<char>,
) -> Turn<JsonView> {
    match scene_of(now, "radar"@) {
        Some(fresh) => if text_of(at(fresh, "mode"@)) != Some("radar"@) || text_of(
            at(fresh, "crc32"@),
        ) != Some(crc) {
            Turn::Failed("回读期间设备画面已变化，请重新检测连接"@, pos)
        } else {
            match json_of_bytes(data) {
                Some(v) => Turn::Done(put(fresh, "radar_data"@, v), pos),
                None => Turn::Failed("设备雷达数据不是合法 JSON"@, pos),
            }
        },
        None => Turn::Failed("回读期间设备画面已变化，请重新检测连接"@, pos),
    }
}

/// The state of the radar with its data.
pub fn mirror_radar_public(device: &mut HoloCubicUsb, state: Json, known_crc: Option<&str>) -> (r:
    Result<Json, Halt>)
    ensures
        value_end(r, final(device).pos()) == radar_mirrored(
            old(device).log(),
            old(device).pos(),
            state@,
            opt_text(known_crc),
        ),
        final(device).log() == old(device).log(),
        final(device).port() == old(device).port(),
{
    if state.get_u64("radar_mirror_protocol") != Some(1) {
        return Err(
            failed("设备程序需要更新：请上传支持雷达预览的 main.lua 和 radar_scene.lua"),
        );
    }
    let (crc, size): (String, usize) = match (state.get_str("crc32"), state.get_u64("radar_size")) {
        (Some(crc), Some(size)) => {
            if byte_len(crc) != 8 || size < 1 || size > 8192 {
                return Err(failed("设备雷达元数据无效"));
            }
            (crc.to_owned(), size as usize)
        },
        _ => {
            return Err(failed("设备雷达元数据无效"));
        },
    };
    if state.get("radar_data").is_some() || is_text(known_crc, crc.as_str()) {
        return Ok(state);
    }
    let ask = command("radar_read").with("crc32", Json::text(crc.as_str()));
    let raw = device.read_back(&ask, crc.as_str(), None, "设备雷达分块不匹配", size)?;
    if !same_text(crc32_hex(raw.as_slice()).as_str(), crc.as_str()) {
        return Err(failed("设备雷达 CRC 校验失败"));
    }
    let now = device.status()?;
    match scene(&now, "radar") {
        Some(fresh) => {
            if !fresh.is_str("mode", "radar") || !fresh.is_str("crc32", crc.as_str()) {
                return Err(failed("回读期间设备画面已变化，请重新检测连接"));
            }
            match parse_bytes(raw.as_slice()) {
                Some(v) => {
                    let mut out = fresh;
                    out.insert("radar_data", v);
                    Ok(out)
                },
                None => Err(failed("设备雷达数据不是合法 JSON")),
            }
        },
        None => Err(failed("回读期间设备画面已变化，请重新检测连接")),
    }
}

/// Sum and size of a calendar page.
pub open spec fn page_meta(page: JsonView) -> Option<(Seq<char>, int)> {
    match (text_of(at(page, "crc32"@)), u64_of(at(page, "size"@))) {
        (Some(crc), Some(size)) => if 1 <= size <= 524288 {
            Some((crc, size as int))
        } else {
            None
        },
        _ => None,
    }
}

/// Whether every page has a picture already.
pub open spec fn pages_complete(pages: Seq<JsonView>) -> bool {
    forall|i: int| 0 <= i < pages.len() ==> at(#[trigger] pages[i], "data"@) is Some
}

/// Whether every page says what its sum and size are.
pub open spec fn pages_described(pages: Seq<JsonView>) -> bool {
    forall|i: int| 0 <= i < pages.len() ==> page_meta(#[trigger] pages[i]) is Some
}

/// The command that reads one page, but for the offset.
pub open spec fn calendar_read(signature: Seq<char>, page: int) -> JsonView {
    put(
        put(plain_command("calendar_read"@), "signature"@, JsonView::Str(signature)),
        "page"@,
        JsonView::Int(page),
    )
}

/// Reading the pages of a calendar one by one, each with its sum checked.
pub open spec fn pages_read(
    log: Seq<AnswerView>,
    pos: int,
    signature: Seq<char>,
    pages: Seq<JsonView>,
) -> Turn<Seq<Seq<u8>>>
    decreases pages.len(),
{
    if pages.len() == 0 {
        Turn::Done(Seq::empty(), pos)
    } else {
        let n = pages.len();
        match pages_read(log, pos, signature, pages.drop_last()) {
            Turn::Done(done, k) => {
                let (crc, size) = page_meta(pages.last())->0;
                match read_back(
                    log,
                    k,
                    calendar_read(signature, n as int),
                    crc,
                    Some(n as u64),
                    "日历回读分块不匹配"@,
                    size,
                    Seq::empty(),
                ) {
                    Turn::Done(data, m) => if crc_hex(data) == crc {
                        Turn::Done(done.push(data), m)
                    } else {
                        Turn::Failed("日历回读 CRC 不匹配"@, m)
                    },
                    other => stopped(other),
                }
            },
            other => stopped(other),
        }
    }
}

/// Pages with their pictures put in.
pub open spec fn pages_filled(pages: Seq<JsonView>, data: Seq<Seq<u8>>) -> Seq<JsonView> {
    Seq::new(pages.len(), |i: int| put(pages[i], "data"@, bytes_view(data[i])))
}

/// Whether a calendar still has the pages that were read.
pub open spec fn pages_unchanged(latest: Seq<JsonView>, pages: Seq<JsonView>) -> bool {
    latest.len() == pages.len() && forall|i: int|
        0 <= i < pages.len() ==> text_of(at(#[trigger] latest[i], "crc32"@)) == text_of(
            at(pages[i], "crc32"@),
        )
}

/// A calendar state with the pictures put in, if it is still the one that was read.
pub open spec fn calendar_filled(
    pos: int,
    now: JsonView,
    signature: Seq<char>,
    pages: Seq<JsonView>,
    data: Seq<Seq<u8>>,
) -> Turn<JsonView> {
    match scene_of(now, "calendar"@) {
        Some(fresh) => if text_of(at(fresh, "mode"@)) != Some("calendar"@) || text_of(
            at(fresh, "calendar_signature"@),
        ) != Some(signature) {
            Turn::Failed("回读期间日历已变化，请重新检测连接"@, pos)
        } else {
            match items_of(at(fresh, "calendar_pages"@)) {
                Some(latest) => if pages_unchanged(latest, pages) {
                    Turn::Done(
                        put(
                            fresh,
                            "calendar_pages"@,
                            JsonView::Array(pages_filled(latest, data)),
                        ),
                        pos,
                    )
                } else {
                    Turn::Failed("回读期间日历页已变化"@, pos)
                },
                None => Turn::Failed("回读期间日历已变化，请重新检测连接"@, pos),
            }
        },
        None => Turn::Failed("回读期间日历已变化，请重新检测连接"@, pos),
    }
}

/// The state of a calendar with its pages, read back unless they are known already.
pub open spec fn calendar_mirrored(
    log: Seq<AnswerView>,
    pos: int,
    state: JsonView,
    known: Option<Seq<char>>,
) -> Turn<JsonView> {
    match text_of(at(state, "calendar_signature"@)) {
        None => Turn::Failed("日历缺少签名"@, pos),
        Some(signature) => match items_of(at(state, "calendar_pages"@)) {
            None => Turn::Failed("设备日历页数无效"@, pos),
            Some(pages) => if !(1 <= pages.len() <= 32) {
                Turn::Failed("设备日历页数无效"@, pos)
            } else if known == Some(signature) || pages_complete(pages) {
                Turn::Done(state, pos)
            } else if !pages_described(pages) {
                Turn::Failed("设备日历页面大小无效"@, pos)
            } else {
                match pages_read(log, pos, signature, pages) {
                    Turn::Done(data, k) => match value_turn(log, k, status_ask()) {
                        Turn::Done(now, n) => calendar_filled(n, now, signature, pages, data),
                        other => stopped(other),
                    },
                    other => stopped(other),
                }
            },
        },
    }
}

/// Whether every page has a picture already.
pub fn pages_all_drawn(pages: &Vec<Json>) -> (r: bool)
    ensures
        r == pages_complete(models(pages@)),
{
    let mut i: usize = 0;
    while i < pages.len()
        invariant
            i <= pages@.len(),
            forall|k: int| 0 <= k < i ==> at(#[trigger] models(pages@)[k], "data"@) is Some,
        decreases pages@.len() - i,
    {
        assert(models(pages@)[i as int] == pages@[i as int]@);
        if pages[i].get("data").is_none() {
            return false;
        }
        i += 1;
    }
    true
}

fn page_metas(pages: &Vec<Json>) -> (r: Option<Vec<(String, usize)>>)
    ensures
        match r {
            Some(metas) => {
                &&& pages_described(models(pages@))
                &&& metas@.len() == pages@.len()
                &&& forall|i: int|
                    #![trigger metas@[i]]
                    0 <= i < metas@.len() ==> page_meta(pages@[i]@) == Some(
                        (metas@[i].0@, metas@[i].1 as int),
                    )
            },
            None => !pages_described(models(pages@)),
        },
{
    let mut out: Vec<(String, usize)> = Vec::new();
    let mut i: usize = 0;
    while i < pages.len()
        invariant
            i <= pages@.len(),
            out@.len() == i,
            forall|k: int|
                #![trigger out@[k]]
                0 <= k < i ==> page_meta(pages@[k]@) == Some((out@[k].0@, out@[k].1 as int)),
        decreases pages@.len() - i,
    {
        assert(models(pages@)[i as int] == pages@[i as int]@);
        match (pages[i].get_str("crc32"), pages[i].get_u64("size")) {
            (Some(crc), Some(size)) => {
                if size < 1 || size > 524288 {
                    return None;
                }
                out.push((crc.to_owned(), size as usize));
            },
            _ => {
                return None;
            },
        }
        i += 1;
    }
    proof {
        assert forall|k: int| 0 <= k < models(pages@).len() implies page_meta(
            #[trigger] models(pages@)[k],
        ) is Some by {
            assert(out@[k].1 >= 0);
        }
    }
    Some(out)
}

proof fn lemma_pages_read_stops(
    log: Seq<AnswerView>,
    pos: int,
    signature: Seq<char>,
    pages: Seq<JsonView>,
    n: int,
)
    requires
        0 <= n <= pages.len(),
    ensures
        !(pages_read(log, pos, signature, pages.take(n)) is Done) ==> pages_read(
            log,
            pos,
            signature,
            pages,
        ) == pages_read(log, pos, signature, pages.take(n)),
    decreases pages.len() - n,
{
    if n < pages.len() {
        lemma_pages_read_stops(log, pos, signature, pages, n + 1);
        assert(pages.take(n + 1).drop_last() =~= pages.take(n));
    } else {
        assert(pages.take(n) =~= pages);
    }
}

impl HoloCubicUsb {
    fn read_pages(&mut self, signature: &str, pages: &Vec<Json>, metas: &Vec<(String, usize)>) -> (r:
        Result<Vec<Vec<u8>>, Halt>)
        requires
            metas@.len() == pages@.len() <= 32,
            forall|i: int|
                #![trigger metas@[i]]
                0 <= i < metas@.len() ==> page_meta(pages@[i]@) == Some(
                    (metas@[i].0@, metas@[i].1 as int),
                ),
        ensures
            pages_end(r, final(self).pos()) == pages_read(
                old(self).log(),
                old(self).pos(),
                signature@,
                models(pages@),
            ),
            match r {
                Ok(data) => data@.len() == pages@.len(),
                Err(_) => true,
            },
            final(self).log() == old(self).log(),
            final(self).port() == old(self).port(),
    {
        let ghost log = self.log();
        let ghost pos = self.pos();
        let ghost all = models(pages@);
        let mut out: Vec<Vec<u8>> = Vec::new();
        let mut i: usize = 0;
        proof {
            assert(all.take(0) =~= Seq::empty());
            assert(byte_lists(out@) =~= Seq::empty());
        }
        while i < metas.len()
            invariant
                i <= metas@.len() == pages@.len() <= 32,
                all == models(pages@),
                log == old(self).log(),
                pos == old(self).pos(),
                self.log() == log,
                self.port() == old(self).port(),
                forall|i: int|
                    #![trigger metas@[i]]
                    0 <= i < metas@.len() ==> page_meta(pages@[i]@) == Some(
                        (metas@[i].0@, metas@[i].1 as int),
                    ),
                out@.len() == i,
                pages_read(log, pos, signature@, all.take(i as int)) == Turn::Done(
                    byte_lists(out@),
                    self.pos(),
                ),
            decreases metas@.len() - i,
        {
            let ghost step = all.take(i as int + 1);
            proof {
                assert(step.drop_last() =~= all.take(i as int));
                assert(step.last() == pages@[i as int]@);
                assert(step.len() == i + 1);
                assert(page_meta(pages@[i as int]@) == Some(
                    (metas@[i as int].0@, metas@[i as int].1 as int),
                ));
                lemma_pages_read_stops(log, pos, signature@, all, i as int + 1);
            }
            let number: u64 = i as u64 + 1;
            let ask = command("calendar_read").with("signature", Json::text(signature)).with(
                "page",
                Json::Uint(number),
            );
            let crc = metas[i].0.as_str();
            let raw = self.read_back(&ask, crc, Some(number), "日历回读分块不匹配", metas[i].1)?;
            if !same_text(crc32_hex(raw.as_slice()).as_str(), crc) {
                return Err(failed("日历回读 CRC 不匹配"));
            }
            let ghost before = out@;
            out.push(raw);
            i += 1;
            assert(byte_lists(out@) =~= byte_lists(before).push(raw@));
        }
        assert(all.take(all.len() as int) =~= all);
        Ok(out)
    }
}

/// The pages with their pictures put in, if they are still the ones that were read.
fn fill_pages(latest: &Vec<Json>, pages: &Vec<Json>, data: &Vec<Vec<u8>>) -> (r: Option<Vec<Json>>)
    requires
        data@.len() == pages@.len(),
        pages_described(models(pages@)),
    ensures
        match r {
            Some(v) => pages_unchanged(models(latest@), models(pages@)) && models(v@)
                == pages_filled(models(latest@), byte_lists(data@)),
            None => !pages_unchanged(models(latest@), models(pages@)),
        },
{
    if latest.len() != pages.len() {
        return None;
    }
    let mut out: Vec<Json> = Vec::new();
    let mut i: usize = 0;
    while i < latest.len()
        invariant
            i <= latest@.len() == pages@.len() == data@.len(),
            pages_described(models(pages@)),
            out@.len() == i,
            forall|k: int|
                0 <= k < i ==> text_of(at(#[trigger] models(latest@)[k], "crc32"@)) == text_of(
                    at(models(pages@)[k], "crc32"@),
                ),
            forall|k: int|
                #![trigger out@[k]]
                0 <= k < i ==> out@[k]@ == put(latest@[k]@, "data"@, bytes_view(data@[k]@)),
        decreases latest@.len() - i,
    {
        assert(models(latest@)[i as int] == latest@[i as int]@);
        assert(models(pages@)[i as int] == pages@[i as int]@);
        match pages[i].get_str("crc32") {
            Some(crc) => {
                if !latest[i].is_str("crc32", crc) {
                    return None;
                }
            },
            None => {
                return None;
            },
        }
        out.push(latest[i].clone().with("data", bytes_json(data[i].as_slice())));
        i += 1;
    }
    assert(models(out@) =~= pages_filled(models(latest@), byte_lists(data@)));
    Some(out)
}

/// The state of a calendar with its pages.
pub fn mirror_calendar_public(
    device: &mut HoloCubicUsb,
    state: Json,
    known_signature: Option<&str>,
) -> (r: Result<Json, Halt>)
    ensures
        value_end(r, final(device).pos()) == calendar_mirrored(
            old(device).log(),
            old(device).pos(),
            state@,
            opt_text(known_signature),
        ),
        final(device).log() == old(device).log(),
        final(device).port() == old(device).port(),
{
    let signature: String = match state.get_str("calendar_signature") {
        Some(s) => s.to_owned(),
        None => {
            return Err(failed("日历缺少签名"));
        },
    };
    let pages: Vec<Json> = match state.get_array("calendar_pages") {
        Some(p) => copy_values(p),
        None => {
            return Err(failed("设备日历页数无效"));
        },
    };
    if pages.len() < 1 || pages.len() > 32 {
        return Err(failed("设备日历页数无效"));
    }
    if is_text(known_signature, signature.as_str()) || pages_all_drawn(&pages) {
        return Ok(state);
    }
    let metas = match page_metas(&pages) {
        Some(m) => m,
        None => {
            return Err(failed("设备日历页面大小无效"));
        },
    };
    let data = device.read_pages(signature.as_str(), &pages, &metas)?;
    let now = device.status()?;
    match scene(&now, "calendar") {
        Some(fresh) => {
            if !fresh.is_str("mode", "calendar") || !fresh.is_str(
                "calendar_signature",
                signature.as_str(),
            ) {
                return Err(failed("回读期间日历已变化，请重新检测连接"));
            }
            let filled = match fresh.get_array("calendar_pages") {
                Some(latest) => fill_pages(latest, &pages, &data),
                None => {
                    return Err(failed("回读期间日历已变化，请重新检测连接"));
                },
            };
            match filled {
                Some(list) => {
                    let mut out = fresh;
                    out.insert("calendar_pages", Json::list(list));
                    Ok(out)
                },
                None => Err(failed("回读期间日历页已变化")),
            }
        },
        None => Err(failed("回读期间日历已变化，请重新检测连接")),
    }
}

/// Bytes that were written as numbers are read as the same bytes.
pub proof fn law_bytes_read_back(data: Seq<u8>)
    ensures
        bytes_of(bytes_view(data)->Array_0) == data,
    decreases data.len(),
{
    let items = bytes_view(data)->Array_0;
    if data.len() > 0 {
        law_bytes_read_back(data.drop_last());
        assert(items.drop_last() =~= bytes_view(data.drop_last())->Array_0);
        assert(bytes_of(items) =~= data);
    } else {
        assert(bytes_of(items) =~= data);
    }
}

/// A label picture that was read back is the one that the device announced: as
/// long, and with the same sum.
pub proof fn law_labels_are_those_announced(
    log: Seq<AnswerView>,
    pos: int,
    state: JsonView,
    known: Option<Seq<char>>,
)
    requires
        text_of(at(state, "mode"@)) == Some("task"@),
        known != text_of(at(state, "labels_crc"@)),
    ensures
        match labels_mirrored(log, pos, state, known, None) {
            Turn::Done(v, _) => exists|data: Seq<u8>|
                {
                    &&& #[trigger] at(put(v, "labels"@, bytes_view(data)), "labels"@) == at(
                        v,
                        "labels"@,
                    )
                    &&& Some(crc_hex(data)) == text_of(at(state, "labels_crc"@))
                    &&& Some(data.len() as u64) == u64_of(at(state, "labels_size"@))
                },
            _ => true,
        },
{
    match labels_mirrored(log, pos, state, known, None) {
        Turn::Done(v, n) => {
            let (crc, size) = labels_meta(state)->0;
            let command = put(
                plain_command("task_labels_read"@),
                "crc32"@,
                JsonView::Str(crc),
            );
            let back = read_back(
                log,
                pos,
                command,
                crc,
                None,
                "设备标签分块不匹配"@,
                size,
                Seq::empty(),
            );
            match back {
                Turn::Done(data, k) => {
                    let now = value_turn(log, k, status_ask())->Done_0;
                    let fresh = scene_of(now, "task"@)->0;
                    assert(v == put(fresh, "labels"@, bytes_view(data)));
                    assert(fresh is Object);
                    assert(at(put(v, "labels"@, bytes_view(data)), "labels"@) == at(v, "labels"@));
                },
                _ => {},
            }
        },
        _ => {},
    }
}

/// Radar data that were read back are what the bytes with the announced sum say.
pub proof fn law_radar_data_are_those_announced(
    log: Seq<AnswerView>,
    pos: int,
    state: JsonView,
    known: Option<Seq<char>>,
)
    requires
        at(state, "radar_data"@) is None,
        known != text_of(at(state, "crc32"@)),
    ensures
        match radar_mirrored(log, pos, state, known) {
            Turn::Done(v, _) => exists|data: Seq<u8>|
                {
                    &&& #[trigger] json_of_bytes(data) == at(v, "radar_data"@)
                    &&& at(v, "radar_data"@) is Some
                    &&& Some(crc_hex(data)) == text_of(at(state, "crc32"@))
                },
            _ => true,
        },
{
    match radar_mirrored(log, pos, state, known) {
        Turn::Done(v, n) => {
            let (crc, size) = radar_meta(state)->0;
            let command = put(plain_command("radar_read"@), "crc32"@, JsonView::Str(crc));
            let back = read_back(
                log,
                pos,
                command,
                crc,
                None,
                "设备雷达分块不匹配"@,
                size,
                Seq::empty(),
            );
            match back {
                Turn::Done(data, k) => {
                    let now = value_turn(log, k, status_ask())->Done_0;
                    let fresh = scene_of(now, "radar"@)->0;
                    assert(fresh is Object);
                    assert(json_of_bytes(data) == at(v, "radar_data"@));
                },
                _ => {},
            }
        },
        _ => {},
    }
}

/// Every page that was read back has the sum that the device announced.
pub proof fn law_pages_are_those_announced(
    log: Seq<AnswerView>,
    pos: int,
    signature: Seq<char>,
    pages: Seq<JsonView>,
)
    requires
        pages_described(pages),
    ensures
        match pages_read(log, pos, signature, pages) {
            Turn::Done(data, _) => {
                &&& data.len() == pages.len()
                &&& forall|i: int|
                    #![trigger data[i]]
                    0 <= i < pages.len() ==> Some(crc_hex(data[i])) == text_of(
                        at(pages[i], "crc32"@),
                    ) && Some(data[i].len() as u64) == u64_of(at(pages[i], "size"@))
            },
            _ => true,
        },
    decreases pages.len(),
{
    if pages.len() > 0 {
        let front = pages.drop_last();
        assert forall|i: int| 0 <= i < front.len() implies page_meta(#[trigger] front[i]) is Some by {
            assert(front[i] == pages[i]);
        }
        law_pages_are_those_announced(log, pos, signature, front);
        match pages_read(log, pos, signature, front) {
            Turn::Done(done, k) => {
                assert(page_meta(pages[pages.len() - 1]) is Some);
                let (crc, size) = page_meta(pages.last())->0;
                law_read_back_length(
                    log,
                    k,
                    calendar_read(signature, pages.len() as int),
                    crc,
                    Some(pages.len() as u64),
                    "日历回读分块不匹配"@,
                    size,
                    Seq::empty(),
                );
                match pages_read(log, pos, signature, pages) {
                    Turn::Done(data, _) => {
                        assert forall|i: int|
                            #![trigger data[i]]
                            0 <= i < pages.len() implies Some(crc_hex(data[i])) == text_of(
                            at(pages[i], "crc32"@),
                        ) && Some(data[i].len() as u64) == u64_of(at(pages[i], "size"@)) by {
                            if i < done.len() {
                                assert(data[i] == done[i]);
                                assert(front[i] == pages[i]);
                            }
                        }
                    },
                    _ => {},
                }
            },
            _ => {},
        }
    }
}

proof fn lemma_read_members()
    ensures
        "cmd"@.len() == 3,
        "crc32"@.len() == 5,
        "offset"@.len() == 6,
        "page"@.len() == 4,
        "signature"@.len() == 9,
        "data"@.len() == 4,
        "labels"@.len() == 6,
        "labels_crc"@.len() == 10,
        "radar_data"@.len() == 10,
        "calendar_pages"@.len() == 14,
        "calendar_signature"@.len() == 18,
        "mode"@.len() == 4,
        "status"@.len() == 6,
        "offset"@[0] == 'o',
        "labels"@[0] == 'l',
        "status"@[0] == 's',
        "page"@[0] == 'p',
        "data"@[0] == 'd',
        "mode"@[0] == 'm',
        "labels_crc"@[0] == 'l',
        "radar_data"@[0] == 'r',
{
    reveal_strlit("cmd");
    reveal_strlit("crc32");
    reveal_strlit("offset");
    reveal_strlit("page");
    reveal_strlit("signature");
    reveal_strlit("data");
    reveal_strlit("labels");
    reveal_strlit("labels_crc");
    reveal_strlit("radar_data");
    reveal_strlit("calendar_pages");
    reveal_strlit("calendar_signature");
    reveal_strlit("mode");
    reveal_strlit("status");
}

/// Bytes come part by part. What is there already is not asked for again: the next
/// part is asked for by how much is there, a part that fits is added at the end, and
/// one that does not ends the reading.
pub proof fn law_bytes_come_part_by_part(
    log: Seq<AnswerView>,
    pos: int,
    command: JsonView,
    crc: Seq<char>,
    page: Option<u64>,
    message: Seq<char>,
    size: int,
    got: Seq<u8>,
)
    requires
        command is Object,
        0 <= pos <= log.len(),
        size <= u64::MAX,
    ensures
        ({
            let run = read_back(log, pos, command, crc, page, message, size, got);
            &&& got.len() >= size ==> run == Turn::Done(got, pos)
            &&& got.len() < size && pos == log.len() ==> {
                &&& run matches Turn::Ask(AskView::Request { command: c, timeout_ms })
                &&& timeout_ms == 3000
                &&& at(c, "offset"@) == Some(JsonView::Int(got.len() as int))
                &&& forall|k: Seq<char>| k != "offset"@ ==> #[trigger] at(c, k) == at(command, k)
            }
            &&& got.len() < size && pos < log.len() && log[pos] is Value ==> {
                let part = log[pos]->Value_0;
                let text = text_of(at(part, "data"@));
                let fits = text is Some && b64_decoded(text->0) is Some && text_of(
                    at(part, "crc32"@),
                ) == Some(crc) && u64_of(at(part, "offset"@)) == Some(got.len() as u64) && (page
                    is None || u64_of(at(part, "page"@)) == page) && 1 <= b64_decoded(
                    text->0,
                )->0.len() <= 192 && got.len() + b64_decoded(text->0)->0.len() <= size;
                if fits {
                    run == read_back(
                        log,
                        pos + 1,
                        command,
                        crc,
                        page,
                        message,
                        size,
                        got + b64_decoded(text->0)->0,
                    )
                } else {
                    run == Turn::<Seq<u8>>::Failed(message, pos + 1)
                }
            }
        }),
{
    lemma_read_members();
}

/// The scene of one kind in a state: the part under its name in a playlist, else the
/// state itself.
pub open spec fn part_shown(state: JsonView, name: Seq<char>) -> Option<JsonView> {
    if at(state, "mode"@) == Some(JsonView::Str("home"@)) {
        at(state, name)
    } else {
        Some(state)
    }
}

/// The label picture of a task that is not known is read by its sum, and put into
/// what the device then says of the same task.
pub proof fn law_labels_are_read_back(
    log: Seq<AnswerView>,
    pos: int,
    state: JsonView,
    known: Option<Seq<char>>,
    crc: Seq<char>,
    size: int,
)
    requires
        0 <= pos <= log.len(),
        text_of(at(state, "mode"@)) == Some("task"@),
        u64_of(at(state, "mirror_protocol"@)) == Some(1u64),
        text_of(at(state, "labels_crc"@)) == Some(crc),
        encode_utf8(crc).len() == 8,
        u64_of(at(state, "labels_size"@)) == Some(size as u64),
        1 <= size <= 524288,
        known != Some(crc),
    ensures
        ({
            let run = labels_mirrored(log, pos, state, known, None);
            &&& pos == log.len() ==> {
                &&& run matches Turn::Ask(AskView::Request { command: c, timeout_ms })
                &&& timeout_ms == 3000
                &&& at(c, "cmd"@) == Some(JsonView::Str("task_labels_read"@))
                &&& at(c, "crc32"@) == Some(JsonView::Str(crc))
                &&& at(c, "offset"@) == Some(JsonView::Int(0))
            }
            &&& run matches Turn::Done(v, n) ==> {
                &&& 0 < n <= log.len()
                &&& log[n - 1] is Value
                &&& part_shown(log[n - 1]->Value_0, "task"@) matches Some(fresh)
                &&& text_of(at(fresh, "mode"@)) == Some("task"@)
                &&& text_of(at(fresh, "labels_crc"@)) == Some(crc)
                &&& forall|k: Seq<char>| k != "labels"@ ==> #[trigger] at(v, k) == at(fresh, k)
                &&& exists|data: Seq<u8>| #[trigger]
                    crc_hex(data) == crc && data.len() == size && at(v, "labels"@) == Some(
                        bytes_view(data),
                    )
            }
        }),
{
    lemma_read_members();
    let command = put(plain_command("task_labels_read"@), "crc32"@, JsonView::Str(crc));
    law_bytes_come_part_by_part(
        log,
        pos,
        command,
        crc,
        None,
        "设备标签分块不匹配"@,
        size,
        Seq::empty(),
    );
    match read_back(log, pos, command, crc, None, "设备标签分块不匹配"@, size, Seq::empty()) {
        Turn::Done(data, k) => match value_turn(log, k, status_ask()) {
            Turn::Done(now, n) => match scene_of(now, "task"@) {
                Some(fresh) => {
                    assert(at(fresh, "mode"@) is Some ==> fresh is Object);
                    assert(crc_hex(data) == crc_hex(data));
                },
                None => {},
            },
            _ => {},
        },
        _ => {},
    }
}

/// A label picture that was just sent is put in as it is, where it is the one that
/// the device announces, and nothing is asked for; a state without a task is left as
/// it is, and a device that cannot be read back is refused.
pub proof fn law_sent_labels_are_taken(
    log: Seq<AnswerView>,
    pos: int,
    state: JsonView,
    known: Option<Seq<char>>,
    data: Seq<u8>,
)
    ensures
        ({
            let run = labels_mirrored(log, pos, state, known, Some(data));
            let task = text_of(at(state, "mode"@)) == Some("task"@);
            let right = u64_of(at(state, "mirror_protocol"@)) == Some(1u64) && text_of(
                at(state, "labels_crc"@),
            ) == Some(crc_hex(data)) && encode_utf8(crc_hex(data)).len() == 8 && u64_of(
                at(state, "labels_size"@),
            ) == Some(data.len() as u64) && 1 <= data.len() <= 524288;
            &&& !task ==> run == Turn::Done(state, pos)
            &&& task && !right && data.len() <= u64::MAX ==> run is Failed
            &&& task && right ==> {
                &&& run matches Turn::Done(v, n)
                &&& n == pos
                &&& at(v, "labels"@) == Some(bytes_view(data))
                &&& forall|k: Seq<char>| k != "labels"@ ==> #[trigger] at(v, k) == at(state, k)
            }
        }),
{
    lemma_read_members();
}

/// Radar data that are not known are read by their sum, and put into what the device
/// then says of the same data.
pub proof fn law_radar_data_are_read_back(
    log: Seq<AnswerView>,
    pos: int,
    state: JsonView,
    known: Option<Seq<char>>,
    crc: Seq<char>,
    size: int,
)
    requires
        0 <= pos <= log.len(),
        u64_of(at(state, "radar_mirror_protocol"@)) == Some(1u64),
        text_of(at(state, "crc32"@)) == Some(crc),
        encode_utf8(crc).len() == 8,
        u64_of(at(state, "radar_size"@)) == Some(size as u64),
        1 <= size <= 8192,
        at(state, "radar_data"@) is None,
        known != Some(crc),
    ensures
        ({
            let run = radar_mirrored(log, pos, state, known);
            &&& pos == log.len() ==> {
                &&& run matches Turn::Ask(AskView::Request { command: c, timeout_ms })
                &&& timeout_ms == 3000
                &&& at(c, "cmd"@) == Some(JsonView::Str("radar_read"@))
                &&& at(c, "crc32"@) == Some(JsonView::Str(crc))
                &&& at(c, "offset"@) == Some(JsonView::Int(0))
            }
            &&& run matches Turn::Done(v, n) ==> {
                &&& 0 < n <= log.len()
                &&& log[n - 1] is Value
                &&& part_shown(log[n - 1]->Value_0, "radar"@) matches Some(fresh)
                &&& text_of(at(fresh, "mode"@)) == Some("radar"@)
                &&& text_of(at(fresh, "crc32"@)) == Some(crc)
                &&& forall|k: Seq<char>|
                    k != "radar_data"@ ==> #[trigger] at(v, k) == at(fresh, k)
                &&& exists|data: Seq<u8>| #[trigger]
                    crc_hex(data) == crc && data.len() == size && json_of_bytes(data) is Some && at(
                        v,
                        "radar_data"@,
                    ) == json_of_bytes(data)
            }
        }),
{
    lemma_read_members();
    let command = put(plain_command("radar_read"@), "crc32"@, JsonView::Str(crc));
    law_bytes_come_part_by_part(
        log,
        pos,
        command,
        crc,
        None,
        "设备雷达分块不匹配"@,
        size,
        Seq::empty(),
    );
    law_read_back_length(
        log,
        pos,
        command,
        crc,
        None,
        "设备雷达分块不匹配"@,
        size,
        Seq::empty(),
    );
    match read_back(log, pos, command, crc, None, "设备雷达分块不匹配"@, size, Seq::empty()) {
        Turn::Done(data, k) => match value_turn(log, k, status_ask()) {
            Turn::Done(now, n) => match scene_of(now, "radar"@) {
                Some(fresh) => {
                    assert(at(fresh, "mode"@) is Some ==> fresh is Object);
                    assert(crc_hex(data) == crc_hex(data));
                },
                None => {},
            },
            _ => {},
        },
        _ => {},
    }
}

/// Pages are read in order, from the first, each by its number and under the
/// signature of the day.
pub proof fn law_pages_are_asked_for_by_number(
    log: Seq<AnswerView>,
    pos: int,
    signature: Seq<char>,
    pages: Seq<JsonView>,
    done: Seq<Seq<u8>>,
)
    requires
        0 <= pos,
        0 < pages.len() <= 32,
        pages_described(pages),
        pages_read(log, pos, signature, pages.drop_last()) == Turn::Done(done, log.len() as int),
    ensures
        done.len() == pages.len() - 1,
        pages_read(log, pos, signature, pages) matches Turn::Ask(
            AskView::Request { command: c, timeout_ms },
        ) && timeout_ms == 3000 && at(c, "cmd"@) == Some(JsonView::Str("calendar_read"@)) && at(
            c,
            "signature"@,
        ) == Some(JsonView::Str(signature)) && at(c, "page"@) == Some(
            JsonView::Int(pages.len() as int),
        ) && at(c, "offset"@) == Some(JsonView::Int(0)),
{
    lemma_read_members();
    let front = pages.drop_last();
    assert forall|i: int| 0 <= i < front.len() implies page_meta(#[trigger] front[i]) is Some by {
        assert(front[i] == pages[i]);
    }
    law_pages_are_those_announced(log, pos, signature, front);
    assert(page_meta(pages[pages.len() - 1]) is Some);
    let (crc, size) = page_meta(pages.last())->0;
    law_bytes_come_part_by_part(
        log,
        log.len() as int,
        calendar_read(signature, pages.len() as int),
        crc,
        Some(pages.len() as u64),
        "日历回读分块不匹配"@,
        size,
        Seq::empty(),
    );
}

/// A calendar that is not known is read page by page; every page of what the device
/// then says of the same calendar gets the picture with its own sum.
pub proof fn law_pages_get_their_pictures(
    log: Seq<AnswerView>,
    pos: int,
    state: JsonView,
    known: Option<Seq<char>>,
    signature: Seq<char>,
    pages: Seq<JsonView>,
)
    requires
        0 <= pos <= log.len(),
        text_of(at(state, "calendar_signature"@)) == Some(signature),
        at(state, "calendar_pages"@) == Some(JsonView::Array(pages)),
        1 <= pages.len() <= 32,
        pages_described(pages),
        known != Some(signature),
        exists|i: int| 0 <= i < pages.len() && at(#[trigger] pages[i], "data"@) is None,
    ensures
        match calendar_mirrored(log, pos, state, known) {
            Turn::Done(v, n) => {
                &&& 0 < n <= log.len()
                &&& log[n - 1] is Value
                &&& part_shown(log[n - 1]->Value_0, "calendar"@) matches Some(fresh)
                &&& text_of(at(fresh, "mode"@)) == Some("calendar"@)
                &&& text_of(at(fresh, "calendar_signature"@)) == Some(signature)
                &&& forall|k: Seq<char>|
                    k != "calendar_pages"@ ==> #[trigger] at(v, k) == at(fresh, k)
                &&& items_of(at(fresh, "calendar_pages"@)) matches Some(latest)
                &&& items_of(at(v, "calendar_pages"@)) matches Some(shown)
                &&& shown.len() == pages.len() && latest.len() == pages.len()
                &&& forall|i: int|
                    #![trigger shown[i]]
                    0 <= i < pages.len() ==> page_has_picture(shown[i], latest[i], pages[i])
            },
            _ => true,
        },
{
    lemma_read_members();
    law_pages_are_those_announced(log, pos, signature, pages);
    match calendar_mirrored(log, pos, state, known) {
        Turn::Done(v, n) => {
            let data = pages_read(log, pos, signature, pages)->Done_0;
            let fresh = part_shown(log[n - 1]->Value_0, "calendar"@)->0;
            let latest = items_of(at(fresh, "calendar_pages"@))->0;
            let shown = items_of(at(v, "calendar_pages"@))->0;
            assert(shown == pages_filled(latest, data));
            assert forall|i: int| #![trigger shown[i]] 0 <= i < pages.len() implies page_has_picture(
                shown[i],
                latest[i],
                pages[i],
            ) by {
                assert(shown[i] == put(latest[i], "data"@, bytes_view(data[i])));
                assert(text_of(at(latest[i], "crc32"@)) == text_of(at(pages[i], "crc32"@)));
                assert(page_meta(pages[i]) is Some);
                assert(latest[i] is Object);
                assert(Some(crc_hex(data[i])) == text_of(at(pages[i], "crc32"@)));
            }
        },
        _ => {},
    }
}

/// Whether a page is the latest of its place with a picture put in that has the sum
/// and the size that were announced for it.
pub open spec fn page_has_picture(
    shown: JsonView,
    latest: JsonView,
    announced: JsonView,
) -> bool {
    &&& forall|k: Seq<char>| k != "data"@ ==> #[trigger] at(shown, k) == at(latest, k)
    &&& exists|data: Seq<u8>|
        Some(#[trigger] crc_hex(data)) == text_of(at(announced, "crc32"@)) && Some(data.len() as u64)
            == u64_of(at(announced, "size"@)) && at(shown, "data"@) == Some(bytes_view(data))
}

} // verus!
