//! What the controls do with the device: sending radar data and calendar
//! pages, starting a playlist, and every other action.

use vstd::prelude::*;
use vstd::utf8::encode_utf8;

use crate::codes::b64_encoded;
use crate::json::{
    at, at_in, copy_member, dump, items_of, member, models, options_same, put, put_in, same_option,
    same_text, text_of, u64_of, Json, JsonView,
};
use crate::outside::json_text;
use crate::playlist::{carry_pages, insert_picture, pages_carried_into, put_picture};
use crate::protocol::{
    calendar_target, chunk, chunk_count, crc32_hex, crc_hex, image_target, jpeg_chunks,
};
use crate::preload::{
    opt_bytes, opt_task, opt_value, pack_radar, packed, PreparedHome, PreparedView,
};
use crate::radar_data::{compacted_json, Scaled};
use crate::readback::{bytes_json, bytes_view, pages_filled, scene, scene_of};
use crate::script::{
    byte_lists, failed, halted, stopped, text_turn, value_end, value_turn, AnswerView, Ask, AskView,
    Halt, Turn,
};
use crate::text::{decimal, digit, glue, padded, write_two};
use crate::usb::{command, plain_command, upload, HoloCubicUsb};

verus! {

/// Announces radar data.
pub open spec fn radar_begin(data: Seq<u8>) -> AskView {
    AskView::Request {
        command: put(
            put(plain_command("radar_begin"@), "size"@, JsonView::Int(data.len() as int)),
            "crc32"@,
            JsonView::Str(crc_hex(data)),
        ),
        timeout_ms: 4000,
    }
}

/// Carries one part of radar data.
pub open spec fn radar_chunk(data: Seq<u8>, i: int) -> AskView {
    AskView::Request {
        command: put(
            put(plain_command("radar_chunk"@), "seq"@, JsonView::Int(i)),
            "data"@,
            JsonView::Str(b64_encoded(chunk(data, i))),
        ),
        timeout_ms: 3000,
    }
}

/// Completes radar data.
pub open spec fn radar_end(standalone: bool) -> AskView {
    AskView::Request {
        command: put(plain_command("radar_end"@), "standalone"@, JsonView::Bool(standalone)),
        timeout_ms: 8000,
    }
}

/// Sending the first parts of radar data: every response names the next part.
pub open spec fn radar_parts(log: Seq<AnswerView>, pos: int, data: Seq<u8>, n: nat) -> Turn<()>
    decreases n,
{
    if n == 0 {
        Turn::Done((), pos)
    } else {
        match radar_parts(log, pos, data, (n - 1) as nat) {
            Turn::Done(_, k) => match value_turn(log, k, radar_chunk(data, n - 1)) {
                Turn::Done(reply, m) => if u64_of(at(reply, "next_seq"@)) == Some(n as u64) {
                    Turn::Done((), m)
                } else {
                    Turn::Failed("雷达数据分块回执不匹配"@, m)
                },
                other => stopped(other),
            },
            other => stopped(other),
        }
    }
}

/// The state that confirms radar data, with the data put in.
pub open spec fn radar_confirmed(
    pos: int,
    result: JsonView,
    crc: Seq<char>,
    payload: JsonView,
) -> Turn<JsonView> {
    match scene_of(result, "radar"@) {
        None => Turn::Failed("设备未确认雷达画面"@, pos),
        Some(shown) => if text_of(at(shown, "mode"@)) != Some("radar"@) || text_of(
            at(shown, "crc32"@),
        ) != Some(crc) {
            Turn::Failed("设备未确认雷达画面"@, pos)
        } else if text_of(at(result, "mode"@)) == Some("home"@) {
            Turn::Done(put_in(result, "radar"@, "radar_data"@, payload), pos)
        } else {
            Turn::Done(put(result, "radar_data"@, payload), pos)
        },
    }
}

/// Sending a radar snapshot: packed, in numbered parts, and confirmed by its sum.
pub open spec fn radar_sent(
    log: Seq<AnswerView>,
    pos: int,
    snapshot: JsonView,
    standalone: bool,
    scaled: Seq<Scaled>,
) -> Turn<JsonView> {
    match packed(log, pos, snapshot, scaled) {
        Turn::Done(payload, p) => {
            let data = encode_utf8(json_text(payload));
            if data.len() > 8192 {
                Turn::Failed("雷达数据超过设备 8KB 上限"@, p)
            } else {
                match value_turn(log, p, radar_begin(data)) {
                    Turn::Done(_, k) => match radar_parts(log, k, data, chunk_count(data.len())) {
                        Turn::Done(_, m) => match value_turn(log, m, radar_end(standalone)) {
                            Turn::Done(result, n) => radar_confirmed(
                                n,
                                result,
                                crc_hex(data),
                                payload,
                            ),
                            other => stopped(other),
                        },
                        other => stopped(other),
                    },
                    other => stopped(other),
                }
            }
        },
        other => stopped(other),
    }
}

proof fn lemma_radar_parts_stop(log: Seq<AnswerView>, pos: int, data: Seq<u8>, n: nat, all: nat)
    requires
        n <= all,
    ensures
        !(radar_parts(log, pos, data, n) is Done) ==> radar_parts(log, pos, data, all)
            == radar_parts(log, pos, data, n),
    decreases all - n,
{
    if n < all {
        lemma_radar_parts_stop(log, pos, data, n + 1, all);
    }
}

/// What a script without a result ended with.
pub open spec fn unit_end(r: Result<(), Halt>, pos: int) -> Turn<()> {
    match r {
        Ok(_) => Turn::Done((), pos),
        Err(h) => halted(h, pos),
    }
}

fn send_parts(device: &mut HoloCubicUsb, data: &[u8]) -> (r: Result<(), Halt>)
    ensures
        unit_end(r, final(device).pos()) == radar_parts(
            old(device).log(),
            old(device).pos(),
            data@,
            chunk_count(data@.len()),
        ),
        final(device).log() == old(device).log(),
        final(device).port() == old(device).port(),
{
    let ghost log = device.log();
    let ghost pos = device.pos();
    let parts = jpeg_chunks(data);
    let mut i: usize = 0;
    while i < parts.len()
        invariant
            i <= parts@.len(),
            parts@.len() == chunk_count(data@.len()),
            forall|k: int|
                #![trigger parts@[k]]
                0 <= k < parts@.len() ==> parts@[k].0 == k && parts@[k].1@ == b64_encoded(
                    chunk(data@, k),
                ),
            log == old(device).log(),
            pos == old(device).pos(),
            device.log() == log,
            device.port() == old(device).port(),
            radar_parts(log, pos, data@, i as nat) == Turn::Done((), device.pos()),
        decreases parts@.len() - i,
    {
        let part = command("radar_chunk").with("seq", Json::Uint(parts[i].0 as u64)).with(
            "data",
            Json::text(parts[i].1.as_str()),
        );
        proof {
            lemma_radar_parts_stop(log, pos, data@, (i + 1) as nat, parts@.len());
        }
        let reply = device.request(part, 3000)?;
        i += 1;
        if reply.get_u64("next_seq") != Some(i as u64) {
            return Err(failed("雷达数据分块回执不匹配"));
        }
    }
    Ok(())
}

/// Sends a radar snapshot, packed at the time that it is now.
pub fn send_radar(
    device: &mut HoloCubicUsb,
    snapshot: &Json,
    standalone: bool,
    scaled: &Vec<Scaled>,
) -> (r: Result<Json, Halt>)
    ensures
        value_end(r, final(device).pos()) == radar_sent(
            old(device).log(),
            old(device).pos(),
            snapshot@,
            standalone,
            scaled@,
        ),
        final(device).log() == old(device).log(),
        final(device).port() == old(device).port(),
{
    let payload = pack_radar(device, snapshot, scaled)?;
    let text = dump(&payload);
    let data = text.as_str().as_bytes();
    if data.len() > 8192 {
        return Err(failed("雷达数据超过设备 8KB 上限"));
    }
    let crc = crc32_hex(data);
    let begin = command("radar_begin").with("size", Json::Uint(data.len() as u64)).with(
        "crc32",
        Json::text(crc.as_str()),
    );
    device.request(begin, 4000)?;
    send_parts(device, data)?;
    let mut result = device.request(
        command("radar_end").with("standalone", Json::Bool(standalone)),
        8000,
    )?;
    let confirmed = match scene(&result, "radar") {
        Some(shown) => shown.is_str("mode", "radar") && shown.is_str("crc32", crc.as_str()),
        None => false,
    };
    if !confirmed {
        return Err(failed("设备未确认雷达画面"));
    }
    if result.is_str("mode", "home") {
        result.insert_in("radar", "radar_data", payload);
    } else {
        result.insert("radar_data", payload);
    }
    Ok(result)
}

/// Announces calendar pages.
pub open spec fn calendar_begin(snapshot: JsonView, signature: Seq<char>, pages: int) -> AskView {
    AskView::Request {
        command: put(
            put(
                put(
                    put(
                        put(plain_command("calendar_begin"@), "pages"@, JsonView::Int(pages)),
                        "signature"@,
                        JsonView::Str(signature),
                    ),
                    "date"@,
                    member(snapshot, "date"@),
                ),
                "total"@,
                member(snapshot, "total"@),
            ),
            "done"@,
            member(snapshot, "done"@),
        ),
        timeout_ms: 4000,
    }
}

/// Switches over to the new calendar pages.
pub open spec fn calendar_commit(signature: Seq<char>, standalone: bool) -> AskView {
    AskView::Request {
        command: put(
            put(plain_command("calendar_commit"@), "signature"@, JsonView::Str(signature)),
            "standalone"@,
            JsonView::Bool(standalone),
        ),
        timeout_ms: 8000,
    }
}

/// The name of the slot of a calendar page.
pub open spec fn slot_name(bank: Seq<char>, page: nat) -> Seq<char> {
    "calendar_"@ + bank + "_"@ + padded(decimal(page), 2)
}

fn slot(bank: &str, page: u64) -> (r: String)
    ensures
        r@ == slot_name(bank@, page as nat),
{
    let mut out = glue("calendar_", bank);
    out.append("_");
    out.append(write_two(page).as_str());
    out
}

/// Uploading the first pages of a calendar, one after another.
pub open spec fn pages_uploaded(
    log: Seq<AnswerView>,
    pos: int,
    bank: Seq<char>,
    pages: Seq<Seq<u8>>,
    n: nat,
) -> Turn<()>
    decreases n,
{
    if n == 0 {
        Turn::Done((), pos)
    } else {
        match pages_uploaded(log, pos, bank, pages, (n - 1) as nat) {
            Turn::Done(_, k) => match upload(log, k, pages[n - 1], slot_name(bank, n)) {
                Turn::Done(_, m) => Turn::Done((), m),
                other => stopped(other),
            },
            other => stopped(other),
        }
    }
}

/// Whether the device confirms size and sum of every page.
pub open spec fn pages_confirmed(metas: Seq<JsonView>, pages: Seq<Seq<u8>>) -> bool {
    forall|i: int|
        0 <= i < pages.len() ==> u64_of(at(#[trigger] metas[i], "size"@)) == Some(
            pages[i].len() as u64,
        ) && text_of(at(metas[i], "crc32"@)) == Some(crc_hex(pages[i]))
}

/// The state that confirms a calendar, with the pages put in.
pub open spec fn calendar_confirmed(
    pos: int,
    result: JsonView,
    signature: Seq<char>,
    pages: Seq<Seq<u8>>,
) -> Turn<JsonView> {
    match scene_of(result, "calendar"@) {
        None => Turn::Failed("设备未确认日历内容"@, pos),
        Some(shown) => if text_of(at(shown, "mode"@)) != Some("calendar"@) || text_of(
            at(shown, "calendar_signature"@),
        ) != Some(signature) {
            Turn::Failed("设备未确认日历内容"@, pos)
        } else {
            match items_of(at(shown, "calendar_pages"@)) {
                None => Turn::Failed("设备未确认日历内容"@, pos),
                Some(metas) => if metas.len() != pages.len() {
                    Turn::Failed("设备未确认日历内容"@, pos)
                } else if !pages_confirmed(metas, pages) {
                    Turn::Failed("日历页面 CRC 回执不匹配"@, pos)
                } else {
                    let filled = JsonView::Array(pages_filled(metas, pages));
                    Turn::Done(
                        if text_of(at(result, "mode"@)) == Some("home"@) {
                            put_in(result, "calendar"@, "calendar_pages"@, filled)
                        } else {
                            put(result, "calendar_pages"@, filled)
                        },
                        pos,
                    )
                },
            }
        },
    }
}

/// Sending a calendar: pages into the free bank, then switching over to it.
pub open spec fn calendar_sent(
    log: Seq<AnswerView>,
    pos: int,
    snapshot: JsonView,
    pages: Seq<Seq<u8>>,
    standalone: bool,
) -> Turn<JsonView> {
    match text_of(at(snapshot, "signature"@)) {
        None => Turn::Failed("日历缺少签名"@, pos),
        Some(signature) => match value_turn(
            log,
            pos,
            calendar_begin(snapshot, signature, pages.len() as int),
        ) {
            Turn::Done(prepared, k) => match text_of(at(prepared, "bank"@)) {
                None => Turn::Failed("设备返回了无效日历槽"@, k),
                Some(bank) => if bank != "a"@ && bank != "b"@ {
                    Turn::Failed("设备返回了无效日历槽"@, k)
                } else {
                    match pages_uploaded(log, k, bank, pages, pages.len()) {
                        Turn::Done(_, m) => match value_turn(
                            log,
                            m,
                            calendar_commit(signature, standalone),
                        ) {
                            Turn::Done(result, n) => calendar_confirmed(
                                n,
                                result,
                                signature,
                                pages,
                            ),
                            other => stopped(other),
                        },
                        other => stopped(other),
                    }
                },
            },
            other => stopped(other),
        },
    }
}

proof fn lemma_pages_uploaded_stop(
    log: Seq<AnswerView>,
    pos: int,
    bank: Seq<char>,
    pages: Seq<Seq<u8>>,
    n: nat,
    all: nat,
)
    requires
        n <= all,
    ensures
        !(pages_uploaded(log, pos, bank, pages, n) is Done) ==> pages_uploaded(
            log,
            pos,
            bank,
            pages,
            all,
        ) == pages_uploaded(log, pos, bank, pages, n),
    decreases all - n,
{
    if n < all {
        lemma_pages_uploaded_stop(log, pos, bank, pages, n + 1, all);
    }
}

fn upload_pages(device: &mut HoloCubicUsb, bank: &str, pages: &Vec<Vec<u8>>) -> (r: Result<
    (),
    Halt,
>)
    ensures
        unit_end(r, final(device).pos()) == pages_uploaded(
            old(device).log(),
            old(device).pos(),
            bank@,
            byte_lists(pages@),
            pages@.len(),
        ),
        final(device).log() == old(device).log(),
        final(device).port() == old(device).port(),
{
    let ghost log = device.log();
    let ghost pos = device.pos();
    let ghost all = byte_lists(pages@);
    let mut i: usize = 0;
    while i < pages.len()
        invariant
            i <= pages@.len(),
            all == byte_lists(pages@),
            log == old(device).log(),
            pos == old(device).pos(),
            device.log() == log,
            device.port() == old(device).port(),
            pages_uploaded(log, pos, bank@, all, i as nat) == Turn::Done((), device.pos()),
        decreases pages@.len() - i,
    {
        proof {
            assert(all[i as int] == pages@[i as int]@);
            lemma_pages_uploaded_stop(log, pos, bank@, all, (i + 1) as nat, pages@.len());
        }
        let target = slot(bank, i as u64 + 1);
        device.upload_jpeg(pages[i].as_slice(), target.as_str())?;
        i += 1;
    }
    Ok(())
}

/// The pages with their pictures put in, if the device confirms every one.
fn confirm_pages(metas: &Vec<Json>, pages: &Vec<Vec<u8>>) -> (r: Option<Vec<Json>>)
    requires
        metas@.len() == pages@.len(),
    ensures
        match r {
            Some(v) => pages_confirmed(models(metas@), byte_lists(pages@)) && models(v@)
                == pages_filled(models(metas@), byte_lists(pages@)),
            None => !pages_confirmed(models(metas@), byte_lists(pages@)),
        },
{
    let ghost a = models(metas@);
    let ghost b = byte_lists(pages@);
    let mut out: Vec<Json> = Vec::new();
    let mut i: usize = 0;
    while i < metas.len()
        invariant
            i <= metas@.len() == pages@.len(),
            a == models(metas@),
            b == byte_lists(pages@),
            out@.len() == i,
            forall|k: int|
                0 <= k < i ==> u64_of(at(#[trigger] a[k], "size"@)) == Some(b[k].len() as u64)
                    && text_of(at(a[k], "crc32"@)) == Some(crc_hex(b[k])),
            forall|k: int|
                #![trigger out@[k]]
                0 <= k < i ==> out@[k]@ == put(a[k], "data"@, bytes_view(b[k])),
        decreases metas@.len() - i,
    {
        proof {
            assert(a[i as int] == metas@[i as int]@);
            assert(b[i as int] == pages@[i as int]@);
        }
        let data = pages[i].as_slice();
        if metas[i].get_u64("size") != Some(data.len() as u64) || !metas[i].is_str(
            "crc32",
            crc32_hex(data).as_str(),
        ) {
            return None;
        }
        out.push(metas[i].clone().with("data", bytes_json(data)));
        i += 1;
    }
    assert(models(out@) =~= pages_filled(a, b));
    Some(out)
}

fn confirm_calendar(result: Json, signature: &str, pages: &Vec<Vec<u8>>) -> (r: Result<Json, Halt>)
    ensures
        forall|pos: int| #[trigger]
            value_end(r, pos) == calendar_confirmed(
                pos,
                result@,
                signature@,
                byte_lists(pages@),
            ),
{
    let shown = match scene(&result, "calendar") {
        Some(v) => v,
        None => {
            return Err(failed("设备未确认日历内容"));
        },
    };
    if !shown.is_str("mode", "calendar") || !shown.is_str("calendar_signature", signature) {
        return Err(failed("设备未确认日历内容"));
    }
    let metas = match shown.get_array("calendar_pages") {
        Some(m) => m,
        None => {
            return Err(failed("设备未确认日历内容"));
        },
    };
    assert(models(metas@).len() == metas@.len());
    assert(byte_lists(pages@).len() == pages@.len());
    if metas.len() != pages.len() {
        return Err(failed("设备未确认日历内容"));
    }
    match confirm_pages(metas, pages) {
        None => Err(failed("日历页面 CRC 回执不匹配")),
        Some(filled) => {
            let home = result.is_str("mode", "home");
            let mut out = result;
            if home {
                out.insert_in("calendar", "calendar_pages", Json::list(filled));
            } else {
                out.insert("calendar_pages", Json::list(filled));
            }
            Ok(out)
        },
    }
}

/// Sends a calendar and its pages.
pub fn send_calendar(
    device: &mut HoloCubicUsb,
    snapshot: &Json,
    pages: &Vec<Vec<u8>>,
    standalone: bool,
) -> (r: Result<Json, Halt>)
    ensures
        value_end(r, final(device).pos()) == calendar_sent(
            old(device).log(),
            old(device).pos(),
            snapshot@,
            byte_lists(pages@),
            standalone,
        ),
        final(device).log() == old(device).log(),
        final(device).port() == old(device).port(),
{
    assert(byte_lists(pages@).len() == pages@.len());
    let signature = match snapshot.get_str("signature") {
        Some(s) => s,
        None => {
            return Err(failed("日历缺少签名"));
        },
    };
    let begin = command("calendar_begin").with("pages", Json::Uint(pages.len() as u64)).with(
        "signature",
        Json::text(signature),
    ).with("date", copy_member(snapshot, "date")).with(
        "total",
        copy_member(snapshot, "total"),
    ).with("done", copy_member(snapshot, "done"));
    let prepared = device.request(begin, 4000)?;
    let bank = match prepared.get_str("bank") {
        Some(b) => b,
        None => {
            return Err(failed("设备返回了无效日历槽"));
        },
    };
    if !same_text(bank, "a") && !same_text(bank, "b") {
        return Err(failed("设备返回了无效日历槽"));
    }
    upload_pages(device, bank, pages)?;
    let commit = command("calendar_commit").with("signature", Json::text(signature)).with(
        "standalone",
        Json::Bool(standalone),
    );
    let result = device.request(commit, 8000)?;
    confirm_calendar(result, signature, pages)
}

/// Uploading a picture where there is one.
pub open spec fn picture_uploaded(
    log: Seq<AnswerView>,
    pos: int,
    picture: Option<Seq<u8>>,
    target: Seq<char>,
) -> Turn<()> {
    match picture {
        None => Turn::Done((), pos),
        Some(data) => match upload(log, pos, data, target) {
            Turn::Done(_, k) => Turn::Done((), k),
            other => stopped(other),
        },
    }
}

fn upload_picture(device: &mut HoloCubicUsb, picture: &Option<Vec<u8>>, target: &str) -> (r: Result<
    (),
    Halt,
>)
    ensures
        unit_end(r, final(device).pos()) == picture_uploaded(
            old(device).log(),
            old(device).pos(),
            opt_bytes(*picture),
            target@,
        ),
        final(device).log() == old(device).log(),
        final(device).port() == old(device).port(),
{
    match picture {
        Some(data) => {
            device.upload_jpeg(data.as_slice(), target)?;
            Ok(())
        },
        None => Ok(()),
    }
}

/// Whether the device confirms a task: a new one by what remains of it, a
/// restored one by time, count and pause.
pub open spec fn task_confirmed(cmd: JsonView, reply: JsonView) -> Option<Seq<char>> {
    if text_of(at(reply, "mode"@)) != Some("task"@) {
        Some("沙漏预加载未确认"@)
    } else {
        match at(cmd, "restore"@) {
            None => if same_option(at(reply, "bp"@), at(cmd, "bp"@)) {
                None
            } else {
                Some("沙漏预加载未确认"@)
            },
            Some(restore) => if same_option(at(reply, "duration"@), at(cmd, "seconds"@))
                && same_option(at(reply, "counter"@), at(restore, "counter"@)) && same_option(
                at(reply, "paused"@),
                at(restore, "paused"@),
            ) {
                None
            } else {
                Some("沙漏恢复状态未确认"@)
            },
        }
    }
}

/// Loading the task of a playlist, where there is one.
pub open spec fn task_loaded(
    log: Seq<AnswerView>,
    pos: int,
    task: Option<(JsonView, Seq<u8>)>,
) -> Turn<()> {
    match task {
        None => Turn::Done((), pos),
        Some((cmd, labels)) => match upload(log, pos, labels, "task_labels"@) {
            Turn::Done(_, k) => match value_turn(
                log,
                k,
                AskView::Request { command: cmd, timeout_ms: 8000 },
            ) {
                Turn::Done(reply, n) => match task_confirmed(cmd, reply) {
                    None => Turn::Done((), n),
                    Some(m) => Turn::Failed(m, n),
                },
                other => stopped(other),
            },
            other => stopped(other),
        },
    }
}

fn load_task(device: &mut HoloCubicUsb, task: &Option<(Json, Vec<u8>)>) -> (r: Result<(), Halt>)
    ensures
        unit_end(r, final(device).pos()) == task_loaded(
            old(device).log(),
            old(device).pos(),
            opt_task(*task),
        ),
        final(device).log() == old(device).log(),
        final(device).port() == old(device).port(),
{
    match task {
        None => Ok(()),
        Some((cmd, labels)) => {
            device.upload_jpeg(labels.as_slice(), "task_labels")?;
            let reply = device.request(cmd.clone(), 8000)?;
            if !reply.is_str("mode", "task") {
                return Err(failed("沙漏预加载未确认"));
            }
            match cmd.get("restore") {
                None => {
                    if !options_same(reply.get("bp"), cmd.get("bp")) {
                        return Err(failed("沙漏预加载未确认"));
                    }
                },
                Some(restore) => {
                    if !options_same(reply.get("duration"), cmd.get("seconds")) || !options_same(
                        reply.get("counter"),
                        restore.get("counter"),
                    ) || !options_same(reply.get("paused"), restore.get("paused")) {
                        return Err(failed("沙漏恢复状态未确认"));
                    }
                },
            }
            Ok(())
        },
    }
}

/// Loading the calendar of a playlist, where there is one.
pub open spec fn calendar_loaded(
    log: Seq<AnswerView>,
    pos: int,
    calendar: Option<(JsonView, Seq<Seq<u8>>)>,
) -> Turn<Option<JsonView>> {
    match calendar {
        None => Turn::Done(None, pos),
        Some((snapshot, pages)) => match calendar_sent(log, pos, snapshot, pages, false) {
            Turn::Done(v, k) => Turn::Done(Some(v), k),
            other => stopped(other),
        },
    }
}

/// Loading the radar of a playlist, where there is one.
pub open spec fn radar_loaded(
    log: Seq<AnswerView>,
    pos: int,
    radar: Option<JsonView>,
    scaled: Seq<Scaled>,
) -> Turn<Option<JsonView>> {
    match radar {
        None => Turn::Done(None, pos),
        Some(snapshot) => match radar_sent(log, pos, snapshot, false, scaled) {
            Turn::Done(v, k) => Turn::Done(Some(v), k),
            other => stopped(other),
        },
    }
}

/// Starts a playlist.
pub open spec fn home_apply(entries: JsonView, session: Seq<char>) -> AskView {
    AskView::Request {
        command: put(
            put(plain_command("home_apply"@), "entries"@, entries),
            "session"@,
            JsonView::Str(session),
        ),
        timeout_ms: 8000,
    }
}

/// A member of the part of a state that one scene is in.
pub open spec fn scene_member(state: JsonView, key: Seq<char>, name: Seq<char>) -> Option<JsonView> {
    match scene_of(state, key) {
        Some(v) => at(v, name),
        None => None,
    }
}

/// A started playlist with the label picture of its task put in.
pub open spec fn labels_added(result: JsonView, task: Option<(JsonView, Seq<u8>)>) -> JsonView {
    match task {
        Some((_, labels)) => put_in(result, "task"@, "labels"@, bytes_view(labels)),
        None => result,
    }
}

/// A started playlist with the data of its radar put in, if it is still the
/// one that was loaded.
pub open spec fn radar_added(result: JsonView, radar: Option<JsonView>) -> Option<JsonView> {
    match radar {
        None => Some(result),
        Some(loaded) => if same_option(
            at_in(result, "radar"@, "crc32"@),
            scene_member(loaded, "radar"@, "crc32"@),
        ) {
            match scene_member(loaded, "radar"@, "radar_data"@) {
                Some(data) => Some(put_in(result, "radar"@, "radar_data"@, data)),
                None => Some(result),
            }
        } else {
            None
        },
    }
}

/// A started playlist with the pages of its calendar put in, if it is still
/// the one that was loaded.
pub open spec fn calendar_added(result: JsonView, calendar: Option<JsonView>) -> Option<JsonView> {
    match calendar {
        None => Some(result),
        Some(loaded) => if same_option(
            at_in(result, "calendar"@, "calendar_signature"@),
            scene_member(loaded, "calendar"@, "calendar_signature"@),
        ) {
            Some(
                pages_carried_into(
                    result,
                    scene_member(loaded, "calendar"@, "calendar_pages"@),
                ),
            )
        } else {
            None
        },
    }
}

/// A started playlist with one of its pictures put in, if its sum is right.
pub open spec fn picture_added(
    result: JsonView,
    kind: Seq<char>,
    picture: Option<Seq<u8>>,
) -> Option<JsonView> {
    match picture {
        None => Some(result),
        Some(data) => {
            let sum = match at(result, "home_images"@) {
                Some(images) => text_of(at_in(images, kind, "crc32"@)),
                None => None,
            };
            if sum == Some(crc_hex(data)) {
                Some(put_picture(result, kind, "data"@, bytes_view(data)))
            } else {
                None
            }
        },
    }
}

/// A started playlist with everything that was loaded put in.
pub open spec fn playlist_filled(
    pos: int,
    result: JsonView,
    p: PreparedView,
    radar: Option<JsonView>,
    calendar: Option<JsonView>,
) -> Turn<JsonView> {
    match radar_added(labels_added(result, p.task), radar) {
        None => Turn::Failed("预加载雷达在启动期间已变化"@, pos),
        Some(b) => match calendar_added(b, calendar) {
            None => Turn::Failed("日历预加载在启动期间已变化"@, pos),
            Some(c) => match picture_added(c, "text"@, p.text) {
                None => Turn::Failed("轮播图片校验值不匹配"@, pos),
                Some(d) => match picture_added(d, "image"@, p.image) {
                    None => Turn::Failed("轮播图片校验值不匹配"@, pos),
                    Some(e) => Turn::Done(e, pos),
                },
            },
        },
    }
}

/// Whether a state confirms a playlist that was started.
pub open spec fn playlist_confirmed(result: JsonView, session: Seq<char>, entries: JsonView) -> bool {
    text_of(at(result, "mode"@)) == Some("home"@) && text_of(at(result, "home_id"@)) == Some(session)
        && same_option(at(result, "home_entries"@), Some(entries))
}

/// Loading every scene of a playlist and starting it.
pub open spec fn playlist_loaded(
    log: Seq<AnswerView>,
    pos: int,
    p: PreparedView,
    scaled: Seq<Scaled>,
) -> Turn<JsonView> {
    match picture_uploaded(log, pos, p.text, "home_text"@) {
        Turn::Done(_, k1) => match picture_uploaded(log, k1, p.image, "home_image"@) {
            Turn::Done(_, k2) => match calendar_loaded(log, k2, p.calendar) {
                Turn::Done(calendar, k3) => match task_loaded(log, k3, p.task) {
                    Turn::Done(_, k4) => match radar_loaded(log, k4, p.radar, scaled) {
                        Turn::Done(radar, k5) => match text_turn(log, k5, AskView::Session) {
                            Turn::Done(session, k6) => match value_turn(
                                log,
                                k6,
                                home_apply(p.entries, session),
                            ) {
                                Turn::Done(result, k7) => if playlist_confirmed(
                                    result,
                                    session,
                                    p.entries,
                                ) {
                                    playlist_filled(k7, result, p, radar, calendar)
                                } else {
                                    Turn::Failed("设备未确认轮播配置"@, k7)
                                },
                                other => stopped(other),
                            },
                            other => stopped(other),
                        },
                        other => stopped(other),
                    },
                    other => stopped(other),
                },
                other => stopped(other),
            },
            other => stopped(other),
        },
        other => stopped(other),
    }
}

fn add_picture(result: Json, kind: &str, picture: &Option<Vec<u8>>) -> (r: Option<Json>)
    ensures
        match r {
            Some(v) => picture_added(result@, kind@, opt_bytes(*picture)) == Some(v@),
            None => picture_added(result@, kind@, opt_bytes(*picture)) is None,
        },
{
    match picture {
        None => Some(result),
        Some(data) => {
            let crc = crc32_hex(data.as_slice());
            let right = {
                let sum = match result.get("home_images") {
                    Some(images) => images.get_in(kind, "crc32"),
                    None => None,
                };
                match sum {
                    Some(v) => match v.as_str() {
                        Some(s) => same_text(s, crc.as_str()),
                        None => false,
                    },
                    None => false,
                }
            };
            if !right {
                return None;
            }
            let mut out = result;
            insert_picture(&mut out, kind, "data", bytes_json(data.as_slice()));
            Some(out)
        },
    }
}

fn scene_value(state: &Json, key: &str, name: &str) -> (r: Option<Json>)
    ensures
        opt_value(r) == scene_member(state@, key@, name@),
{
    match scene(state, key) {
        Some(v) => match v.get(name) {
            Some(x) => Some(x.clone()),
            None => None,
        },
        None => None,
    }
}

fn fill_playlist(
    result: Json,
    p: &PreparedHome,
    radar: Option<Json>,
    calendar: Option<Json>,
) -> (r: Result<Json, Halt>)
    ensures
        forall|pos: int| #[trigger]
            value_end(r, pos) == playlist_filled(
                pos,
                result@,
                p@,
                opt_value(radar),
                opt_value(calendar),
            ),
{
    let mut out = result;
    match &p.task {
        Some((_, labels)) => {
            out.insert_in("task", "labels", bytes_json(labels.as_slice()));
        },
        None => {},
    }
    match &radar {
        Some(loaded) => {
            let sum = scene_value(loaded, "radar", "crc32");
            if !options_same(out.get_in("radar", "crc32"), sum.as_ref()) {
                return Err(failed("预加载雷达在启动期间已变化"));
            }
            match scene_value(loaded, "radar", "radar_data") {
                Some(data) => {
                    out.insert_in("radar", "radar_data", data);
                },
                None => {},
            }
        },
        None => {},
    }
    match &calendar {
        Some(loaded) => {
            let signature = scene_value(loaded, "calendar", "calendar_signature");
            if !options_same(out.get_in("calendar", "calendar_signature"), signature.as_ref()) {
                return Err(failed("日历预加载在启动期间已变化"));
            }
            let pages = scene_value(loaded, "calendar", "calendar_pages");
            out = carry_pages(out, pages.as_ref());
        },
        None => {},
    }
    let with_text = match add_picture(out, "text", &p.text) {
        Some(v) => v,
        None => {
            return Err(failed("轮播图片校验值不匹配"));
        },
    };
    match add_picture(with_text, "image", &p.image) {
        Some(v) => Ok(v),
        None => Err(failed("轮播图片校验值不匹配")),
    }
}

fn load_playlist(device: &mut HoloCubicUsb, p: &PreparedHome, scaled: &Vec<Scaled>) -> (r:
    Result<Json, Halt>)
    ensures
        value_end(r, final(device).pos()) == playlist_loaded(
            old(device).log(),
            old(device).pos(),
            p@,
            scaled@,
        ),
        final(device).log() == old(device).log(),
        final(device).port() == old(device).port(),
{
    upload_picture(device, &p.text, "home_text")?;
    upload_picture(device, &p.image, "home_image")?;
    let calendar = match &p.calendar {
        Some((snapshot, pages)) => Some(send_calendar(device, snapshot, pages, false)?),
        None => None,
    };
    load_task(device, &p.task)?;
    let radar = match &p.radar {
        Some(snapshot) => Some(send_radar(device, snapshot, false, scaled)?),
        None => None,
    };
    let session = device.text(Ask::Session)?;
    let apply = command("home_apply").with("entries", p.entries.clone()).with(
        "session",
        Json::text(session.as_str()),
    );
    let result = device.request(apply, 8000)?;
    if !result.is_str("mode", "home") || !result.is_str("home_id", session.as_str())
        || !options_same(result.get("home_entries"), Some(&p.entries)) {
        return Err(failed("设备未确认轮播配置"));
    }
    fill_playlist(result, p, radar, calendar)
}

/// Starting a playlist. Where anything fails, the device is told to clear its
/// screen, whatever comes of that.
pub open spec fn playlist_started(
    log: Seq<AnswerView>,
    pos: int,
    p: PreparedView,
    scaled: Seq<Scaled>,
) -> Turn<JsonView> {
    match value_turn(
        log,
        pos,
        AskView::Request { command: plain_command("home_begin"@), timeout_ms: 4000 },
    ) {
        Turn::Done(_, k) => match playlist_loaded(log, k, p, scaled) {
            Turn::Failed(m, n) => match value_turn(log, n, clear_ask()) {
                Turn::Ask(a) => Turn::Ask(a),
                Turn::Done(_, z) => Turn::Failed(m, z),
                Turn::Failed(_, z) => Turn::Failed(m, z),
            },
            other => other,
        },
        other => other,
    }
}

/// Clears the screen of the device.
pub open spec fn clear_ask() -> AskView {
    AskView::Request { command: plain_command("clear"@), timeout_ms: 3000 }
}

/// Starts a playlist that was prepared.
pub fn start_home(
    device: &mut HoloCubicUsb,
    prepared: &PreparedHome,
    scaled: &Vec<Scaled>,
) -> (r: Result<Json, Halt>)
    ensures
        value_end(r, final(device).pos()) == playlist_started(
            old(device).log(),
            old(device).pos(),
            prepared@,
            scaled@,
        ),
        final(device).log() == old(device).log(),
        final(device).port() == old(device).port(),
{
    device.request(command("home_begin"), 4000)?;
    match load_playlist(device, prepared, scaled) {
        Err(Halt::Failed(e)) => {
            match device.request(command("clear"), 3000) {
                Err(Halt::Ask(a)) => Err(Halt::Ask(a)),
                _ => Err(Halt::Failed(e)),
            }
        },
        other => other,
    }
}

/// The slots that calendar pages are sent to, in either bank and for any page
/// that a calendar can have, are slots that pictures can be uploaded to.
pub proof fn law_slots_are_targets(bank: Seq<char>, page: nat)
    requires
        bank == "a"@ || bank == "b"@,
        1 <= page <= 32,
    ensures
        calendar_target(slot_name(bank, page)),
        image_target(slot_name(bank, page)),
{
    reveal_strlit("a");
    reveal_strlit("b");
    reveal_strlit("_");
    reveal_strlit("calendar_");
    let number = padded(decimal(page), 2);
    if page < 10 {
        assert(decimal(page) =~= seq![digit(page)]);
        assert(number =~= seq!['0', digit(page)]);
    } else {
        assert(decimal(page / 10) =~= seq![digit(page / 10)]);
        assert(decimal(page) =~= seq![digit(page / 10), digit(page % 10)]);
        assert(number =~= decimal(page));
    }
    let t = slot_name(bank, page);
    assert(t.len() == 13);
    assert(t.take(9) =~= "calendar_"@);
    assert(t[9] == bank[0]);
    assert(t[10] == '_');
    assert(t[11] == number[0] && t[12] == number[1]);
}

/// A calendar counts as sent only where the device says that it shows that very
/// day, with every page as long as it was sent and with the same sum.
pub proof fn law_sent_calendar_is_confirmed(
    log: Seq<AnswerView>,
    pos: int,
    snapshot: JsonView,
    pages: Seq<Seq<u8>>,
    standalone: bool,
)
    ensures
        match calendar_sent(log, pos, snapshot, pages, standalone) {
            Turn::Done(_, n) => match log[n - 1] {
                AnswerView::Value(result) => match scene_of(result, "calendar"@) {
                    Some(shown) => {
                        &&& text_of(at(shown, "calendar_signature"@)) == text_of(
                            at(snapshot, "signature"@),
                        )
                        &&& match items_of(at(shown, "calendar_pages"@)) {
                            Some(metas) => metas.len() == pages.len() && pages_confirmed(
                                metas,
                                pages,
                            ),
                            None => false,
                        }
                    },
                    None => false,
                },
                _ => false,
            },
            _ => true,
        },
{
}

/// A playlist that could not be started is reported only after the device was
/// told to clear its screen, so that it is not left with half of a playlist.
pub proof fn law_failed_start_is_cleared(
    log: Seq<AnswerView>,
    pos: int,
    p: PreparedView,
    scaled: Seq<Scaled>,
)
    requires
        value_turn(
            log,
            pos,
            AskView::Request { command: plain_command("home_begin"@), timeout_ms: 4000 },
        ) is Done,
    ensures
        match playlist_started(log, pos, p, scaled) {
            Turn::Failed(message, n) => {
                &&& playlist_loaded(log, pos + 1, p, scaled) == Turn::<JsonView>::Failed(
                    message,
                    n - 1,
                )
                &&& !(value_turn(log, n - 1, clear_ask()) is Ask)
            },
            Turn::Done(v, n) => playlist_loaded(log, pos + 1, p, scaled) == Turn::Done(v, n),
            Turn::Ask(_) => true,
        },
{
}

/// Radar data count as sent only where the device says that it shows data with
/// the sum of what was sent. What is sent was packed at the time that the clock
/// showed right before, and is no more than the device can keep.
pub proof fn law_sent_radar_is_confirmed(
    log: Seq<AnswerView>,
    pos: int,
    snapshot: JsonView,
    standalone: bool,
    scaled: Seq<Scaled>,
)
    ensures
        match radar_sent(log, pos, snapshot, standalone, scaled) {
            Turn::Done(_, n) => match (log[pos], log[n - 1]) {
                (AnswerView::Time(now), AnswerView::Value(result)) => match compacted_json(
                    snapshot,
                    now,
                    scaled,
                ) {
                    Ok(payload) => {
                        let data = encode_utf8(json_text(payload));
                        &&& data.len() <= 8192
                        &&& match scene_of(result, "radar"@) {
                            Some(shown) => text_of(at(shown, "crc32"@)) == Some(crc_hex(data)),
                            None => false,
                        }
                    },
                    Err(_) => false,
                },
                _ => false,
            },
            _ => true,
        },
{
}

} // verus!
