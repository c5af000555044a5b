//! Why something fails: never without a reason that the answers or the request give; and
//! what confirmed it where it did not.

use vstd::prelude::*;
use vstd::utf8::encode_utf8;

use crate::actions::{
    calendar_added, calendar_loaded, calendar_sent, home_apply, labels_added, pages_uploaded,
    picture_added, picture_uploaded, playlist_confirmed, playlist_filled, playlist_loaded,
    playlist_started, radar_added, radar_loaded, radar_parts, radar_sent, slot_name, task_loaded,
};
use crate::device::{
    action_run, calendar_run, executed, home_run, image_run, radar_run, task_run, text_run,
};
use crate::json::{
    at, at_in, bool_of, items_of, json_of_bytes, put, same_option, text_at, text_of, u64_of,
    JsonView,
};
use crate::outside::json_text;
use crate::playlist::{
    known_in, law_playlist_is_shown_in_full, picture_step, playlist_carried, playlist_read,
    state_mirrored, KnownView,
};
use crate::preload::{entries_fault, packed, playlist_prepared, selected, PreparedView};
use crate::protocol::{chunk_count, crc_hex, image_target};
use crate::radar_data::{compacted_json, Scaled};
use crate::readback::{
    asset_part, bytes_of, calendar_mirrored, calendar_read, labels_mirrored, law_read_back_length,
    page_meta, pages_described, pages_read, part_shown, radar_mirrored, read_back,
};
use crate::script::{stopped, text_turn, value_turn, AnswerView, AskView, Turn};
use crate::task::{accent_text, task_settings};
use crate::text::trimmed;
use crate::usb::{exchange, plain_command, upload, upload_asks};

verus! {

/// Whether a run ended because the last answer that it used was a failure, and passes
/// that failure on.
pub open spec fn passed_on(log: Seq<AnswerView>, pos: int, message: Seq<char>, end: int) -> bool {
    pos < end <= log.len() && log[end - 1] == AnswerView::Failed(message)
}

/// Whether a run ended with an answer of the device.
pub open spec fn answered(log: Seq<AnswerView>, pos: int, end: int) -> bool {
    pos < end <= log.len() && log[end - 1] is Value
}

/// The last answer of a run.
pub open spec fn last_answer(log: Seq<AnswerView>, end: int) -> JsonView {
    log[end - 1]->Value_0
}

proof fn lemma_exchange_ends(log: Seq<AnswerView>, pos: int, asks: Seq<AskView>)
    requires
        0 <= pos <= log.len(),
    ensures
        match exchange(log, pos, asks) {
            Turn::Done(values, k) => k == pos + asks.len() <= log.len() && values.len()
                == asks.len() && (asks.len() > 0 ==> log[k - 1] == AnswerView::Value(
                values.last(),
            )),
            Turn::Failed(m, k) => passed_on(log, pos, m, k),
            Turn::Ask(_) => true,
        },
    decreases asks.len(),
{
    if asks.len() > 0 {
        lemma_exchange_ends(log, pos, asks.drop_last());
    }
}

/// An upload fails where there is no such place, where an answer is a failure, or where
/// the device does not confirm in the end that it has all the bytes.
pub proof fn law_uploads_fail_for_a_reason(
    log: Seq<AnswerView>,
    pos: int,
    data: Seq<u8>,
    target: Seq<char>,
)
    requires
        0 <= pos <= log.len(),
    ensures
        match upload(log, pos, data, target) {
            Turn::Failed(m, k) => {
                ||| !image_target(target)
                ||| passed_on(log, pos, m, k)
                ||| {
                    &&& answered(log, pos, k)
                    &&& k == pos + (data.len() + 95) / 96 + 2
                    &&& {
                        ||| text_of(at(last_answer(log, k), "status"@)) != Some(
                            if target == "frame"@ {
                                "displayed"@
                            } else {
                                "stored"@
                            },
                        )
                        ||| u64_of(at(last_answer(log, k), "bytes"@)) != Some(data.len() as u64)
                        ||| text_of(at(last_answer(log, k), "crc32"@)) != Some(crc_hex(data))
                    }
                }
            },
            Turn::Done(_, k) => pos < k <= log.len(),
            Turn::Ask(_) => true,
        },
{
    lemma_exchange_ends(log, pos, upload_asks(data, target));
}

proof fn lemma_parts_end(log: Seq<AnswerView>, pos: int, data: Seq<u8>, n: nat)
    requires
        0 <= pos <= log.len(),
    ensures
        match radar_parts(log, pos, data, n) {
            Turn::Done(_, k) => k == pos + n <= log.len(),
            Turn::Failed(m, k) => pos < k <= pos + n && (passed_on(log, pos, m, k) || (answered(
                log,
                pos,
                k,
            ) && u64_of(at(last_answer(log, k), "next_seq"@)) != Some((k - pos) as u64))),
            Turn::Ask(_) => true,
        },
    decreases n,
{
    if n > 0 {
        lemma_parts_end(log, pos, data, (n - 1) as nat);
    }
}

/// Sending radar data fails where they cannot be packed or are too long, where an answer
/// is a failure or counts the parts otherwise, or where the device does not confirm that
/// it shows them.
pub proof fn law_radar_sending_fails_for_a_reason(
    log: Seq<AnswerView>,
    pos: int,
    snapshot: JsonView,
    standalone: bool,
    scaled: Seq<Scaled>,
)
    requires
        0 <= pos <= log.len(),
    ensures
        match radar_sent(log, pos, snapshot, standalone, scaled) {
            Turn::Failed(m, k) => {
                let payload = compacted_json(snapshot, log[pos]->Time_0 as int, scaled);
                let data = encode_utf8(json_text(payload->Ok_0));
                ||| passed_on(log, pos, m, k)
                ||| pos < log.len() && log[pos] is Time && k == pos + 1 && payload is Err
                ||| pos < log.len() && log[pos] is Time && k == pos + 1 && payload is Ok
                    && data.len() > 8192
                ||| {
                    &&& answered(log, pos, k)
                    &&& pos + 2 < k <= pos + 2 + chunk_count(data.len())
                    &&& u64_of(at(last_answer(log, k), "next_seq"@)) != Some((k - pos - 2) as u64)
                }
                ||| {
                    &&& answered(log, pos, k)
                    &&& k == pos + 3 + chunk_count(data.len())
                    &&& !confirms_radar(last_answer(log, k), crc_hex(data))
                }
            },
            Turn::Done(_, k) => pos < k <= log.len(),
            Turn::Ask(_) => true,
        },
{
    match packed(log, pos, snapshot, scaled) {
        Turn::Done(payload, p) => {
            let data = encode_utf8(json_text(payload));
            if p < log.len() {
                lemma_parts_end(log, p + 1, data, chunk_count(data.len()));
            }
        },
        _ => {},
    }
}

/// Whether an answer confirms radar data of a sum, by themselves or in a playlist.
pub open spec fn confirms_radar(result: JsonView, crc: Seq<char>) -> bool {
    let shown = part_shown(result, "radar"@);
    shown is Some && text_of(at(shown->0, "mode"@)) == Some("radar"@) && text_of(
        at(shown->0, "crc32"@),
    ) == Some(crc)
}

/// Whether some descriptions are those of some pages, by their sizes and their sums.
pub open spec fn describe_pages(metas: Seq<JsonView>, pages: Seq<Seq<u8>>) -> bool {
    &&& metas.len() == pages.len()
    &&& forall|i: int|
        0 <= i < pages.len() ==> u64_of(at(#[trigger] metas[i], "size"@)) == Some(
            pages[i].len() as u64,
        ) && text_of(at(metas[i], "crc32"@)) == Some(crc_hex(pages[i]))
}

/// Whether an answer confirms a calendar: the signature, and every page by its size and
/// its sum.
pub open spec fn confirms_calendar(
    result: JsonView,
    signature: Seq<char>,
    pages: Seq<Seq<u8>>,
) -> bool {
    let shown = part_shown(result, "calendar"@);
    &&& shown is Some
    &&& text_of(at(shown->0, "mode"@)) == Some("calendar"@)
    &&& text_of(at(shown->0, "calendar_signature"@)) == Some(signature)
    &&& items_of(at(shown->0, "calendar_pages"@)) matches Some(metas) && describe_pages(metas, pages)
}

proof fn lemma_pages_end(
    log: Seq<AnswerView>,
    pos: int,
    bank: Seq<char>,
    pages: Seq<Seq<u8>>,
    n: nat,
)
    requires
        0 <= pos <= log.len(),
        n <= pages.len(),
    ensures
        match pages_uploaded(log, pos, bank, pages, n) {
            Turn::Done(_, k) => pos <= k <= log.len(),
            Turn::Failed(m, k) => page_not_uploaded(log, pos, bank, pages, m, k),
            Turn::Ask(_) => true,
        },
    decreases n,
{
    if n > 0 {
        lemma_pages_end(log, pos, bank, pages, (n - 1) as nat);
        match pages_uploaded(log, pos, bank, pages, (n - 1) as nat) {
            Turn::Done(_, k) => {
                law_uploads_fail_for_a_reason(log, k, pages[n - 1], slot_name(bank, n));
                match upload(log, k, pages[n - 1], slot_name(bank, n)) {
                    Turn::Failed(m, e) => {
                        let i = n - 1;
                        assert(upload(log, k, pages[i], slot_name(bank, (i + 1) as nat))
                            == Turn::<JsonView>::Failed(m, e));
                    },
                    _ => {},
                }
            },
            _ => {},
        }
    }
}

/// Whether one of some pages could not be uploaded to its slot.
pub open spec fn page_not_uploaded(
    log: Seq<AnswerView>,
    pos: int,
    bank: Seq<char>,
    pages: Seq<Seq<u8>>,
    message: Seq<char>,
    end: int,
) -> bool {
    exists|i: int, p: int|
        0 <= i < pages.len() && pos <= p <= log.len() && #[trigger] upload(
            log,
            p,
            pages[i],
            slot_name(bank, (i + 1) as nat),
        ) == Turn::<JsonView>::Failed(message, end)
}

/// Sending a calendar fails where the day has no signature, where an answer is a failure
/// or names no bank, where a page cannot be uploaded to its slot, or where the device does
/// not confirm the calendar.
pub proof fn law_calendar_sending_fails_for_a_reason(
    log: Seq<AnswerView>,
    pos: int,
    snapshot: JsonView,
    pages: Seq<Seq<u8>>,
    standalone: bool,
)
    requires
        0 <= pos <= log.len(),
    ensures
        match calendar_sent(log, pos, snapshot, pages, standalone) {
            Turn::Failed(m, k) => {
                let signature = text_of(at(snapshot, "signature"@));
                let bank = text_of(at(last_answer(log, pos + 1), "bank"@));
                ||| signature is None && k == pos
                ||| passed_on(log, pos, m, k)
                ||| answered(log, pos, k) && k == pos + 1 && bank != Some("a"@) && bank != Some(
                    "b"@,
                )
                ||| bank is Some && page_not_uploaded(log, pos + 1, bank->0, pages, m, k)
                ||| answered(log, pos, k) && !confirms_calendar(
                    last_answer(log, k),
                    signature->0,
                    pages,
                )
            },
            Turn::Done(_, k) => pos < k <= log.len(),
            Turn::Ask(_) => true,
        },
{
    if text_of(at(snapshot, "signature"@)) is Some && pos < log.len() && log[pos] is Value {
        let bank = text_of(at(log[pos]->Value_0, "bank"@));
        if bank is Some {
            lemma_pages_end(log, pos + 1, bank->0, pages, pages.len());
        }
    }
}

/// Loading the task of a playlist fails where its label picture cannot be uploaded, where
/// the answer is a failure, or where it does not confirm the task: the share for a task
/// that starts anew, else the time, how far it is and whether it is paused.
pub proof fn law_task_loading_fails_for_a_reason(
    log: Seq<AnswerView>,
    pos: int,
    command: JsonView,
    labels: Seq<u8>,
)
    requires
        0 <= pos <= log.len(),
    ensures
        match task_loaded(log, pos, Some((command, labels))) {
            Turn::Failed(m, k) => {
                let reply = last_answer(log, k);
                ||| upload(log, pos, labels, "task_labels"@) == Turn::<JsonView>::Failed(m, k)
                ||| passed_on(log, pos, m, k)
                ||| answered(log, pos, k) && text_of(at(reply, "mode"@)) != Some("task"@)
                ||| answered(log, pos, k) && at(command, "restore"@) is None && !same_option(
                    at(reply, "bp"@),
                    at(command, "bp"@),
                )
                ||| answered(log, pos, k) && at(command, "restore"@) is Some && !(same_option(
                    at(reply, "duration"@),
                    at(command, "seconds"@),
                ) && same_option(
                    at(reply, "counter"@),
                    at_in(command, "restore"@, "counter"@),
                ) && same_option(at(reply, "paused"@), at_in(command, "restore"@, "paused"@)))
            },
            Turn::Done(_, k) => pos < k <= log.len(),
            Turn::Ask(_) => true,
        },
        task_loaded(log, pos, None) == Turn::Done((), pos),
{
    law_uploads_fail_for_a_reason(log, pos, labels, "task_labels"@);
}

/// Whether one of the parts of a playlist could not be loaded.
pub open spec fn part_not_loaded(
    log: Seq<AnswerView>,
    p: PreparedView,
    scaled: Seq<Scaled>,
    message: Seq<char>,
    end: int,
) -> bool {
    ||| p.text is Some && exists|a: int| #[trigger]
        upload(log, a, p.text->0, "home_text"@) == Turn::<JsonView>::Failed(message, end)
    ||| p.image is Some && exists|a: int| #[trigger]
        upload(log, a, p.image->0, "home_image"@) == Turn::<JsonView>::Failed(message, end)
    ||| p.calendar is Some && exists|a: int| #[trigger]
        calendar_sent(log, a, (p.calendar->0).0, (p.calendar->0).1, false) == Turn::<
            JsonView,
        >::Failed(message, end)
    ||| p.task is Some && exists|a: int| #[trigger]
        task_loaded(log, a, p.task) == Turn::<()>::Failed(message, end)
    ||| p.radar is Some && exists|a: int| #[trigger]
        radar_sent(log, a, p.radar->0, false, scaled) == Turn::<JsonView>::Failed(message, end)
}

/// Whether an answer does not confirm a playlist with all that was loaded.
pub open spec fn playlist_not_confirmed(
    reply: JsonView,
    session: Seq<char>,
    p: PreparedView,
    message: Seq<char>,
    end: int,
) -> bool {
    ||| text_of(at(reply, "mode"@)) != Some("home"@)
    ||| text_of(at(reply, "home_id"@)) != Some(session)
    ||| !same_option(at(reply, "home_entries"@), Some(p.entries))
    ||| exists|radar: Option<JsonView>, calendar: Option<JsonView>| #[trigger]
        playlist_filled(end, reply, p, radar, calendar) == Turn::<JsonView>::Failed(message, end)
}

proof fn lemma_session_ends(
    log: Seq<AnswerView>,
    pos: int,
    p: PreparedView,
    radar: Option<JsonView>,
    calendar: Option<JsonView>,
)
    requires
        0 <= pos <= log.len(),
    ensures
        match session_run(log, pos, p, radar, calendar) {
            Turn::Failed(m, k) => passed_on(log, pos, m, k) || (pos + 1 < k && answered(log, pos, k)
                && log[k - 2] is Text && playlist_not_confirmed(
                last_answer(log, k),
                log[k - 2]->Text_0,
                p,
                m,
                k,
            )),
            _ => true,
        },
{
}

/// The end of starting a playlist, once all is loaded.
spec fn session_run(
    log: Seq<AnswerView>,
    pos: int,
    p: PreparedView,
    radar: Option<JsonView>,
    calendar: Option<JsonView>,
) -> Turn<JsonView> {
    match text_turn(log, pos, AskView::Session) {
        Turn::Done(session, a) => match value_turn(log, a, home_apply(p.entries, session)) {
            Turn::Done(result, b) => if playlist_confirmed(result, session, p.entries) {
                playlist_filled(b, result, p, radar, calendar)
            } else {
                Turn::Failed("设备未确认轮播配置"@, b)
            },
            other => stopped(other),
        },
        other => stopped(other),
    }
}

proof fn lemma_picture_forward(
    log: Seq<AnswerView>,
    pos: int,
    picture: Option<Seq<u8>>,
    target: Seq<char>,
)
    requires
        0 <= pos <= log.len(),
    ensures
        picture_uploaded(log, pos, picture, target) matches Turn::Done(_, k) ==> pos <= k
            <= log.len(),
{
    if picture is Some {
        law_uploads_fail_for_a_reason(log, pos, picture->0, target);
    }
}

proof fn lemma_calendar_forward(
    log: Seq<AnswerView>,
    pos: int,
    calendar: Option<(JsonView, Seq<Seq<u8>>)>,
)
    requires
        0 <= pos <= log.len(),
    ensures
        calendar_loaded(log, pos, calendar) matches Turn::Done(_, k) ==> pos <= k <= log.len(),
{
    if calendar is Some {
        law_calendar_sending_fails_for_a_reason(
            log,
            pos,
            (calendar->0).0,
            (calendar->0).1,
            false,
        );
    }
}

proof fn lemma_task_forward(log: Seq<AnswerView>, pos: int, task: Option<(JsonView, Seq<u8>)>)
    requires
        0 <= pos <= log.len(),
    ensures
        task_loaded(log, pos, task) matches Turn::Done(_, k) ==> pos <= k <= log.len(),
{
    if task is Some {
        law_task_loading_fails_for_a_reason(log, pos, (task->0).0, (task->0).1);
    }
}

proof fn lemma_radar_forward(
    log: Seq<AnswerView>,
    pos: int,
    radar: Option<JsonView>,
    scaled: Seq<Scaled>,
)
    requires
        0 <= pos <= log.len(),
    ensures
        radar_loaded(log, pos, radar, scaled) matches Turn::Done(_, k) ==> pos <= k <= log.len(),
{
    if radar is Some {
        law_radar_sending_fails_for_a_reason(log, pos, radar->0, false, scaled);
    }
}

/// Starting a playlist fails where one of its parts cannot be loaded, where an answer is
/// a failure, or where the device does not confirm the playlist with all that was loaded.
pub proof fn law_starting_fails_for_a_reason(
    log: Seq<AnswerView>,
    pos: int,
    p: PreparedView,
    scaled: Seq<Scaled>,
)
    requires
        0 <= pos <= log.len(),
    ensures
        match playlist_loaded(log, pos, p, scaled) {
            Turn::Failed(m, k) => {
                ||| part_not_loaded(log, p, scaled, m, k)
                ||| exists|from: int|
                    pos <= from && #[trigger] passed_on(log, from, m, k)
                ||| 1 < k && answered(log, pos, k) && log[k - 2] is Text && playlist_not_confirmed(
                    last_answer(log, k),
                    log[k - 2]->Text_0,
                    p,
                    m,
                    k,
                )
            },
            _ => true,
        },
{
    lemma_picture_forward(log, pos, p.text, "home_text"@);
    match picture_uploaded(log, pos, p.text, "home_text"@) {
        Turn::Done(_, k1) => {
            lemma_picture_forward(log, k1, p.image, "home_image"@);
            match picture_uploaded(log, k1, p.image, "home_image"@) {
                Turn::Done(_, k2) => {
                    lemma_calendar_forward(log, k2, p.calendar);
                    match calendar_loaded(log, k2, p.calendar) {
                        Turn::Done(calendar, k3) => {
                            lemma_task_forward(log, k3, p.task);
                            match task_loaded(log, k3, p.task) {
                                Turn::Done(_, k4) => {
                                    lemma_radar_forward(log, k4, p.radar, scaled);
                                    match radar_loaded(log, k4, p.radar, scaled) {
                                        Turn::Done(radar, k5) => {
                                            lemma_session_ends(log, k5, p, radar, calendar);
                                            assert(playlist_loaded(log, pos, p, scaled)
                                                == session_run(log, k5, p, radar, calendar));
                                        },
                                        _ => {},
                                    }
                                },
                                _ => {},
                            }
                        },
                        _ => {},
                    }
                },
                _ => {},
            }
        },
        _ => {},
    }
}

proof fn lemma_filled_members()
    ensures
        "task"@.len() == 4,
        "radar"@.len() == 5,
        "calendar"@.len() == 8,
        "home_images"@.len() == 11,
        "labels"@.len() == 6,
        "radar_data"@.len() == 10,
        "calendar_pages"@.len() == 14,
        "calendar_signature"@.len() == 18,
        "crc32"@.len() == 5,
        "text"@.len() == 4,
        "image"@.len() == 5,
        "data"@.len() == 4,
        "task"@[1] == 'a',
        "text"@[1] == 'e',
        "task"@[0] == 't',
        "data"@[0] == 'd',
        "radar"@[0] == 'r',
        "crc32"@[0] == 'c',
        "image"@[0] == 'i',
        "text"@[0] == 't',
{
    reveal_strlit("task");
    reveal_strlit("radar");
    reveal_strlit("calendar");
    reveal_strlit("home_images");
    reveal_strlit("labels");
    reveal_strlit("radar_data");
    reveal_strlit("calendar_pages");
    reveal_strlit("calendar_signature");
    reveal_strlit("crc32");
    reveal_strlit("text");
    reveal_strlit("image");
    reveal_strlit("data");
}

/// A playlist is confirmed without what was loaded only where the radar or a picture has
/// another sum, or the calendar another signature, than what was loaded.
pub proof fn law_filling_fails_for_a_reason(
    pos: int,
    result: JsonView,
    p: PreparedView,
    radar: Option<JsonView>,
    calendar: Option<JsonView>,
)
    ensures
        match playlist_filled(pos, result, p, radar, calendar) {
            Turn::Failed(_, _) => {
                ||| radar is Some && !same_option(
                    at_in(result, "radar"@, "crc32"@),
                    member_shown(radar->0, "radar"@, "crc32"@),
                )
                ||| calendar is Some && !same_option(
                    at_in(result, "calendar"@, "calendar_signature"@),
                    member_shown(calendar->0, "calendar"@, "calendar_signature"@),
                )
                ||| p.text is Some && text_of(picture_sum(result, "text"@)) != Some(
                    crc_hex(p.text->0),
                )
                ||| p.image is Some && text_of(picture_sum(result, "image"@)) != Some(
                    crc_hex(p.image->0),
                )
            },
            _ => true,
        },
{
    lemma_filled_members();
    let a = labels_added(result, p.task);
    assert(at(a, "radar"@) == at(result, "radar"@));
    assert(at(a, "calendar"@) == at(result, "calendar"@));
    assert(at(a, "home_images"@) == at(result, "home_images"@));
    match radar_added(a, radar) {
        Some(b) => {
            assert(at(b, "calendar"@) == at(a, "calendar"@));
            assert(at(b, "home_images"@) == at(a, "home_images"@));
            match calendar_added(b, calendar) {
                Some(c) => {
                    assert(at(c, "home_images"@) == at(b, "home_images"@));
                    match picture_added(c, "text"@, p.text) {
                        Some(d) => {
                            assert(at_in(d, "home_images"@, "image"@) == at_in(
                                c,
                                "home_images"@,
                                "image"@,
                            ));
                        },
                        None => {},
                    }
                },
                None => {},
            }
        },
        None => {},
    }
}

/// A member of a scene, by itself or in a playlist.
pub open spec fn member_shown(state: JsonView, scene: Seq<char>, key: Seq<char>) -> Option<
    JsonView,
> {
    match part_shown(state, scene) {
        Some(shown) => at(shown, key),
        None => None,
    }
}

/// The sum that a state gives for one of its pictures.
pub open spec fn picture_sum(state: JsonView, kind: Seq<char>) -> Option<JsonView> {
    match at_in(state, "home_images"@, kind) {
        Some(picture) => at(picture, "crc32"@),
        None => None,
    }
}

/// The entries of a playlist are good where every one is of a known scene, none is there
/// twice, and each stays from a second to an hour.
pub proof fn law_entries_are_refused_for_a_reason(entries: Seq<JsonView>)
    ensures
        entries_fault(entries) is None <==> {
            &&& forall|i: int|
                0 <= i < entries.len() ==> entry_is_good(#[trigger] entries[i])
            &&& forall|i: int, j: int|
                0 <= i < j < entries.len() ==> at(#[trigger] entries[i], "mode"@) != at(
                    #[trigger] entries[j],
                    "mode"@,
                )
        },
    decreases entries.len(),
{
    reveal_strlit("");
    reveal_strlit("task");
    reveal_strlit("radar");
    reveal_strlit("text");
    reveal_strlit("image");
    reveal_strlit("calendar");
    assert("task"@.len() == 4 && "radar"@.len() == 5 && "text"@.len() == 4 && "image"@.len() == 5
        && "calendar"@.len() == 8 && ""@.len() == 0);
    if entries.len() > 0 {
        let earlier = entries.drop_last();
        let last = entries.last();
        let n = entries.len() - 1;
        law_entries_are_refused_for_a_reason(earlier);
        let mode = text_at(last, "mode"@, ""@);
        assert(entries[n] == last);
        assert forall|i: int| 0 <= i < earlier.len() implies #[trigger] earlier[i] == entries[i] by {}
        if entries_fault(entries) is None {
            assert forall|i: int| 0 <= i < entries.len() implies entry_is_good(
                #[trigger] entries[i],
            ) by {
                if i < n {
                    assert(entry_is_good(earlier[i]));
                }
            }
            assert forall|i: int, j: int| 0 <= i < j < entries.len() implies at(
                #[trigger] entries[i],
                "mode"@,
            ) != at(#[trigger] entries[j], "mode"@) by {
                if j < n {
                    assert(at(earlier[i], "mode"@) != at(earlier[j], "mode"@));
                } else {
                    assert(text_at(earlier[i], "mode"@, ""@) != mode);
                }
            }
        }
        if (forall|i: int| 0 <= i < entries.len() ==> entry_is_good(#[trigger] entries[i])) && (
        forall|i: int, j: int|
            0 <= i < j < entries.len() ==> at(#[trigger] entries[i], "mode"@) != at(
                #[trigger] entries[j],
                "mode"@,
            )) {
            assert forall|i: int| 0 <= i < earlier.len() implies entry_is_good(
                #[trigger] earlier[i],
            ) by {
                assert(entry_is_good(entries[i]));
            }
            assert forall|i: int, j: int| 0 <= i < j < earlier.len() implies at(
                #[trigger] earlier[i],
                "mode"@,
            ) != at(#[trigger] earlier[j], "mode"@) by {
                assert(at(entries[i], "mode"@) != at(entries[j], "mode"@));
            }
            assert(entry_is_good(entries[n]));
            assert(!selected(earlier, mode)) by {
                if selected(earlier, mode) {
                    let i = choose|i: int|
                        0 <= i < earlier.len() && text_at(#[trigger] earlier[i], "mode"@, ""@)
                            == mode;
                    assert(entry_is_good(entries[i]));
                    assert(at(entries[i], "mode"@) != at(entries[n], "mode"@));
                }
            }
        }
    }
}

/// Whether an entry is of a known scene and stays from a second to an hour.
pub open spec fn entry_is_good(entry: JsonView) -> bool {
    &&& at(entry, "mode"@) matches Some(JsonView::Str(mode)) && (mode == "task"@ || mode
        == "radar"@ || mode == "text"@ || mode == "image"@ || mode == "calendar"@)
    &&& u64_of(at(entry, "seconds"@)) matches Some(n) && 1 <= n <= 3600
}

/// Preparing a playlist fails where there are no scenes, too many or bad ones, where
/// there are no settings, where one of the scenes cannot be drawn or lacks its data, or
/// where an answer is a failure.
pub proof fn law_preparing_fails_for_a_reason(
    log: Seq<AnswerView>,
    pos: int,
    request: JsonView,
    points: Option<u32>,
    scaled: Seq<Scaled>,
)
    requires
        0 <= pos <= log.len(),
    ensures
        match playlist_prepared(log, pos, request, points, scaled) {
            Turn::Failed(m, k) => {
                let entries = items_of(at(request, "home_entries"@));
                let settings = at(request, "settings"@)->0;
                let saved = at(request, "resume_task"@);
                ||| entries is None || !(1 <= entries->0.len() <= 5) || entries_fault(
                    entries->0,
                ) is Some
                ||| at(request, "settings"@) is None
                ||| passed_on(log, pos, m, k)
                ||| selected(entries->0, "task"@) && saved is None && task_settings(
                    settings,
                    points,
                ) is Err
                ||| selected(entries->0, "task"@) && saved is Some && (items_of(
                    at(saved->0, "labels"@),
                ) is None || crc_hex(bytes_of(items_of(at(saved->0, "labels"@))->0)) != text_at(
                    saved->0,
                    "labels_crc"@,
                    ""@,
                ))
                ||| selected(entries->0, "text"@) && (trimmed(
                    text_at(settings, "text_body"@, ""@),
                ).len() == 0 || accent_text(settings) is None)
                ||| selected(entries->0, "image"@) && text_at(
                    settings,
                    "image_path"@,
                    ""@,
                ).len() == 0
                ||| selected(entries->0, "radar"@) && (at(request, "snapshot"@) is None || (pos < k
                    <= log.len() && log[k - 1] is Time && compacted_json(
                    at(request, "snapshot"@)->0,
                    log[k - 1]->Time_0 as int,
                    scaled,
                ) is Err))
                ||| selected(entries->0, "calendar"@) && at(request, "calendar_snapshot"@) is None
            },
            _ => true,
        },
{
}

/// Showing a task fails where the device is too old for it, where the settings are
/// missing or bad, where its label picture cannot be drawn or uploaded, where an answer is
/// a failure, or where it does not confirm the task.
pub proof fn law_tasks_fail_for_a_reason(
    log: Seq<AnswerView>,
    pos: int,
    settings: Option<JsonView>,
    state: JsonView,
    points: Option<u32>,
)
    requires
        0 <= pos <= log.len(),
    ensures
        match task_run(log, pos, settings, state, points) {
            Turn::Failed(m, k) => {
                let s = settings->0;
                let v = task_settings(s, points);
                ||| u64_of(at(state, "task_protocol"@)) != Some(1u64)
                ||| u64_of(at(state, "mirror_protocol"@)) != Some(1u64)
                ||| u64_of(at(state, "loop_protocol"@)) != Some(1u64)
                ||| settings is None
                ||| v is Err
                ||| passed_on(log, pos, m, k)
                ||| pos < log.len() && log[pos] is Bytes && upload(
                    log,
                    pos + 1,
                    log[pos]->Bytes_0,
                    "task_labels"@,
                ) == Turn::<JsonView>::Failed(m, k)
                ||| answered(log, pos, k) && (text_of(at(last_answer(log, k), "mode"@)) != Some(
                    "task"@,
                ) || u64_of(at(last_answer(log, k), "bp"@)) != Some(v->Ok_0.points as u64)
                    || bool_of(at(last_answer(log, k), "looping"@)) != bool_of(at(s, "looping"@)))
            },
            Turn::Done(_, k) => pos < k <= log.len(),
            Turn::Ask(_) => true,
        },
{
    if pos < log.len() && log[pos] is Bytes {
        law_uploads_fail_for_a_reason(log, pos + 1, log[pos]->Bytes_0, "task_labels"@);
    }
}

/// Showing a text or a picture fails where the settings are missing, where there is
/// nothing to show or no colour to show it in, where an answer is a failure, or where the
/// upload fails.
pub proof fn law_frames_fail_for_a_reason(
    log: Seq<AnswerView>,
    pos: int,
    settings: Option<JsonView>,
)
    requires
        0 <= pos <= log.len(),
    ensures
        match text_run(log, pos, settings) {
            Turn::Failed(m, k) => {
                ||| settings is None
                ||| trimmed(text_at(settings->0, "text_body"@, ""@)).len() == 0
                ||| accent_text(settings->0) is None
                ||| passed_on(log, pos, m, k)
                ||| pos < log.len() && log[pos] is Bytes && upload(
                    log,
                    pos + 1,
                    log[pos]->Bytes_0,
                    "frame"@,
                ) == Turn::<JsonView>::Failed(m, k)
            },
            _ => true,
        },
        match image_run(log, pos, settings) {
            Turn::Failed(m, k) => {
                ||| settings is None
                ||| passed_on(log, pos, m, k)
                ||| pos < log.len() && log[pos] is Bytes && upload(
                    log,
                    pos + 1,
                    log[pos]->Bytes_0,
                    "frame"@,
                ) == Turn::<JsonView>::Failed(m, k)
            },
            _ => true,
        },
{
}

/// The radar, the calendar and a playlist are refused where the device is too old for
/// them or there is nothing to send, and otherwise fail just as their sending does.
pub proof fn law_scenes_fail_for_a_reason(
    log: Seq<AnswerView>,
    pos: int,
    request: JsonView,
    state: JsonView,
    standalone: bool,
    points: Option<u32>,
    scaled: Seq<Scaled>,
)
    requires
        0 <= pos <= log.len(),
    ensures
        match radar_run(log, pos, request, state, standalone, scaled) {
            Turn::Failed(m, k) => {
                ||| u64_of(at(state, "radar_protocol"@)) != Some(1u64)
                ||| u64_of(at(state, "radar_mirror_protocol"@)) != Some(1u64)
                ||| at(request, "snapshot"@) is None
                ||| radar_sent(log, pos, at(request, "snapshot"@)->0, standalone, scaled)
                    == Turn::<JsonView>::Failed(m, k)
            },
            _ => true,
        },
        match calendar_run(log, pos, request, state, standalone) {
            Turn::Failed(m, k) => {
                ||| u64_of(at(state, "calendar_protocol"@)) != Some(1u64)
                ||| at(request, "calendar_snapshot"@) is None
                ||| passed_on(log, pos, m, k)
                ||| pos < log.len() && log[pos] is Pages && calendar_sent(
                    log,
                    pos + 1,
                    at(request, "calendar_snapshot"@)->0,
                    log[pos]->Pages_0,
                    standalone,
                ) == Turn::<JsonView>::Failed(m, k)
            },
            _ => true,
        },
        match home_run(log, pos, request, state, points, scaled) {
            Turn::Failed(m, k) => {
                let prepared = playlist_prepared(log, pos, request, points, scaled);
                ||| u64_of(at(state, "home_protocol"@)) != Some(1u64)
                ||| prepared == Turn::<PreparedView>::Failed(m, k)
                ||| prepared is Done && playlist_started(
                    log,
                    prepared->Done_1,
                    prepared->Done_0,
                    scaled,
                ) == Turn::<JsonView>::Failed(m, k)
            },
            _ => true,
        },
{
}

/// A request is refused where it names no action, where the handshake or the action
/// fails, or where what the device then shows cannot be read.
pub proof fn law_requests_fail_for_a_reason(
    log: Seq<AnswerView>,
    port: Seq<char>,
    request: JsonView,
    points: Option<u32>,
    scaled: Seq<Scaled>,
)
    ensures
        match executed(log, 0, port, request, points, scaled) {
            Turn::Failed(m, k) => {
                let action = text_of(at(request, "action"@));
                let acted = action_run(
                    log,
                    1,
                    action->0,
                    request,
                    last_answer(log, 1),
                    points,
                    scaled,
                );
                ||| action is None
                ||| passed_on(log, 0, m, k)
                ||| acted is Failed && acted->Failed_0 == m && acted->Failed_1 == k
                ||| acted is Done && state_mirrored(
                    log,
                    acted->Done_1,
                    acted->Done_0.state,
                    known_in(request),
                    acted->Done_0.labels,
                ) == Turn::<JsonView>::Failed(m, k)
            },
            _ => true,
        },
{
}

proof fn lemma_reading_ends(
    log: Seq<AnswerView>,
    pos: int,
    command: JsonView,
    crc: Seq<char>,
    page: Option<u64>,
    message: Seq<char>,
    size: int,
    got: Seq<u8>,
)
    requires
        0 <= pos <= log.len(),
        got.len() <= size,
    ensures
        match read_back(log, pos, command, crc, page, message, size, got) {
            Turn::Done(_, k) => pos <= k <= log.len(),
            Turn::Failed(m, k) => passed_on(log, pos, m, k) || (answered(log, pos, k) && exists|
                offset: int,
            |
                got.len() <= offset < size && #[trigger] asset_part(
                    last_answer(log, k),
                    crc,
                    page,
                    offset,
                    size - offset,
                ) is None),
            Turn::Ask(_) => true,
        },
    decreases size - got.len(),
{
    if got.len() < size && pos < log.len() && log[pos] is Value {
        let part = log[pos]->Value_0;
        match asset_part(part, crc, page, got.len() as int, size - got.len()) {
            Some(data) => {
                lemma_reading_ends(
                    log,
                    pos + 1,
                    command,
                    crc,
                    page,
                    message,
                    size,
                    got + data,
                );
            },
            None => {
                assert(asset_part(
                    last_answer(log, pos + 1),
                    crc,
                    page,
                    got.len() as int,
                    size - got.len(),
                ) is None);
            },
        }
    }
}

/// Reading back a label picture that is not known fails where the device is too old or
/// describes none, where an answer is a failure or no part that was asked for, where the
/// bytes have another sum, or where the task is another one by then.
pub proof fn law_reading_labels_fails_for_a_reason(
    log: Seq<AnswerView>,
    pos: int,
    state: JsonView,
    known: Option<Seq<char>>,
    crc: Seq<char>,
    size: u64,
)
    requires
        0 <= pos <= log.len(),
        text_of(at(state, "mode"@)) == Some("task"@),
        u64_of(at(state, "mirror_protocol"@)) == Some(1u64),
        text_of(at(state, "labels_crc"@)) == Some(crc),
        encode_utf8(crc).len() == 8,
        u64_of(at(state, "labels_size"@)) == Some(size),
        1 <= size <= 524288,
    ensures
        match labels_mirrored(log, pos, state, known, None) {
            Turn::Failed(m, k) => {
                let shown = if text_of(at(last_answer(log, k), "mode"@)) == Some("home"@) {
                    at(last_answer(log, k), "task"@)
                } else {
                    Some(last_answer(log, k))
                };
                let back = read_back(
                    log,
                    pos,
                    put(
                        plain_command("task_labels_read"@),
                        "crc32"@,
                        JsonView::Str(crc),
                    ),
                    crc,
                    None,
                    "设备标签分块不匹配"@,
                    size as int,
                    Seq::empty(),
                );
                ||| passed_on(log, pos, m, k)
                ||| answered(log, pos, k) && exists|offset: int|
                    0 <= offset < size && #[trigger] asset_part(
                        last_answer(log, k),
                        crc,
                        None,
                        offset,
                        size - offset,
                    ) is None
                ||| back is Done && crc_hex(back->Done_0) != crc
                ||| answered(log, pos, k) && (shown is None || text_of(at(shown->0, "mode"@))
                    != Some("task"@) || text_of(at(shown->0, "labels_crc"@)) != Some(crc))
            },
            _ => true,
        },
{
    let command = put(
        plain_command("task_labels_read"@),
        "crc32"@,
        JsonView::Str(crc),
    );
    lemma_reading_ends(
        log,
        pos,
        command,
        crc,
        None,
        "设备标签分块不匹配"@,
        size as int,
        Seq::empty(),
    );
    law_read_back_length(
        log,
        pos,
        command,
        crc,
        None,
        "设备标签分块不匹配"@,
        size as int,
        Seq::empty(),
    );
}

/// Whether an answer is none of the parts that were asked for.
pub open spec fn no_part(reply: JsonView, crc: Seq<char>, page: Option<u64>, size: int) -> bool {
    exists|offset: int|
        0 <= offset < size && #[trigger] asset_part(reply, crc, page, offset, size - offset) is None
}

/// Reading back radar data that are not known fails where an answer is a failure or no
/// part that was asked for, where the bytes have another sum or are no JSON, or where the
/// device shows other data by then.
pub proof fn law_reading_radar_fails_for_a_reason(
    log: Seq<AnswerView>,
    pos: int,
    state: JsonView,
    known: Option<Seq<char>>,
    crc: Seq<char>,
    size: u64,
)
    requires
        0 <= pos <= log.len(),
        u64_of(at(state, "radar_mirror_protocol"@)) == Some(1u64),
        text_of(at(state, "crc32"@)) == Some(crc),
        encode_utf8(crc).len() == 8,
        u64_of(at(state, "radar_size"@)) == Some(size),
        1 <= size <= 8192,
    ensures
        match radar_mirrored(log, pos, state, known) {
            Turn::Failed(m, k) => {
                let back = read_back(
                    log,
                    pos,
                    put(plain_command("radar_read"@), "crc32"@, JsonView::Str(crc)),
                    crc,
                    None,
                    "设备雷达分块不匹配"@,
                    size as int,
                    Seq::empty(),
                );
                ||| passed_on(log, pos, m, k)
                ||| answered(log, pos, k) && no_part(last_answer(log, k), crc, None, size as int)
                ||| back is Done && (crc_hex(back->Done_0) != crc || json_of_bytes(
                    back->Done_0,
                ) is None)
                ||| answered(log, pos, k) && !confirms_radar(last_answer(log, k), crc)
            },
            _ => true,
        },
{
    lemma_reading_ends(
        log,
        pos,
        put(plain_command("radar_read"@), "crc32"@, JsonView::Str(crc)),
        crc,
        None,
        "设备雷达分块不匹配"@,
        size as int,
        Seq::empty(),
    );
}

/// Reading back a picture of a playlist fails where an answer is a failure or no part
/// that was asked for, or where the bytes have another sum.
pub proof fn law_reading_pictures_fails_for_a_reason(
    log: Seq<AnswerView>,
    pos: int,
    state: JsonView,
    known: Option<JsonView>,
    kind: Seq<char>,
    picture: JsonView,
    crc: Seq<char>,
    size: u64,
)
    requires
        0 <= pos <= log.len(),
        at_in(state, "home_images"@, kind) == Some(picture),
        text_of(at(picture, "crc32"@)) == Some(crc),
        u64_of(at(picture, "size"@)) == Some(size),
        1 <= size <= 524288,
    ensures
        match picture_step(log, pos, state, known, kind) {
            Turn::Failed(m, k) => {
                let back = read_back(
                    log,
                    pos,
                    put(
                        put(plain_command("home_asset_read"@), "kind"@, JsonView::Str(kind)),
                        "crc32"@,
                        JsonView::Str(crc),
                    ),
                    crc,
                    None,
                    "轮播图片分块不匹配"@,
                    size as int,
                    Seq::empty(),
                );
                ||| passed_on(log, pos, m, k)
                ||| answered(log, pos, k) && no_part(last_answer(log, k), crc, None, size as int)
                ||| back is Done && crc_hex(back->Done_0) != crc
            },
            _ => true,
        },
{
    lemma_reading_ends(
        log,
        pos,
        put(
            put(plain_command("home_asset_read"@), "kind"@, JsonView::Str(kind)),
            "crc32"@,
            JsonView::Str(crc),
        ),
        crc,
        None,
        "轮播图片分块不匹配"@,
        size as int,
        Seq::empty(),
    );
}

/// Whether one of some pages could not be read: an answer is a failure or no part of it,
/// or the bytes have another sum.
pub open spec fn page_not_read(
    log: Seq<AnswerView>,
    signature: Seq<char>,
    pages: Seq<JsonView>,
    message: Seq<char>,
    end: int,
) -> bool {
    ||| exists|from: int| #[trigger] passed_on(log, from, message, end)
    ||| 0 < end <= log.len() && log[end - 1] is Value && exists|i: int|
        0 <= i < pages.len() && no_part(
            last_answer(log, end),
            text_of(at(#[trigger] pages[i], "crc32"@))->0,
            Some((i + 1) as u64),
            u64_of(at(pages[i], "size"@))->0 as int,
        )
    ||| exists|i: int, from: int|
        0 <= i < pages.len() && (#[trigger] page_bytes(log, from, signature, pages, i) matches
            Turn::Done(data, k) && k == end && Some(crc_hex(data)) != text_of(
            at(pages[i], "crc32"@),
        ))
}

/// The bytes of one of some pages, read from an answer on.
pub open spec fn page_bytes(
    log: Seq<AnswerView>,
    from: int,
    signature: Seq<char>,
    pages: Seq<JsonView>,
    i: int,
) -> Turn<Seq<u8>> {
    read_back(
        log,
        from,
        calendar_read(signature, i + 1),
        text_of(at(pages[i], "crc32"@))->0,
        Some((i + 1) as u64),
        "日历回读分块不匹配"@,
        u64_of(at(pages[i], "size"@))->0 as int,
        Seq::empty(),
    )
}

proof fn lemma_page_reading_ends(
    log: Seq<AnswerView>,
    pos: int,
    signature: Seq<char>,
    pages: Seq<JsonView>,
    n: nat,
)
    requires
        0 <= pos <= log.len(),
        n <= pages.len(),
        pages_described(pages),
    ensures
        match pages_read(log, pos, signature, pages.take(n as int)) {
            Turn::Done(_, k) => pos <= k <= log.len(),
            Turn::Failed(m, k) => page_not_read(log, signature, pages, m, k),
            Turn::Ask(_) => true,
        },
    decreases n,
{
    let part = pages.take(n as int);
    if n > 0 {
        let i = n - 1;
        lemma_page_reading_ends(log, pos, signature, pages, i as nat);
        assert(part.drop_last() =~= pages.take(i as int));
        assert(part.last() == pages[i as int]);
        assert(page_meta(pages[i as int]) is Some);
        match pages_read(log, pos, signature, part.drop_last()) {
            Turn::Done(_, k) => {
                let (crc, size) = page_meta(pages[i as int])->0;
                let command = calendar_read(signature, n as int);
                let message = "日历回读分块不匹配"@;
                lemma_reading_ends(
                    log,
                    k,
                    command,
                    crc,
                    Some(n as u64),
                    message,
                    size,
                    Seq::empty(),
                );
                law_read_back_length(
                    log,
                    k,
                    command,
                    crc,
                    Some(n as u64),
                    message,
                    size,
                    Seq::empty(),
                );
                match read_back(
                    log,
                    k,
                    command,
                    crc,
                    Some(n as u64),
                    message,
                    size,
                    Seq::empty(),
                ) {
                    Turn::Done(data, e) => {
                        if crc_hex(data) != crc {
                            assert(page_bytes(log, k, signature, pages, i as int) == Turn::Done(
                                data,
                                e,
                            ));
                        }
                    },
                    Turn::Failed(m, e) => {
                        if passed_on(log, k, m, e) {
                            assert(passed_on(log, k, m, e));
                        } else {
                            assert(no_part(last_answer(log, e), crc, Some(n as u64), size));
                        }
                    },
                    _ => {},
                }
            },
            _ => {},
        }
    }
}

/// Reading back a calendar fails where it has no signature or no good list of pages,
/// where a page cannot be read, where an answer is a failure, or where the device shows
/// another calendar by then.
pub proof fn law_reading_calendar_fails_for_a_reason(
    log: Seq<AnswerView>,
    pos: int,
    state: JsonView,
    known: Option<Seq<char>>,
)
    requires
        0 <= pos <= log.len(),
    ensures
        match calendar_mirrored(log, pos, state, known) {
            Turn::Failed(m, k) => {
                let signature = text_of(at(state, "calendar_signature"@));
                let pages = items_of(at(state, "calendar_pages"@));
                let shown = part_shown(last_answer(log, k), "calendar"@);
                ||| signature is None
                ||| pages is None
                ||| !(1 <= pages->0.len() <= 32)
                ||| !pages_described(pages->0)
                ||| page_not_read(log, signature->0, pages->0, m, k)
                ||| answered(log, pos, k) && (shown is None || text_of(at(shown->0, "mode"@))
                    != Some("calendar"@) || text_of(at(shown->0, "calendar_signature"@))
                    != signature)
                ||| answered(log, pos, k) && shown is Some && !(items_of(
                    at(shown->0, "calendar_pages"@),
                ) is Some && same_sums(
                    items_of(at(shown->0, "calendar_pages"@))->0,
                    pages->0,
                ))
            },
            _ => true,
        },
{
    let signature = text_of(at(state, "calendar_signature"@));
    let pages = items_of(at(state, "calendar_pages"@));
    if signature is Some && pages is Some && pages_described(pages->0) {
        let all = pages->0;
        lemma_page_reading_ends(log, pos, signature->0, all, all.len());
        assert(all.take(all.len() as int) =~= all);
        match pages_read(log, pos, signature->0, all) {
            Turn::Done(_, k) => {
                if k < log.len() && log[k] is Failed {
                    assert(passed_on(log, k, log[k]->Failed_0, k + 1));
                }
            },
            _ => {},
        }
    }
}

/// Whether pages have the same sums as others, one by one.
pub open spec fn same_sums(a: Seq<JsonView>, b: Seq<JsonView>) -> bool {
    a.len() == b.len() && forall|i: int|
        0 <= i < b.len() ==> text_of(at(#[trigger] a[i], "crc32"@)) == text_of(at(b[i], "crc32"@))
}

/// Reading back a playlist fails where the device cannot be read back, where a scene or a
/// picture of it cannot be read, where an answer is a failure, or where the playlist is
/// another one by then, by its name or by what is in it.
pub proof fn law_reading_playlists_fails_for_a_reason(
    log: Seq<AnswerView>,
    pos: int,
    state: JsonView,
    known: KnownView,
)
    requires
        0 <= pos <= log.len(),
        text_of(at(state, "mode"@)) == Some("home"@),
    ensures
        match state_mirrored(log, pos, state, known, None) {
            Turn::Failed(m, k) => {
                let read = playlist_read(
                    log,
                    pos,
                    state,
                    known.labels_crc,
                    known.radar_crc,
                    known.calendar_signature,
                    known.home_crcs,
                );
                ||| u64_of(at(state, "home_protocol"@)) != Some(1u64)
                ||| read is Failed && read->Failed_0 == m && read->Failed_1 == k
                ||| read is Done && at(read->Done_0.state, "home_id"@) is None
                ||| read is Done && passed_on(log, read->Done_1, m, k)
                ||| read is Done && answered(log, read->Done_1, k) && (text_of(
                    at(last_answer(log, k), "mode"@),
                ) != Some("home"@) || !same_option(
                    at(last_answer(log, k), "home_id"@),
                    at(read->Done_0.state, "home_id"@),
                ) || playlist_carried(k, read->Done_0.state, last_answer(log, k)) is Failed)
            },
            _ => true,
        },
{
    law_playlist_is_shown_in_full(log, pos, state, known);
}

/// A playlist counts as started only where the device confirms, under the name that was
/// made up for it, that it shows those very scenes, and the pictures with the sums of
/// those that were sent.
pub proof fn law_started_playlist_was_confirmed(
    log: Seq<AnswerView>,
    pos: int,
    p: PreparedView,
    scaled: Seq<Scaled>,
)
    requires
        0 <= pos <= log.len(),
    ensures
        playlist_started(log, pos, p, scaled) matches Turn::Done(_, k) ==> {
            &&& pos + 2 < k <= log.len()
            &&& log[k - 2] is Text
            &&& log[k - 1] is Value
            &&& text_of(at(last_answer(log, k), "mode"@)) == Some("home"@)
            &&& text_of(at(last_answer(log, k), "home_id"@)) == Some(log[k - 2]->Text_0)
            &&& same_option(at(last_answer(log, k), "home_entries"@), Some(p.entries))
            &&& p.text is Some ==> text_of(picture_sum(last_answer(log, k), "text"@)) == Some(
                crc_hex(p.text->0),
            )
            &&& p.image is Some ==> text_of(picture_sum(last_answer(log, k), "image"@)) == Some(
                crc_hex(p.image->0),
            )
        },
{
    if pos < log.len() && log[pos] is Value {
        let from = pos + 1;
        lemma_picture_forward(log, from, p.text, "home_text"@);
        match picture_uploaded(log, from, p.text, "home_text"@) {
            Turn::Done(_, k1) => {
                lemma_picture_forward(log, k1, p.image, "home_image"@);
                match picture_uploaded(log, k1, p.image, "home_image"@) {
                    Turn::Done(_, k2) => {
                        lemma_calendar_forward(log, k2, p.calendar);
                        match calendar_loaded(log, k2, p.calendar) {
                            Turn::Done(calendar, k3) => {
                                lemma_task_forward(log, k3, p.task);
                                match task_loaded(log, k3, p.task) {
                                    Turn::Done(_, k4) => {
                                        lemma_radar_forward(log, k4, p.radar, scaled);
                                        match radar_loaded(log, k4, p.radar, scaled) {
                                            Turn::Done(radar, k5) => {
                                                lemma_session_confirmed(
                                                    log,
                                                    k5,
                                                    p,
                                                    radar,
                                                    calendar,
                                                );
                                                assert(playlist_loaded(log, from, p, scaled)
                                                    == session_run(log, k5, p, radar, calendar));
                                            },
                                            _ => {},
                                        }
                                    },
                                    _ => {},
                                }
                            },
                            _ => {},
                        }
                    },
                    _ => {},
                }
            },
            _ => {},
        }
    }
}

proof fn lemma_session_confirmed(
    log: Seq<AnswerView>,
    pos: int,
    p: PreparedView,
    radar: Option<JsonView>,
    calendar: Option<JsonView>,
)
    requires
        0 <= pos <= log.len(),
    ensures
        session_run(log, pos, p, radar, calendar) matches Turn::Done(_, k) ==> {
            let reply = last_answer(log, k);
            &&& k == pos + 2 && k <= log.len()
            &&& log[k - 2] is Text
            &&& log[k - 1] is Value
            &&& text_of(at(reply, "mode"@)) == Some("home"@)
            &&& text_of(at(reply, "home_id"@)) == Some(log[k - 2]->Text_0)
            &&& same_option(at(reply, "home_entries"@), Some(p.entries))
            &&& p.text is Some ==> text_of(picture_sum(reply, "text"@)) == Some(crc_hex(p.text->0))
            &&& p.image is Some ==> text_of(picture_sum(reply, "image"@)) == Some(
                crc_hex(p.image->0),
            )
        },
{
    if pos + 1 < log.len() && log[pos] is Text && log[pos + 1] is Value {
        let reply = log[pos + 1]->Value_0;
        lemma_filled_sums(pos + 2, reply, p, radar, calendar);
    }
}

proof fn lemma_filled_sums(
    pos: int,
    result: JsonView,
    p: PreparedView,
    radar: Option<JsonView>,
    calendar: Option<JsonView>,
)
    ensures
        playlist_filled(pos, result, p, radar, calendar) matches Turn::Done(_, k) ==> k == pos && (
        p.text is Some ==> text_of(picture_sum(result, "text"@)) == Some(crc_hex(p.text->0))) && (
        p.image is Some ==> text_of(picture_sum(result, "image"@)) == Some(crc_hex(p.image->0))),
        !(playlist_filled(pos, result, p, radar, calendar) is Ask),
{
    lemma_filled_members();
    let a = labels_added(result, p.task);
    assert(at(a, "home_images"@) == at(result, "home_images"@));
    match radar_added(a, radar) {
        Some(b) => {
            assert(at(b, "home_images"@) == at(a, "home_images"@));
            match calendar_added(b, calendar) {
                Some(c) => {
                    assert(at(c, "home_images"@) == at(b, "home_images"@));
                    match picture_added(c, "text"@, p.text) {
                        Some(d) => {
                            assert(at_in(d, "home_images"@, "image"@) == at_in(
                                c,
                                "home_images"@,
                                "image"@,
                            ));
                        },
                        None => {},
                    }
                },
                None => {},
            }
        },
        None => {},
    }
}

} // verus!
