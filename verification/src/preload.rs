//! Getting a playlist ready: checking what was selected and preparing every
//! scene before anything is sent.

use vstd::prelude::*;

use crate::json::{
    at, copy_member, copy_values, items_of, member, models, put, same_text, text_at, text_under,
    u64_of, Json, JsonView,
};
use crate::protocol::{crc32_hex, crc_hex};
use crate::radar_data::{compact, compacted_json, Scaled};
use crate::readback::{bytes_from_json_array, bytes_of};
use crate::script::{
    byte_lists, bytes_end, bytes_turn, failed, halted, pages_turn, stopped, time_turn, value_end,
    AnswerView, Ask, AskView, Halt, Turn,
};
use crate::task::{
    accent_hex, accent_text, rgb_number, rgb_value, task_settings, task_values, TaskView,
};
use crate::text::{trim, trimmed};
use crate::usb::{command, plain_command, HoloCubicUsb};

verus! {

/// Whether a mode can be part of a playlist.
pub open spec fn playlist_mode(mode: Seq<char>) -> bool {
    mode == "task"@ || mode == "radar"@ || mode == "text"@ || mode == "image"@ || mode
        == "calendar"@
}

/// Whether a mode is among the entries of a playlist.
pub open spec fn selected(entries: Seq<JsonView>, mode: Seq<char>) -> bool {
    exists|i: int| 0 <= i < entries.len() && text_at(#[trigger] entries[i], "mode"@, ""@) == mode
}

/// What is wrong with the first bad entry of a playlist: an unknown mode or one
/// that is there already, or a time that is not from 1 to 3600 seconds.
pub open spec fn entries_fault(entries: Seq<JsonView>) -> Option<Seq<char>>
    decreases entries.len(),
{
    if entries.len() == 0 {
        None
    } else {
        let earlier = entries.drop_last();
        let mode = text_at(entries.last(), "mode"@, ""@);
        match entries_fault(earlier) {
            Some(m) => Some(m),
            None => if !playlist_mode(mode) || selected(earlier, mode) {
                Some("轮播模式无效或重复"@)
            } else {
                match u64_of(at(entries.last(), "seconds"@)) {
                    Some(n) => if 1 <= n <= 3600 {
                        None
                    } else {
                        Some("每个画面的停留时间应为 1～3600 秒"@)
                    },
                    None => Some("每个画面的停留时间应为 1～3600 秒"@),
                }
            },
        }
    }
}

fn is_playlist_mode(mode: &str) -> (r: bool)
    ensures
        r == playlist_mode(mode@),
{
    same_text(mode, "task") || same_text(mode, "radar") || same_text(mode, "text") || same_text(
        mode,
        "image",
    ) || same_text(mode, "calendar")
}

fn is_selected(entries: &Vec<Json>, n: usize, mode: &str) -> (r: bool)
    requires
        n <= entries@.len(),
    ensures
        r == selected(models(entries@).take(n as int), mode@),
{
    let ghost all = models(entries@).take(n as int);
    let mut i: usize = 0;
    while i < n
        invariant
            i <= n <= entries@.len(),
            all == models(entries@).take(n as int),
            forall|k: int| 0 <= k < i ==> text_at(#[trigger] all[k], "mode"@, ""@) != mode@,
        decreases n - i,
    {
        assert(all[i as int] == entries@[i as int]@);
        if same_text(text_under(&entries[i], "mode", ""), mode) {
            return true;
        }
        i += 1;
    }
    false
}

proof fn lemma_fault_stays(entries: Seq<JsonView>, n: int)
    requires
        0 <= n <= entries.len(),
        entries_fault(entries.take(n)) is Some,
    ensures
        entries_fault(entries) == entries_fault(entries.take(n)),
    decreases entries.len() - n,
{
    if n < entries.len() {
        assert(entries.take(n + 1).drop_last() =~= entries.take(n));
        lemma_fault_stays(entries, n + 1);
    } else {
        assert(entries.take(n) =~= entries);
    }
}

/// What is wrong with the entries of a playlist.
pub fn check_entries(entries: &Vec<Json>) -> (r: Option<&'static str>)
    ensures
        match r {
            Some(m) => entries_fault(models(entries@)) == Some(m@),
            None => entries_fault(models(entries@)) is None,
        },
{
    let ghost all = models(entries@);
    let mut i: usize = 0;
    assert(all.take(0) =~= Seq::empty());
    while i < entries.len()
        invariant
            i <= entries@.len(),
            all == models(entries@),
            entries_fault(all.take(i as int)) is None,
        decreases entries@.len() - i,
    {
        proof {
            assert(all.take(i as int + 1).drop_last() =~= all.take(i as int));
            assert(all.take(i as int + 1).last() == entries@[i as int]@);
            if entries_fault(all.take(i as int + 1)) is Some {
                lemma_fault_stays(all, i as int + 1);
            }
        }
        let mode = text_under(&entries[i], "mode", "");
        if !is_playlist_mode(mode) || is_selected(entries, i, mode) {
            return Some("轮播模式无效或重复");
        }
        match entries[i].get_u64("seconds") {
            Some(n) => {
                if n < 1 || n > 3600 {
                    return Some("每个画面的停留时间应为 1～3600 秒");
                }
            },
            None => {
                return Some("每个画面的停留时间应为 1～3600 秒");
            },
        }
        i += 1;
    }
    assert(all.take(all.len() as int) =~= all);
    None
}

/// A playlist that is ready to be sent.
pub struct PreparedHome {
    pub entries: Json,
    pub text: Option<Vec<u8>>,
    pub image: Option<Vec<u8>>,
    /// The command that starts the task, with its label picture.
    pub task: Option<(Json, Vec<u8>)>,
    pub radar: Option<Json>,
    /// The calendar with its pages.
    pub calendar: Option<(Json, Vec<Vec<u8>>)>,
}

#[verifier::ext_equal]
pub struct PreparedView {
    pub entries: JsonView,
    pub text: Option<Seq<u8>>,
    pub image: Option<Seq<u8>>,
    pub task: Option<(JsonView, Seq<u8>)>,
    pub radar: Option<JsonView>,
    pub calendar: Option<(JsonView, Seq<Seq<u8>>)>,
}

/// The contents of bytes that may be missing.
pub open spec fn opt_bytes(v: Option<Vec<u8>>) -> Option<Seq<u8>> {
    match v {
        Some(b) => Some(b@),
        None => None,
    }
}

/// The contents of a command with its picture.
pub open spec fn opt_task(v: Option<(Json, Vec<u8>)>) -> Option<(JsonView, Seq<u8>)> {
    match v {
        Some((j, b)) => Some((j@, b@)),
        None => None,
    }
}

/// The contents of a value that may be missing.
pub open spec fn opt_value(v: Option<Json>) -> Option<JsonView> {
    match v {
        Some(j) => Some(j@),
        None => None,
    }
}

/// The contents of a calendar with its pages.
pub open spec fn opt_calendar(v: Option<(Json, Vec<Vec<u8>>)>) -> Option<(JsonView, Seq<Seq<u8>>)> {
    match v {
        Some((j, p)) => Some((j@, byte_lists(p@))),
        None => None,
    }
}

impl View for PreparedHome {
    type V = PreparedView;

    open spec fn view(&self) -> PreparedView {
        PreparedView {
            entries: self.entries@,
            text: opt_bytes(self.text),
            image: opt_bytes(self.image),
            task: opt_task(self.task),
            radar: opt_value(self.radar),
            calendar: opt_calendar(self.calendar),
        }
    }
}

/// The command that starts a new task.
pub open spec fn task_start(settings: JsonView, v: TaskView) -> JsonView {
    put(
        put(
            put(
                put(
                    put(plain_command("task"@), "seconds"@, JsonView::Int(v.duration)),
                    "bp"@,
                    JsonView::Int(v.points),
                ),
                "timed"@,
                member(settings, "timed"@),
            ),
            "looping"@,
            member(settings, "looping"@),
        ),
        "accent"@,
        JsonView::Int(rgb_number(v.rgb)),
    )
}

/// The command that restores a task as it was saved.
pub open spec fn task_restore(saved: JsonView) -> JsonView {
    put(
        put(
            put(
                put(
                    put(
                        put(plain_command("task"@), "seconds"@, member(saved, "duration"@)),
                        "bp"@,
                        member(saved, "initial_bp"@),
                    ),
                    "timed"@,
                    member(saved, "timed"@),
                ),
                "looping"@,
                member(saved, "looping"@),
            ),
            "accent"@,
            member(saved, "accent"@),
        ),
        "restore"@,
        put(
            put(crate::json::empty_object(), "counter"@, member(saved, "counter"@)),
            "paused"@,
            member(saved, "paused"@),
        ),
    )
}

/// The task of a playlist: the one to be restored, whose label picture must
/// have the sum that was saved, or a new one with labels to be drawn.
pub open spec fn task_prepared(
    log: Seq<AnswerView>,
    pos: int,
    saved: Option<JsonView>,
    settings: JsonView,
    points: Option<u32>,
) -> Turn<(JsonView, Seq<u8>)> {
    match saved {
        Some(old) => match items_of(at(old, "labels"@)) {
            None => Turn::Failed("任务恢复标签 CRC 不匹配"@, pos),
            Some(items) => if crc_hex(bytes_of(items)) == text_at(old, "labels_crc"@, ""@) {
                Turn::Done((task_restore(old), bytes_of(items)), pos)
            } else {
                Turn::Failed("任务恢复标签 CRC 不匹配"@, pos)
            },
        },
        None => match task_settings(settings, points) {
            Err(e) => Turn::Failed(e, pos),
            Ok(v) => match bytes_turn(
                log,
                pos,
                AskView::Labels { title: v.title, footer: v.footer },
            ) {
                Turn::Done(labels, k) => Turn::Done((task_start(settings, v), labels), k),
                other => stopped(other),
            },
        },
    }
}

/// A page of text, drawn.
pub open spec fn text_drawn(
    log: Seq<AnswerView>,
    pos: int,
    settings: JsonView,
    empty: Seq<char>,
) -> Turn<Seq<u8>> {
    let body = text_at(settings, "text_body"@, ""@);
    if trimmed(body).len() == 0 {
        Turn::Failed(empty, pos)
    } else {
        match accent_text(settings) {
            None => Turn::Failed("无效的 RGB 颜色"@, pos),
            Some(accent) => bytes_turn(
                log,
                pos,
                AskView::Text {
                    title: text_at(settings, "text_title"@, ""@),
                    body,
                    footer: text_at(settings, "text_footer"@, "USB DIRECT"@),
                    accent,
                },
            ),
        }
    }
}

/// What a script with a task for a result ended with.
pub open spec fn task_end(r: Result<(Json, Vec<u8>), Halt>, pos: int) -> Turn<(JsonView, Seq<u8>)> {
    match r {
        Ok((j, b)) => Turn::Done((j@, b@), pos),
        Err(h) => halted(h, pos),
    }
}

fn prepare_task(
    device: &mut HoloCubicUsb,
    saved: Option<&Json>,
    settings: &Json,
    points: Option<u32>,
) -> (r: Result<(Json, Vec<u8>), Halt>)
    ensures
        task_end(r, final(device).pos()) == task_prepared(
            old(device).log(),
            old(device).pos(),
            crate::json::option_view(saved),
            settings@,
            points,
        ),
        final(device).log() == old(device).log(),
        final(device).port() == old(device).port(),
{
    match saved {
        Some(old_task) => {
            let labels = match old_task.get("labels") {
                Some(v) => bytes_from_json_array(v),
                None => None,
            };
            match labels {
                None => Err(failed("任务恢复标签 CRC 不匹配")),
                Some(data) => {
                    let known = text_under(old_task, "labels_crc", "");
                    if !same_text(crc32_hex(data.as_slice()).as_str(), known) {
                        return Err(failed("任务恢复标签 CRC 不匹配"));
                    }
                    let restore = Json::object().with(
                        "counter",
                        copy_member(old_task, "counter"),
                    ).with("paused", copy_member(old_task, "paused"));
                    let cmd = command("task").with(
                        "seconds",
                        copy_member(old_task, "duration"),
                    ).with("bp", copy_member(old_task, "initial_bp")).with(
                        "timed",
                        copy_member(old_task, "timed"),
                    ).with("looping", copy_member(old_task, "looping")).with(
                        "accent",
                        copy_member(old_task, "accent"),
                    ).with("restore", restore);
                    Ok((cmd, data))
                },
            }
        },
        None => {
            let v = match task_values(settings, points) {
                Ok(v) => v,
                Err(e) => {
                    return Err(failed(e.as_str()));
                },
            };
            let cmd = command("task").with("seconds", Json::Uint(v.duration as u64)).with(
                "bp",
                Json::Uint(v.points as u64),
            ).with("timed", copy_member(settings, "timed")).with(
                "looping",
                copy_member(settings, "looping"),
            ).with("accent", Json::Uint(rgb_value(v.rgb) as u64));
            assert(cmd@ == task_start(settings@, v@));
            let labels = device.bytes(Ask::Labels { title: v.title, footer: v.footer })?;
            Ok((cmd, labels))
        },
    }
}

/// Draws a page of text.
pub(crate) fn draw_text(device: &mut HoloCubicUsb, settings: &Json, empty: &str) -> (r: Result<
    Vec<u8>,
    Halt,
>)
    ensures
        bytes_end(r, final(device).pos()) == text_drawn(
            old(device).log(),
            old(device).pos(),
            settings@,
            empty@,
        ),
        final(device).log() == old(device).log(),
        final(device).port() == old(device).port(),
{
    let body = text_under(settings, "text_body", "");
    if trim(body).is_empty() {
        return Err(failed(empty));
    }
    let accent = match accent_hex(settings) {
        Some(a) => a,
        None => {
            return Err(failed("无效的 RGB 颜色"));
        },
    };
    device.bytes(
        Ask::Text {
            title: text_under(settings, "text_title", "").to_owned(),
            body: body.to_owned(),
            footer: text_under(settings, "text_footer", "USB DIRECT").to_owned(),
            accent,
        },
    )
}

/// The picture of a playlist, drawn from a file.
pub open spec fn image_drawn(log: Seq<AnswerView>, pos: int, settings: JsonView) -> Turn<Seq<u8>> {
    let path = text_at(settings, "image_path"@, ""@);
    if path.len() == 0 {
        Turn::Failed("请先在图片页面选择图片"@, pos)
    } else {
        bytes_turn(log, pos, AskView::Image { path })
    }
}

/// A radar snapshot, packed at the time that it is now.
pub open spec fn packed(
    log: Seq<AnswerView>,
    pos: int,
    snapshot: JsonView,
    scaled: Seq<Scaled>,
) -> Turn<JsonView> {
    match time_turn(log, pos) {
        Turn::Done(now, k) => match compacted_json(snapshot, now, scaled) {
            Ok(payload) => Turn::Done(payload, k),
            Err(e) => Turn::Failed(e, k),
        },
        other => stopped(other),
    }
}

/// Packs a radar snapshot at the time that it is now.
pub(crate) fn pack_radar(device: &mut HoloCubicUsb, snapshot: &Json, scaled: &Vec<Scaled>) -> (r:
    Result<Json, Halt>)
    ensures
        value_end(r, final(device).pos()) == packed(
            old(device).log(),
            old(device).pos(),
            snapshot@,
            scaled@,
        ),
        final(device).log() == old(device).log(),
        final(device).port() == old(device).port(),
{
    let now: i64 = device.time()?;
    match compact(snapshot, now, scaled) {
        Ok(payload) => Ok(payload),
        Err(e) => Err(failed(e.as_str())),
    }
}

/// The radar of a playlist: a snapshot that can be packed.
pub open spec fn radar_prepared(
    log: Seq<AnswerView>,
    pos: int,
    snapshot: Option<JsonView>,
    scaled: Seq<Scaled>,
) -> Turn<JsonView> {
    match snapshot {
        None => Turn::Failed("请等待雷达首次采集完成"@, pos),
        Some(s) => match packed(log, pos, s, scaled) {
            Turn::Done(_, k) => Turn::Done(s, k),
            other => stopped(other),
        },
    }
}

/// The calendar of a playlist with its pages, drawn.
pub open spec fn calendar_prepared(
    log: Seq<AnswerView>,
    pos: int,
    snapshot: Option<JsonView>,
) -> Turn<(JsonView, Seq<Seq<u8>>)> {
    match snapshot {
        None => Turn::Failed("请等待首次日历读取完成"@, pos),
        Some(s) => match pages_turn(log, pos, AskView::Pages { snapshot: s }) {
            Turn::Done(pages, k) => Turn::Done((s, pages), k),
            other => stopped(other),
        },
    }
}

/// A part of a playlist that is prepared where its mode is selected.
pub open spec fn where_selected<T>(wanted: bool, pos: int, t: Turn<T>) -> Turn<Option<T>> {
    if wanted {
        match t {
            Turn::Done(v, k) => Turn::Done(Some(v), k),
            other => stopped(other),
        }
    } else {
        Turn::Done(None, pos)
    }
}

/// The scenes of a playlist, prepared one after another.
pub open spec fn scenes_prepared(
    log: Seq<AnswerView>,
    pos: int,
    request: JsonView,
    entries: Seq<JsonView>,
    settings: JsonView,
    points: Option<u32>,
    scaled: Seq<Scaled>,
) -> Turn<PreparedView> {
    match where_selected(
        selected(entries, "task"@),
        pos,
        task_prepared(log, pos, at(request, "resume_task"@), settings, points),
    ) {
        Turn::Done(task, k1) => match where_selected(
            selected(entries, "text"@),
            k1,
            text_drawn(log, k1, settings, "文字正文不能为空，请先在文字页面编辑"@),
        ) {
            Turn::Done(text, k2) => match where_selected(
                selected(entries, "image"@),
                k2,
                image_drawn(log, k2, settings),
            ) {
                Turn::Done(image, k3) => match where_selected(
                    selected(entries, "radar"@),
                    k3,
                    radar_prepared(log, k3, at(request, "snapshot"@), scaled),
                ) {
                    Turn::Done(radar, k4) => match where_selected(
                        selected(entries, "calendar"@),
                        k4,
                        calendar_prepared(log, k4, at(request, "calendar_snapshot"@)),
                    ) {
                        Turn::Done(calendar, k5) => Turn::Done(
                            PreparedView {
                                entries: JsonView::Array(entries),
                                text,
                                image,
                                task,
                                radar,
                                calendar,
                            },
                            k5,
                        ),
                        other => stopped(other),
                    },
                    other => stopped(other),
                },
                other => stopped(other),
            },
            other => stopped(other),
        },
        other => stopped(other),
    }
}

/// A playlist, checked and prepared, or what is wrong with it.
pub open spec fn playlist_prepared(
    log: Seq<AnswerView>,
    pos: int,
    request: JsonView,
    points: Option<u32>,
    scaled: Seq<Scaled>,
) -> Turn<PreparedView> {
    match items_of(at(request, "home_entries"@)) {
        None => Turn::Failed("至少勾选一个轮播画面"@, pos),
        Some(entries) => if !(1 <= entries.len() <= 5) {
            Turn::Failed("至少勾选一个轮播画面"@, pos)
        } else {
            match entries_fault(entries) {
                Some(m) => Turn::Failed(m, pos),
                None => match at(request, "settings"@) {
                    None => Turn::Failed("缺少 settings"@, pos),
                    Some(settings) => scenes_prepared(
                        log,
                        pos,
                        request,
                        entries,
                        settings,
                        points,
                        scaled,
                    ),
                },
            }
        },
    }
}

/// What a script with a playlist for a result ended with.
pub open spec fn prepared_end(r: Result<PreparedHome, Halt>, pos: int) -> Turn<PreparedView> {
    match r {
        Ok(p) => Turn::Done(p@, pos),
        Err(h) => halted(h, pos),
    }
}

fn prepare_scenes(
    device: &mut HoloCubicUsb,
    request: &Json,
    entries: &Vec<Json>,
    settings: &Json,
    points: Option<u32>,
    scaled: &Vec<Scaled>,
) -> (r: Result<PreparedHome, Halt>)
    ensures
        prepared_end(r, final(device).pos()) == scenes_prepared(
            old(device).log(),
            old(device).pos(),
            request@,
            models(entries@),
            settings@,
            points,
            scaled@,
        ),
        final(device).log() == old(device).log(),
        final(device).port() == old(device).port(),
{
    let n = entries.len();
    assert(models(entries@).take(n as int) =~= models(entries@));
    let task = if is_selected(entries, n, "task") {
        Some(prepare_task(device, request.get("resume_task"), settings, points)?)
    } else {
        None
    };
    let text = if is_selected(entries, n, "text") {
        Some(draw_text(device, settings, "文字正文不能为空，请先在文字页面编辑")?)
    } else {
        None
    };
    let image = if is_selected(entries, n, "image") {
        let path = text_under(settings, "image_path", "");
        if path.is_empty() {
            return Err(failed("请先在图片页面选择图片"));
        }
        Some(device.bytes(Ask::Image { path: path.to_owned() })?)
    } else {
        None
    };
    let radar = if is_selected(entries, n, "radar") {
        match request.get("snapshot") {
            Some(snapshot) => {
                pack_radar(device, snapshot, scaled)?;
                Some(snapshot.clone())
            },
            None => {
                return Err(failed("请等待雷达首次采集完成"));
            },
        }
    } else {
        None
    };
    let calendar = if is_selected(entries, n, "calendar") {
        match request.get("calendar_snapshot") {
            Some(snapshot) => {
                let pages = device.pages(Ask::Pages { snapshot: snapshot.clone() })?;
                Some((snapshot.clone(), pages))
            },
            None => {
                return Err(failed("请等待首次日历读取完成"));
            },
        }
    } else {
        None
    };
    let list = Json::list(copy_values(entries));
    Ok(PreparedHome { entries: list, text, image, task, radar, calendar })
}

/// Checks a playlist and prepares every scene of it.
pub fn prepare_home(
    device: &mut HoloCubicUsb,
    request: &Json,
    points: Option<u32>,
    scaled: &Vec<Scaled>,
) -> (r: Result<PreparedHome, Halt>)
    ensures
        prepared_end(r, final(device).pos()) == playlist_prepared(
            old(device).log(),
            old(device).pos(),
            request@,
            points,
            scaled@,
        ),
        final(device).log() == old(device).log(),
        final(device).port() == old(device).port(),
{
    let entries = match request.get_array("home_entries") {
        Some(e) => e,
        None => {
            return Err(failed("至少勾选一个轮播画面"));
        },
    };
    assert(models(entries@).len() == entries@.len());
    if entries.len() < 1 || entries.len() > 5 {
        return Err(failed("至少勾选一个轮播画面"));
    }
    match check_entries(entries) {
        Some(m) => {
            return Err(failed(m));
        },
        None => {},
    }
    match request.get("settings") {
        Some(settings) => prepare_scenes(device, request, entries, settings, points, scaled),
        None => Err(failed("缺少 settings")),
    }
}

} // verus!
