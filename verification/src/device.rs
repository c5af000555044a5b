//! Running one action on the device, from the handshake to what it shows
//! afterwards.

use vstd::prelude::*;

use crate::actions::{
    calendar_sent, clear_ask, playlist_started, radar_sent, send_calendar, send_radar, start_home,
};
use crate::json::{
    at, bool_of, put, same_text, text_at, text_of, text_under, u64_of, Json, JsonView,
};
use crate::playlist::{known_in, known_of, mirror_state, state_mirrored, with_port};
use crate::preload::{draw_text, playlist_prepared, prepare_home, task_start, text_drawn};
use crate::protocol::{err, ProtocolError};
use crate::radar_data::Scaled;
use crate::script::{
    bytes_turn, failed, halted, pages_turn, stopped, value_end, value_turn, AnswerView, Ask,
    AskView, Halt, Turn,
};
use crate::task::{rgb_value, task_settings, task_values};
use crate::text::glue;
use crate::usb::{
    chosen_port, command, find_holocubic_port, listing, plain_command, upload, HoloCubicUsb,
    PortInfo,
};

verus! {

/// What an action leaves: a state, and the label picture that was uploaded.
#[verifier::ext_equal]
pub struct DoneView {
    pub state: JsonView,
    pub labels: Option<Seq<u8>>,
}

/// What an action ended with.
pub open spec fn done_end(r: Result<(Json, Option<Vec<u8>>), Halt>, pos: int) -> Turn<DoneView> {
    match r {
        Ok((state, labels)) => Turn::Done(
            DoneView {
                state: state@,
                labels: match labels {
                    Some(b) => Some(b@),
                    None => None,
                },
            },
            pos,
        ),
        Err(h) => halted(h, pos),
    }
}

/// An action that leaves a state and no picture.
pub open spec fn plain_done(t: Turn<JsonView>) -> Turn<DoneView> {
    match t {
        Turn::Done(state, pos) => Turn::Done(DoneView { state, labels: None }, pos),
        other => stopped(other),
    }
}

/// A state whose mode is a picture.
pub open spec fn as_picture(t: Turn<JsonView>) -> Turn<JsonView> {
    match t {
        Turn::Done(v, pos) => Turn::Done(put(v, "mode"@, JsonView::Str("image"@)), pos),
        other => other,
    }
}

/// Showing a picture that has to be drawn first.
pub open spec fn frame_shown(log: Seq<AnswerView>, drawn: Turn<Seq<u8>>) -> Turn<JsonView> {
    match drawn {
        Turn::Done(data, k) => as_picture(upload(log, k, data, "frame"@)),
        other => stopped(other),
    }
}

/// Whether the device supports a feature.
pub open spec fn supports(state: JsonView, feature: Seq<char>) -> bool {
    u64_of(at(state, feature)) == Some(1u64)
}

/// Starting a task.
pub open spec fn task_run(
    log: Seq<AnswerView>,
    pos: int,
    settings: Option<JsonView>,
    state: JsonView,
    points: Option<u32>,
) -> Turn<DoneView> {
    if !supports(state, "task_protocol"@) || !supports(state, "mirror_protocol"@) || !supports(
        state,
        "loop_protocol"@,
    ) {
        Turn::Failed("设备程序需要更新：请通过热点上传 main.lua 和 quota_scene.lua"@, pos)
    } else {
        match settings {
            None => Turn::Failed("缺少 settings"@, pos),
            Some(s) => match task_settings(s, points) {
                Err(e) => Turn::Failed(e, pos),
                Ok(v) => match bytes_turn(
                    log,
                    pos,
                    AskView::Labels { title: v.title, footer: v.footer },
                ) {
                    Turn::Done(labels, k) => match upload(log, k, labels, "task_labels"@) {
                        Turn::Done(_, m) => match value_turn(
                            log,
                            m,
                            AskView::Request { command: task_start(s, v), timeout_ms: 8000 },
                        ) {
                            Turn::Done(result, n) => if text_of(at(result, "mode"@)) == Some(
                                "task"@,
                            ) && u64_of(at(result, "bp"@)) == Some(v.points as u64) && bool_of(
                                at(result, "looping"@),
                            ) == bool_of(at(s, "looping"@)) {
                                Turn::Done(DoneView { state: result, labels: Some(labels) }, n)
                            } else {
                                Turn::Failed("设备没有正确应用任务参数"@, n)
                            },
                            other => stopped(other),
                        },
                        other => stopped(other),
                    },
                    other => stopped(other),
                },
            },
        }
    }
}

fn run_task(
    device: &mut HoloCubicUsb,
    settings: Option<&Json>,
    state: &Json,
    points: Option<u32>,
) -> (r: Result<(Json, Option<Vec<u8>>), Halt>)
    ensures
        done_end(r, final(device).pos()) == task_run(
            old(device).log(),
            old(device).pos(),
            crate::json::option_view(settings),
            state@,
            points,
        ),
        final(device).log() == old(device).log(),
        final(device).port() == old(device).port(),
{
    if state.get_u64("task_protocol") != Some(1) || state.get_u64("mirror_protocol") != Some(1)
        || state.get_u64("loop_protocol") != Some(1) {
        return Err(failed("设备程序需要更新：请通过热点上传 main.lua 和 quota_scene.lua"));
    }
    let s = match settings {
        Some(s) => s,
        None => {
            return Err(failed("缺少 settings"));
        },
    };
    let v = match task_values(s, points) {
        Ok(v) => v,
        Err(e) => {
            return Err(failed(e.as_str()));
        },
    };
    let ghost view = v@;
    let looping = match s.get_bool("looping") {
        Some(b) => b,
        None => false,
    };
    let timed = match s.get_bool("timed") {
        Some(b) => b,
        None => true,
    };
    let points = v.points;
    let start = command("task").with("seconds", Json::Uint(v.duration as u64)).with(
        "bp",
        Json::Uint(v.points as u64),
    ).with("timed", Json::Bool(timed)).with("looping", Json::Bool(looping)).with(
        "accent",
        Json::Uint(rgb_value(v.rgb) as u64),
    );
    assert(start@ == task_start(s@, view));
    let labels = device.bytes(Ask::Labels { title: v.title, footer: v.footer })?;
    device.upload_jpeg(labels.as_slice(), "task_labels")?;
    let result = device.request(start, 8000)?;
    if !result.is_str("mode", "task") || result.get_u64("bp") != Some(points as u64)
        || result.get_bool("looping") != Some(looping) {
        return Err(failed("设备没有正确应用任务参数"));
    }
    Ok((result, Some(labels)))
}

/// Sending the radar.
pub open spec fn radar_run(
    log: Seq<AnswerView>,
    pos: int,
    request: JsonView,
    state: JsonView,
    standalone: bool,
    scaled: Seq<Scaled>,
) -> Turn<JsonView> {
    if !supports(state, "radar_protocol"@) || !supports(state, "radar_mirror_protocol"@) {
        Turn::Failed("设备程序需要更新：请上传新版 main.lua 和 radar_scene.lua"@, pos)
    } else {
        match at(request, "snapshot"@) {
            None => Turn::Failed("请等待雷达首次采集完成"@, pos),
            Some(snapshot) => radar_sent(log, pos, snapshot, standalone, scaled),
        }
    }
}

/// Sending the calendar.
pub open spec fn calendar_run(
    log: Seq<AnswerView>,
    pos: int,
    request: JsonView,
    state: JsonView,
    standalone: bool,
) -> Turn<JsonView> {
    if !supports(state, "calendar_protocol"@) {
        Turn::Failed("设备程序需要更新：请上传支持日历的 Lua 程序"@, pos)
    } else {
        match at(request, "calendar_snapshot"@) {
            None => Turn::Failed("请等待首次日历读取完成"@, pos),
            Some(snapshot) => match pages_turn(log, pos, AskView::Pages { snapshot }) {
                Turn::Done(pages, k) => calendar_sent(log, k, snapshot, pages, standalone),
                other => stopped(other),
            },
        }
    }
}

/// Starting a playlist.
pub open spec fn home_run(
    log: Seq<AnswerView>,
    pos: int,
    request: JsonView,
    state: JsonView,
    points: Option<u32>,
    scaled: Seq<Scaled>,
) -> Turn<JsonView> {
    if !supports(state, "home_protocol"@) {
        Turn::Failed("设备程序需要更新：请上传主页轮播 Lua 程序"@, pos)
    } else {
        match playlist_prepared(log, pos, request, points, scaled) {
            Turn::Done(p, k) => playlist_started(log, k, p, scaled),
            other => stopped(other),
        }
    }
}

fn run_radar(
    device: &mut HoloCubicUsb,
    request: &Json,
    state: &Json,
    standalone: bool,
    scaled: &Vec<Scaled>,
) -> (r: Result<Json, Halt>)
    ensures
        value_end(r, final(device).pos()) == radar_run(
            old(device).log(),
            old(device).pos(),
            request@,
            state@,
            standalone,
            scaled@,
        ),
        final(device).log() == old(device).log(),
        final(device).port() == old(device).port(),
{
    if state.get_u64("radar_protocol") != Some(1) || state.get_u64("radar_mirror_protocol") != Some(
        1,
    ) {
        return Err(failed("设备程序需要更新：请上传新版 main.lua 和 radar_scene.lua"));
    }
    match request.get("snapshot") {
        Some(snapshot) => send_radar(device, snapshot, standalone, scaled),
        None => Err(failed("请等待雷达首次采集完成")),
    }
}

fn run_calendar(device: &mut HoloCubicUsb, request: &Json, state: &Json, standalone: bool) -> (r:
    Result<Json, Halt>)
    ensures
        value_end(r, final(device).pos()) == calendar_run(
            old(device).log(),
            old(device).pos(),
            request@,
            state@,
            standalone,
        ),
        final(device).log() == old(device).log(),
        final(device).port() == old(device).port(),
{
    if state.get_u64("calendar_protocol") != Some(1) {
        return Err(failed("设备程序需要更新：请上传支持日历的 Lua 程序"));
    }
    match request.get("calendar_snapshot") {
        Some(snapshot) => {
            let pages = device.pages(Ask::Pages { snapshot: snapshot.clone() })?;
            send_calendar(device, snapshot, &pages, standalone)
        },
        None => Err(failed("请等待首次日历读取完成")),
    }
}

fn run_home(
    device: &mut HoloCubicUsb,
    request: &Json,
    state: &Json,
    points: Option<u32>,
    scaled: &Vec<Scaled>,
) -> (r: Result<Json, Halt>)
    ensures
        value_end(r, final(device).pos()) == home_run(
            old(device).log(),
            old(device).pos(),
            request@,
            state@,
            points,
            scaled@,
        ),
        final(device).log() == old(device).log(),
        final(device).port() == old(device).port(),
{
    if state.get_u64("home_protocol") != Some(1) {
        return Err(failed("设备程序需要更新：请上传主页轮播 Lua 程序"));
    }
    let prepared = prepare_home(device, request, points, scaled)?;
    start_home(device, &prepared, scaled)
}

/// Showing a page of text.
pub open spec fn text_run(log: Seq<AnswerView>, pos: int, settings: Option<JsonView>) -> Turn<
    JsonView,
> {
    match settings {
        None => Turn::Failed("缺少 settings"@, pos),
        Some(s) => frame_shown(log, text_drawn(log, pos, s, "正文不能为空"@)),
    }
}

/// Showing a picture file.
pub open spec fn image_run(log: Seq<AnswerView>, pos: int, settings: Option<JsonView>) -> Turn<
    JsonView,
> {
    match settings {
        None => Turn::Failed("缺少 settings"@, pos),
        Some(s) => frame_shown(
            log,
            bytes_turn(log, pos, AskView::Image { path: text_at(s, "image_path"@, ""@) }),
        ),
    }
}

fn show_frame(device: &mut HoloCubicUsb, data: &[u8]) -> (r: Result<Json, Halt>)
    ensures
        value_end(r, final(device).pos()) == as_picture(
            upload(old(device).log(), old(device).pos(), data@, "frame"@),
        ),
        final(device).log() == old(device).log(),
        final(device).port() == old(device).port(),
{
    let mut r = device.upload_jpeg(data, "frame")?;
    r.insert("mode", Json::text("image"));
    Ok(r)
}

fn run_text(device: &mut HoloCubicUsb, settings: Option<&Json>) -> (r: Result<Json, Halt>)
    ensures
        value_end(r, final(device).pos()) == text_run(
            old(device).log(),
            old(device).pos(),
            crate::json::option_view(settings),
        ),
        final(device).log() == old(device).log(),
        final(device).port() == old(device).port(),
{
    match settings {
        Some(s) => {
            let data = draw_text(device, s, "正文不能为空")?;
            show_frame(device, data.as_slice())
        },
        None => Err(failed("缺少 settings")),
    }
}

fn run_image(device: &mut HoloCubicUsb, settings: Option<&Json>) -> (r: Result<Json, Halt>)
    ensures
        value_end(r, final(device).pos()) == image_run(
            old(device).log(),
            old(device).pos(),
            crate::json::option_view(settings),
        ),
        final(device).log() == old(device).log(),
        final(device).port() == old(device).port(),
{
    match settings {
        Some(s) => {
            let path = text_under(s, "image_path", "").to_owned();
            let data = device.bytes(Ask::Image { path })?;
            show_frame(device, data.as_slice())
        },
        None => Err(failed("缺少 settings")),
    }
}

/// Pausing, resuming or resetting the task.
pub open spec fn control_ask(action: Seq<char>) -> AskView {
    AskView::Request {
        command: put(plain_command("task_control"@), "action"@, JsonView::Str(action)),
        timeout_ms: 4000,
    }
}

/// One action on a device that answered the handshake with `state`.
pub open spec fn action_run(
    log: Seq<AnswerView>,
    pos: int,
    action: Seq<char>,
    request: JsonView,
    state: JsonView,
    points: Option<u32>,
    scaled: Seq<Scaled>,
) -> Turn<DoneView> {
    let settings = at(request, "settings"@);
    if action == "clear"@ {
        plain_done(as_picture(value_turn(log, pos, clear_ask())))
    } else if action == "pause"@ || action == "resume"@ || action == "reset"@ {
        plain_done(value_turn(log, pos, control_ask(action)))
    } else if action == "home_stop"@ {
        plain_done(
            value_turn(
                log,
                pos,
                AskView::Request { command: plain_command("home_stop"@), timeout_ms: 4000 },
            ),
        )
    } else if action == "text"@ {
        plain_done(text_run(log, pos, settings))
    } else if action == "image"@ {
        plain_done(image_run(log, pos, settings))
    } else if action == "task"@ {
        task_run(log, pos, settings, state, points)
    } else if action == "radar_usb"@ || action == "radar_only"@ {
        plain_done(radar_run(log, pos, request, state, action == "radar_only"@, scaled))
    } else if action == "calendar_update"@ || action == "calendar_only"@ {
        plain_done(calendar_run(log, pos, request, state, action == "calendar_only"@))
    } else if action == "home"@ {
        plain_done(home_run(log, pos, request, state, points, scaled))
    } else {
        Turn::Failed("不支持的操作: "@ + action, pos)
    }
}

fn run_action(
    device: &mut HoloCubicUsb,
    action: &str,
    request: &Json,
    state: &Json,
    points: Option<u32>,
    scaled: &Vec<Scaled>,
) -> (r: Result<(Json, Option<Vec<u8>>), Halt>)
    ensures
        done_end(r, final(device).pos()) == action_run(
            old(device).log(),
            old(device).pos(),
            action@,
            request@,
            state@,
            points,
            scaled@,
        ),
        final(device).log() == old(device).log(),
        final(device).port() == old(device).port(),
{
    let settings = request.get("settings");
    if same_text(action, "clear") {
        let mut r = device.request(command("clear"), 3000)?;
        r.insert("mode", Json::text("image"));
        Ok((r, None))
    } else if same_text(action, "pause") || same_text(action, "resume") || same_text(
        action,
        "reset",
    ) {
        let ask = command("task_control").with("action", Json::text(action));
        let r = device.request(ask, 4000)?;
        Ok((r, None))
    } else if same_text(action, "home_stop") {
        let r = device.request(command("home_stop"), 4000)?;
        Ok((r, None))
    } else if same_text(action, "text") {
        let r = run_text(device, settings)?;
        Ok((r, None))
    } else if same_text(action, "image") {
        let r = run_image(device, settings)?;
        Ok((r, None))
    } else if same_text(action, "task") {
        run_task(device, settings, state, points)
    } else if same_text(action, "radar_usb") || same_text(action, "radar_only") {
        let standalone = same_text(action, "radar_only");
        let r = run_radar(device, request, state, standalone, scaled)?;
        Ok((r, None))
    } else if same_text(action, "calendar_update") || same_text(action, "calendar_only") {
        let standalone = same_text(action, "calendar_only");
        let r = run_calendar(device, request, state, standalone)?;
        Ok((r, None))
    } else if same_text(action, "home") {
        let r = run_home(device, request, state, points, scaled)?;
        Ok((r, None))
    } else {
        Err(failed(glue("不支持的操作: ", action).as_str()))
    }
}

/// One action, from the handshake to what the device shows afterwards.
pub open spec fn executed(
    log: Seq<AnswerView>,
    pos: int,
    port: Seq<char>,
    request: JsonView,
    points: Option<u32>,
    scaled: Seq<Scaled>,
) -> Turn<JsonView> {
    match text_of(at(request, "action"@)) {
        None => Turn::Failed("缺少 action"@, pos),
        Some(action) => match value_turn(log, pos, AskView::Ready { timeout_ms: 6000 }) {
            Turn::Done(state, k) => match action_run(
                log,
                k,
                action,
                request,
                state,
                points,
                scaled,
            ) {
                Turn::Done(done, n) => with_port(
                    state_mirrored(log, n, done.state, known_in(request), done.labels),
                    port,
                ),
                other => stopped(other),
            },
            other => stopped(other),
        },
    }
}

/// Runs one action on the device. `points` is what remains of a task in
/// hundredths of a per cent, and `scaled` the scores in the snapshot of the
/// radar as whole numbers.
pub fn execute_device(
    device: &mut HoloCubicUsb,
    request: &Json,
    points: Option<u32>,
    scaled: &Vec<Scaled>,
) -> (r: Result<Json, Halt>)
    ensures
        value_end(r, final(device).pos()) == executed(
            old(device).log(),
            old(device).pos(),
            old(device).port(),
            request@,
            points,
            scaled@,
        ),
        final(device).log() == old(device).log(),
        final(device).port() == old(device).port(),
{
    let action = match request.get_str("action") {
        Some(a) => a,
        None => {
            return Err(failed("缺少 action"));
        },
    };
    let state = device.wait_until_ready(6000)?;
    let (result, labels) = run_action(device, action, request, &state, points, scaled)?;
    let known = known_of(request);
    let mut shown = match &labels {
        Some(data) => mirror_state(device, result, &known, Some(data.as_slice()))?,
        None => mirror_state(device, result, &known, None)?,
    };
    shown.insert("port", Json::text(device.port_name()));
    Ok(shown)
}

/// The port on which an action runs; an action is needed before a port.
pub fn device_port(request: &Json, listed: Result<Vec<PortInfo>, ProtocolError>) -> (r: Result<
    String,
    ProtocolError,
>)
    ensures
        match r {
            Ok(port) => text_of(at(request@, "action"@)) is Some && chosen_port(
                text_of(at(request@, "port"@)),
                listing(listed),
            ) == Ok::<Seq<char>, Seq<char>>(port@),
            Err(e) => if text_of(at(request@, "action"@)) is None {
                e.0@ == "缺少 action"@
            } else {
                chosen_port(text_of(at(request@, "port"@)), listing(listed)) == Err::<
                    Seq<char>,
                    Seq<char>,
                >(e.0@)
            },
        },
{
    if request.get_str("action").is_none() {
        return Err(err("缺少 action"));
    }
    find_holocubic_port(request.get_str("port"), listed)
}

} // verus!
