//! The hourglass and its clock.

use holocubic::face::{figures, glass, grains, sand, Mark};
use holocubic::json::{read, Json};
use holocubic::mirror::{Mirror, TaskState};
use holocubic::readback::bytes_json;

fn sample() -> Json {
    read(
        br#"{"bp":7235,"reset_seconds":119,"counter":1,"frames":21,"paused":false,
            "duration":120,"accent":3532799,"labels_crc":"1234abcd","initial_bp":7235,"timed":false,"looping":false}"#,
    )
    .unwrap()
}

fn scale(initial: u32, rest: u32, whole: u32) -> u32 {
    (initial as f32 * (rest as f32 / whole as f32) + 0.5).floor() as u32
}

fn after(state: &TaskState, seconds: u64) -> TaskState {
    state.project(seconds * 1000, scale)
}

fn jpeg() -> Vec<u8> {
    let canvas = holocubic::canvas::Canvas::screen((0, 0, 0));
    holocubic::canvas::encode_jpeg(&canvas).unwrap()
}

#[test]
fn device_state_is_required() {
    let state = TaskState::parse(&sample()).unwrap();
    assert_eq!(state.bp, 7235);
    assert_eq!(state.accent, 0x35e7ff);
    assert_eq!(state.badge(), "RUN");
    let bad = sample().with("counter", Json::Uint(2));
    assert!(TaskState::parse(&bad).is_err());
    assert!(TaskState::parse(&read(br#"{"bp":10000}"#).unwrap()).is_err());
}

#[test]
fn independent_manual_clock_advances_without_connection() {
    let state = TaskState::parse(&sample()).unwrap();
    let current = after(&state, 60);
    assert_eq!(current.reset_seconds, 59);
    assert_eq!(current.counter, 61);
    assert_eq!(current.frames, 1221);
    assert_eq!(current.bp, 7235);
    assert_eq!(state.reset_seconds, 119);
}

#[test]
fn independent_timed_clock_matches_device_formula() {
    let raw = sample().with("timed", Json::Bool(true)).with("bp", Json::Uint(7175));
    let state = TaskState::parse(&raw).unwrap();
    let current = after(&state, 60);
    assert_eq!(current.bp, 3557);
    assert_eq!(current.reset_seconds, 59);
    let done = after(&state, 604800);
    assert_eq!(done.bp, 0);
    assert_eq!(done.reset_seconds, 0);
    assert_eq!(done.counter, 120);
    assert_eq!(done.badge(), "DONE");
}

#[test]
fn looping_restarts_at_boundary_and_handles_multiple_rounds() {
    let mut state = TaskState::parse(&sample()).unwrap();
    state.looping = true;
    state.timed = true;
    let boundary = after(&state, 119);
    assert_eq!(boundary.reset_seconds, 120);
    assert_eq!(boundary.counter, 0);
    assert_eq!(boundary.bp, 7235);
    assert_eq!(boundary.badge(), "RUN");
    let next = after(&state, 360);
    assert_eq!(next.reset_seconds, 119);
    assert_eq!(next.counter, 1);
    assert_eq!(next.bp, 7175);
    state.paused = true;
    assert_eq!(after(&state, 600).counter, 1);
    state.paused = false;
    state.timed = false;
    assert_eq!(after(&state, 360).bp, 7235);
}

#[test]
fn pause_completion_and_recalibration() {
    let mut state = TaskState::parse(&sample()).unwrap();
    state.paused = true;
    let held = after(&state, 60);
    assert_eq!(held.badge(), "PAUSE");
    assert_eq!(held.reset_seconds, 119);
    assert_eq!(held.frames, 21);
    state.paused = false;
    assert_eq!(after(&state, 1).reset_seconds, 118);
    state.reset_seconds = 0;
    state.counter = 120;
    let done = after(&state, 60);
    assert_eq!(done.badge(), "DONE");
    assert_eq!(done.frames, 21);
    state.reset_seconds = 120;
    state.counter = 0;
    let restarted = after(&state, 3);
    assert_eq!(restarted.reset_seconds, 117);
    assert_eq!(restarted.counter, 3);
}

#[test]
fn missing_fields_say_what_to_update() {
    let mut old = sample();
    old.remove("initial_bp");
    assert_eq!(
        TaskState::parse(&old).unwrap_err(),
        "设备程序需更新：缺少本地计时所需的 initial_bp"
    );
    let mut older = sample();
    older.remove("looping");
    assert_eq!(TaskState::parse(&older).unwrap_err(), "设备程序需更新：缺少循环模式状态");
    let odd = sample().with("bp", Json::text("7235"));
    assert_eq!(TaskState::parse(&odd).unwrap_err(), "设备画面状态无效：invalid type: string \"7235\", expected u32");
    let far = sample().with("bp", Json::Uint(10001));
    assert_eq!(TaskState::parse(&far).unwrap_err(), "设备画面状态超出范围");
}

#[test]
fn labels_come_once_and_are_kept() {
    let mut mirror = Mirror::default();
    let state = sample().with("mode", Json::text("task"));
    assert_eq!(
        mirror.update(&mut state.clone()).unwrap_err(),
        "设备标签尚未完整同步，请重新检测连接"
    );
    let mut whole = state.clone().with("labels", bytes_json(&jpeg()));
    mirror.update(&mut whole).unwrap();
    assert!(whole.get("labels").is_none());
    assert_eq!(mirror.labels_crc(), Some("1234abcd"));
    let picture = mirror.labels().unwrap();
    assert_eq!((picture.width, picture.height), (320, 240));
    assert_eq!(picture.pixels.len(), 320 * 240 * 4);
    mirror.update(&mut state.clone()).unwrap();
    assert!(mirror.task().is_some());
    let other = state.with("labels_crc", Json::text("00000000"));
    assert!(mirror.update(&mut other.clone()).is_err());
    mirror.update(&mut read(br#"{"mode":"radar"}"#).unwrap()).unwrap();
    assert!(mirror.labels_crc().is_none());
}

#[test]
fn captions_follow_the_state() {
    let mirror = Mirror::default();
    assert_eq!(mirror.caption(true, true), "正在更新设备，等待确认…");
    assert_eq!(mirror.caption(false, false), "连接设备后读取实际沙漏");
    assert_eq!(mirror.caption(true, false), "设备当前未运行任务沙漏");
}

#[test]
fn figures_of_a_task() {
    let state = TaskState::parse(&sample()).unwrap();
    let texts: Vec<String> = figures(&state)
        .into_iter()
        .chain(glass(&state))
        .filter_map(|m| match m {
            Mark::Label { text, .. } => Some(text),
            _ => None,
        })
        .collect();
    assert_eq!(texts, ["REMAINING", "72.35%", "TIME LEFT", "00:01:59", "ELAPSED 0001", "RUN"]);
    let lengths: Vec<u32> = figures(&state)
        .iter()
        .filter_map(|m| match m {
            Mark::Bar { w, h: 4, .. } => Some(*w),
            _ => None,
        })
        .collect();
    assert_eq!(lengths, [142, 102]);
    let mut empty = TaskState::parse(&sample()).unwrap();
    empty.bp = 0;
    assert_eq!(figures(&empty).len(), 7);
    empty.bp = 1;
    assert!(figures(&empty).iter().any(|m| matches!(m, Mark::Bar { w: 1, h: 4, .. })));
}

/// The rows of sand at a level, in the upper or the lower half of the glass.
fn sand_rows(bp: u32, upper: bool) -> Vec<(u32, u32, u32)> {
    let mut task = TaskState::parse(&sample()).unwrap();
    task.bp = bp;
    let fraction = (bp as f32 / 10000.).sqrt();
    let below = |index: u32, surface: f32| index as f32 * 2. + 1. >= surface;
    let above: Vec<bool> = (0..30).map(|i| below(i, 60. * (1. - fraction))).collect();
    let under: Vec<bool> = (0..30).map(|i| below(i, 60. * fraction)).collect();
    let none = Vec::new();
    let marks = if upper { sand(&task, &above, &none) } else { sand(&task, &none, &under) };
    marks
        .into_iter()
        .map(|m| match m {
            Mark::Bar { x, y, w, h: 2, .. } => (x, y, w),
            other => panic!("{other:?}"),
        })
        .collect()
}

#[test]
fn sand_matches_device_rows() {
    assert!(sand_rows(0, true).is_empty());
    assert!(sand_rows(10000, false).is_empty());
    assert_eq!(sand_rows(10000, true)[0], (42, 66, 76));
    assert_eq!(*sand_rows(0, false).last().unwrap(), (42, 192, 76));
    let rows = sand_rows(7235, true);
    assert!(!rows.iter().any(|row| row.1 == 66));
    assert!(rows.iter().any(|row| row.1 == 86));
}

#[test]
fn grains_fall_while_the_task_runs() {
    let mut task = TaskState::parse(&sample()).unwrap();
    let depth: Vec<u32> = (0..64).map(|n| n / 2).collect();
    let marks = grains(&task, &depth);
    assert_eq!(marks.len(), 7);
    assert!(matches!(marks[0], Mark::Bar { x: 78, y: 152, w: 2, h: 3, color: 0xabf5ff, .. }));
    task.frames = u64::MAX;
    assert_eq!(grains(&task, &depth).len(), 7);
    task.bp = 0;
    assert!(grains(&task, &depth).is_empty());
}

#[test]
fn projections_compose() {
    for (timed, looping, paused) in [
        (false, false, false),
        (true, false, false),
        (true, true, false),
        (true, false, true),
    ] {
        let raw = sample()
            .with("timed", Json::Bool(timed))
            .with("looping", Json::Bool(looping))
            .with("paused", Json::Bool(paused));
        let state = TaskState::parse(&raw).unwrap();
        for (first, second) in [(0, 0), (1, 0), (0, 7), (60, 30), (100, 100), (500, 1)] {
            let twice = after(&after(&state, first), second);
            let once = after(&state, first + second);
            assert_eq!(twice.counter, once.counter);
            assert_eq!(twice.reset_seconds, once.reset_seconds);
            assert_eq!(twice.frames, once.frames);
            assert_eq!(twice.bp, once.bp);
            assert_eq!(once.counter + once.reset_seconds, once.duration);
        }
    }
    let raw = sample().with("timed", Json::Bool(true));
    let state = TaskState::parse(&raw).unwrap();
    assert_eq!(state.project(2000, |_, _, _| 99_999).bp, 7235);
}

#[test]
fn unreadable_states_say_what_is_wrong() {
    let said = |value: &Json| TaskState::parse(value).unwrap_err();
    let odd = sample().with("timed", Json::Uint(1)).with("accent", Json::Int(-1));
    assert_eq!(said(&odd), "设备画面状态无效：invalid value: integer `-1`, expected u32");
    let odd = sample().with("timed", Json::Uint(1));
    assert_eq!(said(&odd), "设备画面状态无效：invalid type: integer `1`, expected a boolean");
    let mut bare = sample();
    bare.remove("frames");
    bare.remove("counter");
    assert_eq!(said(&bare), "设备画面状态无效：missing field `counter`");
    let odd = bare.with("paused", Json::Null);
    assert_eq!(said(&odd), "设备画面状态无效：invalid type: null, expected a boolean");
    let mut labels = sample().with("mode", Json::text("task")).with("labels", Json::text("x"));
    assert_eq!(
        Mirror::default().update(&mut labels).unwrap_err(),
        "invalid type: string \"x\", expected a sequence"
    );
}

#[test]
fn two_projections_are_one() {
    let timed = TaskState::parse(&sample().with("timed", Json::Bool(true))).unwrap();
    let round = sample().with("timed", Json::Bool(true)).with("looping", Json::Bool(true));
    let round = TaskState::parse(&round).unwrap();
    for state in [timed, round] {
        for (first, second) in [(0, 0), (1, 0), (0, 1), (30, 40), (100, 19), (100, 100), (300, 7)] {
            let twice = after(&after(&state, first), second);
            let once = after(&state, first + second);
            assert_eq!(format!("{twice:?}"), format!("{once:?}"));
        }
    }
}
