//! The hourglass of the device, as the host shows it: one calibrated state that
//! both sides count on from by themselves.

use vstd::prelude::*;

use crate::json::{at, bool_of, models, same_text, text_of, u64_of, without, Json, JsonView};
use crate::outside::{decode_rgba, misfit, picture_of, Rgba};
use crate::text::glue;
use crate::typed::{
    all_fine, fault_view, field_at, field_views, find_field, law_nothing_said_of_good_records,
    name_views, plain_field, record_fault, said, say, say_misfit, try_plain, try_record,
    Field, Plain,
};

verus! {

/// A task as the device confirmed it.
#[derive(Debug)]
pub struct TaskState {
    pub bp: u32,
    pub initial_bp: u32,
    pub timed: bool,
    pub looping: bool,
    pub reset_seconds: u32,
    pub counter: u32,
    pub frames: u64,
    pub paused: bool,
    pub duration: u32,
    pub accent: u32,
    pub labels_crc: String,
}

#[verifier::ext_equal]
pub struct StateView {
    pub bp: int,
    pub initial_bp: int,
    pub timed: bool,
    pub looping: bool,
    pub reset_seconds: int,
    pub counter: int,
    pub frames: int,
    pub paused: bool,
    pub duration: int,
    pub accent: int,
    pub labels_crc: Seq<char>,
}

impl View for TaskState {
    type V = StateView;

    open spec fn view(&self) -> StateView {
        StateView {
            bp: self.bp as int,
            initial_bp: self.initial_bp as int,
            timed: self.timed,
            looping: self.looping,
            reset_seconds: self.reset_seconds as int,
            counter: self.counter as int,
            frames: self.frames as int,
            paused: self.paused,
            duration: self.duration as int,
            accent: self.accent as int,
            labels_crc: self.labels_crc@,
        }
    }
}

impl Clone for TaskState {
    fn clone(&self) -> (r: Self)
        ensures
            r@ == self@,
    {
        TaskState {
            bp: self.bp,
            initial_bp: self.initial_bp,
            timed: self.timed,
            looping: self.looping,
            reset_seconds: self.reset_seconds,
            counter: self.counter,
            frames: self.frames,
            paused: self.paused,
            duration: self.duration,
            accent: self.accent,
            labels_crc: self.labels_crc.clone(),
        }
    }
}

/// The number under a key, where it fits into 32 bits.
pub open spec fn small_at(v: JsonView, key: Seq<char>) -> Option<int> {
    match u64_of(at(v, key)) {
        Some(n) => if n <= u32::MAX {
            Some(n as int)
        } else {
            None
        },
        None => None,
    }
}

/// The number under a key, where it fits into 32 bits.
pub fn get_small(v: &Json, key: &str) -> (r: Option<u32>)
    ensures
        match r {
            Some(n) => small_at(v@, key@) == Some(n as int),
            None => small_at(v@, key@) is None,
        },
{
    match v.get_u64(key) {
        Some(n) => if n <= u32::MAX as u64 {
            Some(n as u32)
        } else {
            None
        },
        None => None,
    }
}

/// The fields of a task state, where all of them are there and of their type.
pub open spec fn state_fields(v: JsonView) -> Option<StateView> {
    match (
        small_at(v, "bp"@),
        small_at(v, "initial_bp"@),
        small_at(v, "reset_seconds"@),
        small_at(v, "counter"@),
        small_at(v, "duration"@),
        small_at(v, "accent"@),
    ) {
        (
            Some(bp),
            Some(initial_bp),
            Some(reset_seconds),
            Some(counter),
            Some(duration),
            Some(accent),
        ) => match (
            bool_of(at(v, "timed"@)),
            bool_of(at(v, "looping"@)),
            bool_of(at(v, "paused"@)),
            u64_of(at(v, "frames"@)),
            text_of(at(v, "labels_crc"@)),
        ) {
            (Some(timed), Some(looping), Some(paused), Some(frames), Some(labels_crc)) => Some(
                StateView {
                    bp,
                    initial_bp,
                    timed,
                    looping,
                    reset_seconds,
                    counter,
                    frames: frames as int,
                    paused,
                    duration,
                    accent,
                    labels_crc,
                },
            ),
            _ => None,
        },
        _ => None,
    }
}

impl StateView {
    /// A state in the range of the device, whose times add up.
    pub open spec fn valid(&self) -> bool {
        &&& self.bp <= 10000
        &&& self.initial_bp <= 10000
        &&& self.accent <= 0xffffff
        &&& 1 <= self.duration <= 604800
        &&& self.reset_seconds <= self.duration
        &&& self.counter == self.duration - self.reset_seconds
        &&& self.looping ==> self.reset_seconds > 0
    }

    /// A state that can be counted on from.
    pub open spec fn runs(&self) -> bool {
        1 <= self.duration && 0 <= self.reset_seconds <= self.duration && 0 <= self.counter
            <= self.duration
    }

    /// Whether the task stands still: paused, or done.
    pub open spec fn frozen(&self) -> bool {
        self.paused || self.reset_seconds == 0
    }

    /// The milliseconds that count: those since the calibration, and no more
    /// than remain of a task that does not start over.
    pub open spec fn elapsed(&self, age_ms: int) -> int {
        if self.looping || age_ms <= self.reset_seconds * 1000 {
            age_ms
        } else {
            self.reset_seconds * 1000
        }
    }

    /// The seconds that have passed of the task, `age_ms` after the calibration.
    pub open spec fn counter_after(&self, age_ms: int) -> int {
        if self.frozen() {
            self.counter
        } else if self.looping {
            (self.counter * 1000 + age_ms) % (self.duration * 1000) / 1000
        } else {
            self.duration - (self.reset_seconds - self.elapsed(age_ms) / 1000)
        }
    }

    /// The seconds that remain of the task, `age_ms` after the calibration.
    pub open spec fn reset_after(&self, age_ms: int) -> int {
        if self.frozen() {
            self.reset_seconds
        } else if self.looping {
            self.duration - self.counter_after(age_ms)
        } else {
            self.reset_seconds - self.elapsed(age_ms) / 1000
        }
    }

    /// The frames of the animation, `age_ms` after the calibration.
    pub open spec fn frames_after(&self, age_ms: int) -> int {
        if self.frozen() {
            self.frames
        } else {
            self.frames + self.elapsed(age_ms) / 50
        }
    }

    /// Whether the percentage has to be worked out anew from the time that remains.
    pub open spec fn rescales(&self, age_ms: int) -> bool {
        !self.frozen() && self.timed && self.elapsed(age_ms) >= 1000
    }

    /// The state `age_ms` after the calibration, where the percentage was worked
    /// out to be `scaled`; it is never more than it was at the start.
    pub open spec fn after(&self, age_ms: int, scaled: int) -> StateView {
        StateView {
            counter: self.counter_after(age_ms),
            reset_seconds: self.reset_after(age_ms),
            frames: self.frames_after(age_ms),
            bp: if !self.rescales(age_ms) {
                self.bp
            } else if scaled <= self.initial_bp {
                scaled
            } else {
                self.initial_bp
            },
            ..*self
        }
    }

    /// The state `age_ms` after the calibration, where `scale` works out the
    /// percentage from the one at the start, the seconds that remain and those
    /// of the whole task.
    pub open spec fn projected(&self, age_ms: int, scale: spec_fn(int, int, int) -> int) -> StateView {
        self.after(age_ms, scale(self.initial_bp, self.reset_after(age_ms), self.duration))
    }

    /// What the badge says.
    pub open spec fn badge(&self) -> Seq<char> {
        if self.paused {
            "PAUSE"@
        } else if self.reset_seconds == 0 {
            "DONE"@
        } else {
            "RUN"@
        }
    }
}

/// What is said of a task state that cannot be read.
pub open spec fn state_fault(v: JsonView) -> Option<Seq<char>> {
    record_fault(
        v,
        "struct TaskState"@,
        seq![
            "bp"@,
            "initial_bp"@,
            "timed"@,
            "looping"@,
            "reset_seconds"@,
            "counter"@,
            "frames"@,
            "paused"@,
            "duration"@,
            "accent"@,
            "labels_crc"@,
        ],
        seq![
            plain_field(field_at(v, "bp"@, 0), Plain::Small),
            plain_field(field_at(v, "initial_bp"@, 1), Plain::Small),
            plain_field(field_at(v, "timed"@, 2), Plain::Flag),
            plain_field(field_at(v, "looping"@, 3), Plain::Flag),
            plain_field(field_at(v, "reset_seconds"@, 4), Plain::Small),
            plain_field(field_at(v, "counter"@, 5), Plain::Small),
            plain_field(field_at(v, "frames"@, 6), Plain::Whole),
            plain_field(field_at(v, "paused"@, 7), Plain::Flag),
            plain_field(field_at(v, "duration"@, 8), Plain::Small),
            plain_field(field_at(v, "accent"@, 9), Plain::Small),
            plain_field(field_at(v, "labels_crc"@, 10), Plain::Text),
        ],
    )
}

/// What is said of a task state that cannot be read.
fn check_state(v: &Json) -> (r: Option<String>)
    ensures
        fault_view(r) == state_fault(v@),
{
    let fields: Vec<Field> = vec![
        try_plain(find_field(v, "bp", 0), Plain::Small),
        try_plain(find_field(v, "initial_bp", 1), Plain::Small),
        try_plain(find_field(v, "timed", 2), Plain::Flag),
        try_plain(find_field(v, "looping", 3), Plain::Flag),
        try_plain(find_field(v, "reset_seconds", 4), Plain::Small),
        try_plain(find_field(v, "counter", 5), Plain::Small),
        try_plain(find_field(v, "frames", 6), Plain::Whole),
        try_plain(find_field(v, "paused", 7), Plain::Flag),
        try_plain(find_field(v, "duration", 8), Plain::Small),
        try_plain(find_field(v, "accent", 9), Plain::Small),
        try_plain(find_field(v, "labels_crc", 10), Plain::Text),
    ];
    assert(field_views(fields@) =~= seq![
        plain_field(field_at(v@, "bp"@, 0), Plain::Small),
        plain_field(field_at(v@, "initial_bp"@, 1), Plain::Small),
        plain_field(field_at(v@, "timed"@, 2), Plain::Flag),
        plain_field(field_at(v@, "looping"@, 3), Plain::Flag),
        plain_field(field_at(v@, "reset_seconds"@, 4), Plain::Small),
        plain_field(field_at(v@, "counter"@, 5), Plain::Small),
        plain_field(field_at(v@, "frames"@, 6), Plain::Whole),
        plain_field(field_at(v@, "paused"@, 7), Plain::Flag),
        plain_field(field_at(v@, "duration"@, 8), Plain::Small),
        plain_field(field_at(v@, "accent"@, 9), Plain::Small),
        plain_field(field_at(v@, "labels_crc"@, 10), Plain::Text),
    ]);
    let names: Vec<&str> = vec![
        "bp",
        "initial_bp",
        "timed",
        "looping",
        "reset_seconds",
        "counter",
        "frames",
        "paused",
        "duration",
        "accent",
        "labels_crc",
    ];
    assert(name_views(names@) =~= seq![
        "bp"@,
        "initial_bp"@,
        "timed"@,
        "looping"@,
        "reset_seconds"@,
        "counter"@,
        "frames"@,
        "paused"@,
        "duration"@,
        "accent"@,
        "labels_crc"@,
    ]);
    try_record(v, "struct TaskState", &names, &fields)
}

/// A state is read just where nothing can be said of it.
pub proof fn law_states_are_refused_for_a_reason(v: JsonView)
    requires
        v is Object,
    ensures
        state_fields(v) is Some <==> state_fault(v) is None,
{
    let fields = seq![
        plain_field(field_at(v, "bp"@, 0), Plain::Small),
        plain_field(field_at(v, "initial_bp"@, 1), Plain::Small),
        plain_field(field_at(v, "timed"@, 2), Plain::Flag),
        plain_field(field_at(v, "looping"@, 3), Plain::Flag),
        plain_field(field_at(v, "reset_seconds"@, 4), Plain::Small),
        plain_field(field_at(v, "counter"@, 5), Plain::Small),
        plain_field(field_at(v, "frames"@, 6), Plain::Whole),
        plain_field(field_at(v, "paused"@, 7), Plain::Flag),
        plain_field(field_at(v, "duration"@, 8), Plain::Small),
        plain_field(field_at(v, "accent"@, 9), Plain::Small),
        plain_field(field_at(v, "labels_crc"@, 10), Plain::Text),
    ];
    let names = seq![
        "bp"@,
        "initial_bp"@,
        "timed"@,
        "looping"@,
        "reset_seconds"@,
        "counter"@,
        "frames"@,
        "paused"@,
        "duration"@,
        "accent"@,
        "labels_crc"@,
    ];
    law_nothing_said_of_good_records(v, "struct TaskState"@, names, fields);
    assert(all_fine(fields) <==> fields[0] is Fine && fields[1] is Fine && fields[2] is Fine
        && fields[3] is Fine && fields[4] is Fine && fields[5] is Fine && fields[6] is Fine
        && fields[7] is Fine && fields[8] is Fine && fields[9] is Fine && fields[10] is Fine);
}

/// What is wrong with a state, first things first.
pub open spec fn state_of(v: JsonView) -> Result<StateView, Seq<char>> {
    if at(v, "initial_bp"@) is None {
        Err("设备程序需更新：缺少本地计时所需的 initial_bp"@)
    } else if at(v, "looping"@) is None {
        Err("设备程序需更新：缺少循环模式状态"@)
    } else {
        match state_fields(v) {
            None => Err("设备画面状态无效："@ + said(state_fault(v))),
            Some(s) => if s.valid() {
                Ok(s)
            } else {
                Err("设备画面状态超出范围"@)
            },
        }
    }
}

impl TaskState {
    fn read(v: &Json) -> (r: Option<Self>)
        ensures
            match r {
                Some(s) => state_fields(v@) == Some(s@),
                None => state_fields(v@) is None,
            },
    {
        match (
            get_small(v, "bp"),
            get_small(v, "initial_bp"),
            get_small(v, "reset_seconds"),
            get_small(v, "counter"),
            get_small(v, "duration"),
            get_small(v, "accent"),
        ) {
            (
                Some(bp),
                Some(initial_bp),
                Some(reset_seconds),
                Some(counter),
                Some(duration),
                Some(accent),
            ) => match (
                v.get_bool("timed"),
                v.get_bool("looping"),
                v.get_bool("paused"),
                v.get_u64("frames"),
                v.get_str("labels_crc"),
            ) {
                (Some(timed), Some(looping), Some(paused), Some(frames), Some(labels_crc)) => Some(
                    TaskState {
                        bp,
                        initial_bp,
                        timed,
                        looping,
                        reset_seconds,
                        counter,
                        frames,
                        paused,
                        duration,
                        accent,
                        labels_crc: labels_crc.to_owned(),
                    },
                ),
                _ => None,
            },
            _ => None,
        }
    }

    /// Reads a state and checks its ranges and times.
    pub fn parse(v: &Json) -> (r: Result<Self, String>)
        ensures
            match r {
                Ok(s) => state_of(v@) == Ok::<StateView, Seq<char>>(s@),
                Err(e) => state_of(v@) == Err::<StateView, Seq<char>>(e@),
            },
    {
        if v.get("initial_bp").is_none() {
            return Err("设备程序需更新：缺少本地计时所需的 initial_bp".to_owned());
        }
        if v.get("looping").is_none() {
            return Err("设备程序需更新：缺少循环模式状态".to_owned());
        }
        let s = match TaskState::read(v) {
            Some(s) => s,
            None => {
                return Err(glue("设备画面状态无效：", say(check_state(v)).as_str()));
            },
        };
        if s.bp > 10000 || s.initial_bp > 10000 || s.accent > 0xffffff || s.duration < 1
            || s.duration > 604800 || s.reset_seconds > s.duration || s.counter != s.duration
            - s.reset_seconds || (s.looping && s.reset_seconds == 0) {
            return Err("设备画面状态超出范围".to_owned());
        }
        Ok(s)
    }

    /// What the badge says: paused, done or running.
    pub fn badge(&self) -> (r: &'static str)
        ensures
            r@ == self@.badge(),
    {
        if self.paused {
            "PAUSE"
        } else if self.reset_seconds == 0 {
            "DONE"
        } else {
            "RUN"
        }
    }

    /// The state `age_ms` after the calibration. Where the percentage follows
    /// the time, `scale` works it out from the percentage at the start, the
    /// seconds that remain and those of the whole task.
    pub fn project<F: Fn(u32, u32, u32) -> u32>(&self, age_ms: u64, scale: F) -> (r: TaskState)
        requires
            self@.runs(),
            self.frames + age_ms / 50 <= u64::MAX,
            forall|initial: u32, rest: u32, whole: u32|
                whole >= 1 && rest <= whole ==> #[trigger] scale.requires((initial, rest, whole)),
        ensures
            projects(*self, age_ms as int, scale, r),
            self@.valid() ==> r@.valid(),
            r@.frames >= self@.frames,
    {
        let mut current = self.clone();
        if self.paused || self.reset_seconds == 0 {
            assert(self@.after(age_ms as int, 0) == current@);
            return current;
        }
        let rest_ms: u64 = self.reset_seconds as u64 * 1000;
        let elapsed: u64 = if self.looping || age_ms <= rest_ms {
            age_ms
        } else {
            rest_ms
        };
        if self.looping {
            let whole: u128 = self.duration as u128 * 1000;
            let phase: u128 = (self.counter as u128 * 1000 + elapsed as u128) % whole;
            assert(phase / 1000 < self.duration);
            current.counter = (phase / 1000) as u32;
            current.reset_seconds = self.duration - current.counter;
        } else {
            assert(elapsed / 1000 <= self.reset_seconds);
            current.reset_seconds = self.reset_seconds - (elapsed / 1000) as u32;
            current.counter = self.duration - current.reset_seconds;
        }
        assert(elapsed / 50 <= age_ms / 50);
        current.frames = self.frames + elapsed / 50;
        let mut scaled: u32 = self.initial_bp;
        if self.timed && elapsed >= 1000 {
            scaled = scale(self.initial_bp, current.reset_seconds, self.duration);
            current.bp = if scaled <= self.initial_bp {
                scaled
            } else {
                self.initial_bp
            };
        }
        assert(self@.after(age_ms as int, scaled as int) == current@);
        current
    }
}

/// Whether a state is what comes of another one `age_ms` after the calibration,
/// where the percentage is one that `scale` can work out.
pub open spec fn projects<F: Fn(u32, u32, u32) -> u32>(
    s: TaskState,
    age_ms: int,
    scale: F,
    r: TaskState,
) -> bool {
    exists|scaled: u32| #[trigger]
        s@.after(age_ms, scaled as int) == r@ && (s@.rescales(age_ms) ==> scale.ensures(
            (s.initial_bp, r.reset_seconds, s.duration),
            scaled,
        ))
}

/// The bytes of an array in which every item is one.
pub open spec fn exact_bytes(v: JsonView) -> Option<Seq<u8>> {
    match v {
        JsonView::Array(items) => if forall|i: int|
            0 <= i < items.len() ==> u64_of(Some(#[trigger] items[i])) is Some && u64_of(
                Some(items[i]),
            )->0 <= 255 {
            Some(Seq::new(items.len(), |i: int| u64_of(Some(items[i]))->0 as u8))
        } else {
            None
        },
        _ => None,
    }
}

/// The bytes of an array in which every item is one.
pub fn read_bytes(v: &Json) -> (r: Option<Vec<u8>>)
    ensures
        match r {
            Some(b) => exact_bytes(v@) == Some(b@),
            None => exact_bytes(v@) is None,
        },
{
    let items = match v.as_array() {
        Some(i) => i,
        None => {
            return None;
        },
    };
    let ghost all = models(items@);
    let mut out: Vec<u8> = Vec::new();
    let mut i: usize = 0;
    while i < items.len()
        invariant
            i <= items@.len(),
            all == models(items@),
            v@ == JsonView::Array(all),
            out@.len() == i,
            forall|k: int|
                0 <= k < i ==> u64_of(Some(#[trigger] all[k])) is Some && u64_of(Some(all[k]))->0
                    <= 255,
            forall|k: int| 0 <= k < i ==> #[trigger] out@[k] == u64_of(Some(all[k]))->0 as u8,
        decreases items@.len() - i,
    {
        assert(all[i as int] == items@[i as int]@);
        match items[i].as_u64() {
            Some(n) => {
                if n > 255 {
                    return None;
                }
                out.push(n as u8);
            },
            None => {
                return None;
            },
        }
        i += 1;
    }
    assert(out@ =~= Seq::new(all.len(), |i: int| u64_of(Some(all[i]))->0 as u8));
    Some(out)
}

/// The last calibrated task, with the label picture of the device and its sum.
#[derive(Debug)]
pub struct Mirror {
    task: Option<TaskState>,
    labels: Option<Rgba>,
    crc: Option<String>,
}

#[verifier::ext_equal]
pub struct MirrorView {
    pub task: Option<StateView>,
    pub labels: Option<(u32, u32, Seq<u8>)>,
    pub crc: Option<Seq<char>>,
}

/// A picture by width, height and pixels.
pub open spec fn rgba_view(p: Rgba) -> (u32, u32, Seq<u8>) {
    (p.width, p.height, p.pixels@)
}

impl View for Mirror {
    type V = MirrorView;

    closed spec fn view(&self) -> MirrorView {
        MirrorView {
            task: match self.task {
                Some(t) => Some(t@),
                None => None,
            },
            labels: match self.labels {
                Some(p) => Some(rgba_view(p)),
                None => None,
            },
            crc: match self.crc {
                Some(c) => Some(c@),
                None => None,
            },
        }
    }
}

/// Nothing is known of the device.
pub open spec fn blank_mirror() -> MirrorView {
    MirrorView { task: None, labels: None, crc: None }
}

/// A mirror that takes over a state, with a label picture where one came. The
/// picture must fill the screen; without one the known picture must be the one
/// that the state names.
pub open spec fn with_state(
    m: MirrorView,
    state: StateView,
    picture: Option<(u32, u32, Seq<u8>)>,
) -> Result<MirrorView, Seq<char>> {
    match picture {
        Some(p) => if p.0 != 320 || p.1 != 240 {
            Err("设备标签不是 320×240"@)
        } else {
            Ok(MirrorView { task: Some(state), labels: Some(p), crc: Some(state.labels_crc) })
        },
        None => if m.labels is Some && m.crc == Some(state.labels_crc) {
            Ok(MirrorView { task: Some(state), ..m })
        } else {
            Err("设备标签尚未完整同步，请重新检测连接"@)
        },
    }
}

/// A mirror that takes over what the device shows.
pub open spec fn mirror_updated(m: MirrorView, v: JsonView) -> Result<MirrorView, Seq<char>> {
    if text_of(at(v, "mode"@)) != Some("task"@) {
        Ok(blank_mirror())
    } else {
        match state_of(v) {
            Err(e) => Err(e),
            Ok(state) => match at(v, "labels"@) {
                None => with_state(m, state, None),
                Some(l) => match exact_bytes(l) {
                    None => Err(misfit(Plain::Bytes, l)),
                    Some(bytes) => match picture_of(bytes) {
                        Err(e) => Err(e),
                        Ok(p) => with_state(m, state, Some(p)),
                    },
                },
            },
        }
    }
}

/// What is left of the answer of the device once its label picture is taken.
pub open spec fn labels_taken(v: JsonView) -> JsonView {
    if text_of(at(v, "mode"@)) != Some("task"@) {
        v
    } else {
        without(v, "labels"@)
    }
}

/// How long a state was under way.
pub open spec fn transport_ms(v: JsonView) -> int {
    match u64_of(at(v, "_transport_ms"@)) {
        Some(n) => n as int,
        None => 0,
    }
}

/// How long a state was under way.
pub fn read_transport_ms(v: &Json) -> (r: u64)
    ensures
        r == transport_ms(v@),
{
    match v.get_u64("_transport_ms") {
        Some(n) => n,
        None => 0,
    }
}

impl Default for Mirror {
    fn default() -> (r: Self)
        ensures
            r@ == blank_mirror(),
    {
        Mirror { task: None, labels: None, crc: None }
    }
}

impl Mirror {
    /// The sum of the label picture that is known.
    pub fn labels_crc(&self) -> (r: Option<&str>)
        ensures
            match r {
                Some(s) => self@.crc == Some(s@),
                None => self@.crc is None,
            },
    {
        match &self.crc {
            Some(c) => Some(c.as_str()),
            None => None,
        }
    }

    /// The label picture that is known.
    pub fn labels(&self) -> (r: Option<&Rgba>)
        ensures
            match r {
                Some(p) => self@.labels == Some(rgba_view(*p)),
                None => self@.labels is None,
            },
    {
        match &self.labels {
            Some(p) => Some(p),
            None => None,
        }
    }

    /// The task as it was calibrated.
    pub fn task(&self) -> (r: Option<&TaskState>)
        ensures
            match r {
                Some(t) => self@.task == Some(t@),
                None => self@.task is None,
            },
    {
        match &self.task {
            Some(t) => Some(t),
            None => None,
        }
    }

    /// The task `age_ms` after the calibration.
    pub fn current_task<F: Fn(u32, u32, u32) -> u32>(&self, age_ms: u64, scale: F) -> (r: Option<
        TaskState,
    >)
        requires
            match self@.task {
                Some(t) => t.runs() && t.frames + age_ms / 50 <= u64::MAX,
                None => true,
            },
            forall|initial: u32, rest: u32, whole: u32|
                whole >= 1 && rest <= whole ==> #[trigger] scale.requires((initial, rest, whole)),
        ensures
            match (r, self@.task) {
                (Some(now), Some(t)) => {
                    &&& exists|scaled: u32| #[trigger]
                        t.after(age_ms as int, scaled as int) == now@ && (t.rescales(age_ms as int)
                            ==> scale.ensures(
                            (t.initial_bp as u32, now.reset_seconds, t.duration as u32),
                            scaled,
                        ))
                    &&& t.valid() ==> now@.valid()
                },
                (None, None) => true,
                _ => false,
            },
    {
        match &self.task {
            Some(t) => Some(t.project(age_ms, scale)),
            None => None,
        }
    }

    /// Takes over a state, with a label picture where one came.
    pub fn accept_state(&mut self, state: TaskState, picture: Option<Rgba>) -> (r: Result<
        (),
        String,
    >)
        ensures
            ({
                let came = match picture {
                    Some(p) => Some(rgba_view(p)),
                    None => None,
                };
                match r {
                    Ok(_) => with_state(old(self)@, state@, came) == Ok::<MirrorView, Seq<char>>(
                        final(self)@,
                    ),
                    Err(e) => with_state(old(self)@, state@, came) == Err::<
                        MirrorView,
                        Seq<char>,
                    >(e@) && final(self)@ == old(self)@,
                }
            }),
    {
        match picture {
            Some(p) => {
                if p.width != 320 || p.height != 240 {
                    return Err("设备标签不是 320×240".to_owned());
                }
                self.crc = Some(state.labels_crc.clone());
                self.labels = Some(p);
            },
            None => {
                let known = match self.labels_crc() {
                    Some(c) => same_text(c, state.labels_crc.as_str()),
                    None => false,
                };
                if !known || self.labels.is_none() {
                    return Err("设备标签尚未完整同步，请重新检测连接".to_owned());
                }
            },
        }
        self.task = Some(state);
        Ok(())
    }

    /// Takes over what the device shows; the label picture is taken out of it.
    pub fn update(&mut self, value: &mut Json) -> (r: Result<(), String>)
        ensures
            match r {
                Ok(_) => mirror_updated(old(self)@, old(value)@) == Ok::<MirrorView, Seq<char>>(
                    final(self)@,
                ) && final(value)@ == labels_taken(old(value)@),
                Err(e) => mirror_updated(old(self)@, old(value)@) == Err::<MirrorView, Seq<char>>(
                    e@,
                ) && final(self)@ == old(self)@ && final(value)@ == if state_of(old(value)@) is Ok {
                    labels_taken(old(value)@)
                } else {
                    old(value)@
                },
            },
    {
        if !value.is_str("mode", "task") {
            *self = Mirror { task: None, labels: None, crc: None };
            return Ok(());
        }
        let state = TaskState::parse(value)?;
        let raw = match value.get("labels") {
            Some(l) => Some(
                match read_bytes(l) {
                    Some(bytes) => Ok(bytes),
                    None => Err(say_misfit(Plain::Bytes, l)),
                },
            ),
            None => None,
        };
        value.remove("labels");
        let picture = match raw {
            None => None,
            Some(Err(e)) => {
                return Err(e);
            },
            Some(Ok(bytes)) => Some(decode_rgba(bytes.as_slice())?),
        };
        self.accept_state(state, picture)
    }

    /// What is said below the picture.
    pub open spec fn caption_of(m: MirrorView, connected: bool, changing: bool) -> Seq<char> {
        if changing {
            "正在更新设备，等待确认…"@
        } else if !connected {
            if m.task is Some {
                "通信未确认 · 按上次参数继续本地运行"@
            } else {
                "连接设备后读取实际沙漏"@
            }
        } else if m.task is Some {
            "本地独立计算 · 无后台查询"@
        } else {
            "设备当前未运行任务沙漏"@
        }
    }

    /// What is said below the picture.
    pub fn caption(&self, connected: bool, changing: bool) -> (r: &'static str)
        ensures
            r@ == Mirror::caption_of(self@, connected, changing),
    {
        if changing {
            "正在更新设备，等待确认…"
        } else if !connected {
            if self.task.is_some() {
                "通信未确认 · 按上次参数继续本地运行"
            } else {
                "连接设备后读取实际沙漏"
            }
        } else if self.task.is_some() {
            "本地独立计算 · 无后台查询"
        } else {
            "设备当前未运行任务沙漏"
        }
    }
}

/// The time that has passed and the time that remains always make the whole.
pub proof fn law_times_add_up(s: StateView, age_ms: int)
    requires
        s.runs(),
        s.counter + s.reset_seconds == s.duration,
        age_ms >= 0,
    ensures
        s.counter_after(age_ms) + s.reset_after(age_ms) == s.duration,
        0 <= s.reset_after(age_ms) <= s.duration,
        0 <= s.counter_after(age_ms) <= s.duration,
{
    if s.looping && !s.frozen() {
        lemma_phase(s.counter * 1000 + age_ms, s.duration);
    }
}

proof fn lemma_phase(ms: int, duration: int)
    requires
        ms >= 0,
        duration >= 1,
    ensures
        0 <= ms % (duration * 1000) / 1000 < duration,
{
    assert(0 <= ms % (duration * 1000) < duration * 1000) by (nonlinear_arith)
        requires
            ms >= 0,
            duration >= 1,
    ;
}

/// A task that is paused or done stands still.
pub proof fn law_frozen_stands_still(s: StateView, age_ms: int)
    requires
        s.frozen(),
    ensures
        s.counter_after(age_ms) == s.counter,
        s.reset_after(age_ms) == s.reset_seconds,
        s.frames_after(age_ms) == s.frames,
        !s.rescales(age_ms),
{
}

/// The time that remains of a task that does not start over never grows, and
/// ends at zero.
pub proof fn law_time_runs_down(s: StateView, sooner: int, later: int)
    requires
        s.runs(),
        !s.looping,
        0 <= sooner <= later,
    ensures
        s.reset_after(later) <= s.reset_after(sooner),
        !s.paused && later >= s.reset_seconds * 1000 ==> s.reset_after(later) == 0,
{
}

/// A task that starts over is, a whole number of rounds later, where it was.
pub proof fn law_rounds_repeat(s: StateView, age_ms: int, rounds: int)
    requires
        s.runs(),
        s.looping,
        age_ms >= 0,
        rounds >= 0,
    ensures
        s.counter_after(age_ms + rounds * (s.duration * 1000)) == s.counter_after(age_ms),
        s.reset_after(age_ms + rounds * (s.duration * 1000)) == s.reset_after(age_ms),
{
    let whole = s.duration * 1000;
    let start = s.counter * 1000 + age_ms;
    assert(start + rounds * whole == whole * rounds + start) by (nonlinear_arith);
    vstd::arithmetic::div_mod::lemma_mod_multiples_vanish(rounds, start, whole);
}

proof fn lemma_second(ms: int, duration: int)
    requires
        ms >= 0,
        ms % 1000 == 0,
        duration >= 1,
    ensures
        ms % (duration * 1000) / 1000 == (ms / 1000) % duration,
        ms % (duration * 1000) % 1000 == 0,
{
    let n = ms / 1000;
    let rounds = n / duration;
    let second = n % duration;
    vstd::arithmetic::div_mod::lemma_fundamental_div_mod(n, duration);
    assert(ms == rounds * (duration * 1000) + second * 1000) by (nonlinear_arith)
        requires
            ms == n * 1000,
            n == duration * rounds + second,
    ;
    assert(0 <= second < duration) by (nonlinear_arith)
        requires
            second == n % duration,
            duration >= 1,
    ;
    vstd::arithmetic::div_mod::lemma_fundamental_div_mod_converse(
        ms,
        duration * 1000,
        rounds,
        second * 1000,
    );
}

/// Projecting a state by some seconds and what comes of it by some more is the
/// same as projecting it by all of them at once: whatever works out the
/// percentage, no error builds up from one projection to the next.
pub proof fn law_projections_compose(
    s: StateView,
    first: int,
    second: int,
    scale: spec_fn(int, int, int) -> int,
)
    requires
        s.valid(),
        s.reset_seconds >= 0,
        first >= 0,
        second >= 0,
    ensures
        s.projected(first * 1000, scale).projected(second * 1000, scale) == s.projected(
            (first + second) * 1000,
            scale,
        ),
{
    let t = s.projected(first * 1000, scale);
    if s.looping && !s.frozen() {
        law_rounds_never_end(s, first * 1000);
        let d = s.duration;
        lemma_second(s.counter * 1000 + first * 1000, d);
        lemma_second(t.counter * 1000 + second * 1000, d);
        lemma_second(s.counter * 1000 + (first + second) * 1000, d);
        vstd::arithmetic::div_mod::lemma_add_mod_noop(s.counter + first, second, d);
        vstd::arithmetic::div_mod::lemma_add_mod_noop((s.counter + first) % d, second, d);
        vstd::arithmetic::div_mod::lemma_mod_twice(s.counter + first, d);
    }
}

/// What `scale` gives, where it gives the same for the same.
spec fn scale_of<F: Fn(u32, u32, u32) -> u32>(scale: F) -> spec_fn(int, int, int) -> int {
    |initial: int, rest: int, whole: int|
        (choose|x: u32| #[trigger]
            scale.ensures((initial as u32, rest as u32, whole as u32), x)) as int
}

/// Whether a calculation gives the same for the same.
pub open spec fn steady<F: Fn(u32, u32, u32) -> u32>(scale: F) -> bool {
    forall|initial: u32, rest: u32, whole: u32, x: u32, y: u32|
        #[trigger] scale.ensures((initial, rest, whole), x) && #[trigger] scale.ensures(
            (initial, rest, whole),
            y,
        ) ==> x == y
}

proof fn lemma_projected<F: Fn(u32, u32, u32) -> u32>(
    s: TaskState,
    age_ms: int,
    scale: F,
    r: TaskState,
)
    requires
        projects(s, age_ms, scale, r),
        steady(scale),
    ensures
        r@ == s@.projected(age_ms, scale_of(scale)),
{
    let scaled = choose|scaled: u32| #[trigger]
        s@.after(age_ms, scaled as int) == r@ && (s@.rescales(age_ms) ==> scale.ensures(
            (s.initial_bp, r.reset_seconds, s.duration),
            scaled,
        ));
    if s@.rescales(age_ms) {
        assert(scale.ensures((s.initial_bp, r.reset_seconds, s.duration), scaled));
        assert(r.reset_seconds == s@.reset_after(age_ms));
        let x = choose|x: u32| scale.ensures((s.initial_bp, r.reset_seconds, s.duration), x);
        assert(scale.ensures((s.initial_bp, r.reset_seconds, s.duration), x));
        assert(x == scaled);
    }
}

/// Projecting a state by some seconds and what came of it by some more gives the
/// state that projecting it by all of them at once gives, whatever works out the
/// percentage, as long as it gives the same for the same.
pub proof fn law_two_projections_are_one<F: Fn(u32, u32, u32) -> u32>(
    s: TaskState,
    first: int,
    second: int,
    scale: F,
    between: TaskState,
    twice: TaskState,
    once: TaskState,
)
    requires
        s@.valid(),
        first >= 0,
        second >= 0,
        steady(scale),
        projects(s, first * 1000, scale, between),
        projects(between, second * 1000, scale, twice),
        projects(s, (first + second) * 1000, scale, once),
    ensures
        twice@ == once@,
{
    lemma_projected(s, first * 1000, scale, between);
    lemma_projected(between, second * 1000, scale, twice);
    lemma_projected(s, (first + second) * 1000, scale, once);
    law_projections_compose(s@, first, second, scale_of(scale));
}

/// A task that starts over never reads zero.
pub proof fn law_rounds_never_end(s: StateView, age_ms: int)
    requires
        s.runs(),
        s.looping,
        !s.frozen(),
        age_ms >= 0,
    ensures
        s.reset_after(age_ms) > 0,
{
    lemma_phase(s.counter * 1000 + age_ms, s.duration);
}

/// A state is what the device says it is, field by field, and it is taken exactly where
/// every field is there and in its range and the times add up to the whole.
pub proof fn law_state_is_what_the_device_says(v: JsonView)
    ensures
        ({
            let whole = |key: Seq<char>| u64_of(at(v, key));
            let small = |key: Seq<char>| u64_of(at(v, key)) is Some && u64_of(at(v, key))->0 <= u32::MAX;
            let good = {
                &&& small("bp"@) && small("initial_bp"@) && small("reset_seconds"@) && small(
                    "counter"@,
                ) && small("duration"@) && small("accent"@)
                &&& whole("frames"@) is Some
                &&& bool_of(at(v, "timed"@)) is Some
                &&& bool_of(at(v, "looping"@)) is Some
                &&& bool_of(at(v, "paused"@)) is Some
                &&& text_of(at(v, "labels_crc"@)) is Some
                &&& whole("bp"@)->0 <= 10000
                &&& whole("initial_bp"@)->0 <= 10000
                &&& whole("accent"@)->0 <= 0xffffff
                &&& 1 <= whole("duration"@)->0 <= 604800
                &&& whole("reset_seconds"@)->0 + whole("counter"@)->0 == whole("duration"@)->0
                &&& bool_of(at(v, "looping"@)) == Some(true) ==> whole("reset_seconds"@)->0 > 0
            };
            &&& state_of(v) is Ok <==> good
            &&& state_of(v) matches Ok(s) ==> {
                &&& s.bp == whole("bp"@)->0
                &&& s.initial_bp == whole("initial_bp"@)->0
                &&& s.reset_seconds == whole("reset_seconds"@)->0
                &&& s.counter == whole("counter"@)->0
                &&& s.duration == whole("duration"@)->0
                &&& s.accent == whole("accent"@)->0
                &&& s.frames == whole("frames"@)->0
                &&& Some(s.timed) == bool_of(at(v, "timed"@))
                &&& Some(s.looping) == bool_of(at(v, "looping"@))
                &&& Some(s.paused) == bool_of(at(v, "paused"@))
                &&& Some(s.labels_crc) == text_of(at(v, "labels_crc"@))
            }
        }),
{
}

/// A task counts the seconds: of one that runs and does not start over, as many are
/// gone as passed since the calibration, and no more than remained; one that starts
/// over goes on from where it stood, round after round; and there are twenty frames to
/// a second for as long as it runs.
pub proof fn law_seconds_are_counted(s: StateView, age_ms: int)
    requires
        s.valid(),
        s.reset_seconds >= 0,
        s.frames >= 0,
        age_ms >= 0,
        !s.paused,
        s.reset_seconds > 0,
    ensures
        !s.looping && age_ms <= 1000 * s.reset_seconds ==> s.reset_after(age_ms) == s.reset_seconds
            - age_ms / 1000 && s.counter_after(age_ms) == s.counter + age_ms / 1000
            && s.frames_after(age_ms) == s.frames + age_ms / 50,
        !s.looping && age_ms >= 1000 * s.reset_seconds ==> s.reset_after(age_ms) == 0
            && s.counter_after(age_ms) == s.duration && s.frames_after(age_ms) == s.frames + 20
            * s.reset_seconds,
        s.looping ==> s.frames_after(age_ms) == s.frames + age_ms / 50,
        s.looping && age_ms < 1000 * s.reset_seconds ==> s.counter_after(age_ms) == s.counter
            + age_ms / 1000 && s.reset_after(age_ms) == s.reset_seconds - age_ms / 1000,
        s.looping && 1000 * s.reset_seconds <= age_ms < 1000 * (s.reset_seconds + s.duration)
            ==> s.counter_after(age_ms) == age_ms / 1000 - s.reset_seconds,
{
    if s.looping {
        let whole = s.duration * 1000;
        let ms = s.counter * 1000 + age_ms;
        if age_ms < 1000 * s.reset_seconds {
            vstd::arithmetic::div_mod::lemma_small_mod(ms as nat, whole as nat);
        } else if age_ms < 1000 * (s.reset_seconds + s.duration) {
            vstd::arithmetic::div_mod::lemma_fundamental_div_mod_converse(ms, whole, 1, ms - whole);
        }
    }
}

/// The percentage of a timed task is worked out anew once a second has passed, and is
/// never more than it was at the start; that of any other task stays as it is. Nothing
/// else of a task changes with the time than where it stands.
pub proof fn law_only_the_clock_moves(s: StateView, age_ms: int, scaled: int)
    requires
        s.valid(),
        s.reset_seconds >= 0,
        age_ms >= 0,
    ensures
        ({
            let t = s.after(age_ms, scaled);
            &&& t.initial_bp == s.initial_bp && t.timed == s.timed && t.looping == s.looping
            &&& t.paused == s.paused && t.duration == s.duration && t.accent == s.accent
            &&& t.labels_crc == s.labels_crc
            &&& t.counter == s.counter_after(age_ms)
            &&& t.reset_seconds == s.reset_after(age_ms)
            &&& t.frames == s.frames_after(age_ms)
            &&& s.timed && !s.paused && s.reset_seconds > 0 && age_ms >= 1000 ==> t.bp == if scaled
                <= s.initial_bp {
                scaled
            } else {
                s.initial_bp
            }
            &&& !s.timed || s.paused || s.reset_seconds == 0 || age_ms < 1000 ==> t.bp == s.bp
        }),
{
}

/// A mirror shows the task that the device confirmed, with the label picture that came
/// along, which must fill the screen, or else with the one that is known by the same
/// sum; where the device shows no task, the mirror shows nothing.
pub proof fn law_mirror_shows_what_was_confirmed(m: MirrorView, v: JsonView)
    ensures
        text_of(at(v, "mode"@)) != Some("task"@) ==> (mirror_updated(m, v) matches Ok(n) && n.task
            is None && n.labels is None && n.crc is None),
        text_of(at(v, "mode"@)) == Some("task"@) ==> (mirror_updated(m, v) matches Ok(n) ==> {
            &&& state_of(v) matches Ok(s) && n.task == Some(s) && n.crc == Some(s.labels_crc)
            &&& n.labels is Some
            &&& at(v, "labels"@) is None ==> n.labels == m.labels && n.crc == m.crc
            &&& at(v, "labels"@) matches Some(l) ==> (exact_bytes(l) matches Some(bytes) && (
            picture_of(bytes) matches Ok(p) && n.labels == Some(p) && p.0 == 320 && p.1 == 240))
        }),
{
}

/// Bytes are read from an array of numbers from 0 to 255 and from nothing else, each
/// number at its own place.
pub proof fn law_bytes_are_the_numbers(v: JsonView)
    ensures
        exact_bytes(v) matches Some(data) ==> {
            &&& v matches JsonView::Array(items)
            &&& items.len() == data.len()
            &&& forall|i: int|
                0 <= i < data.len() ==> u64_of(Some(#[trigger] items[i])) == Some(data[i] as u64)
        },
        v matches JsonView::Array(items) ==> ((forall|i: int|
            0 <= i < items.len() ==> ((#[trigger] items[i]) matches JsonView::Int(n) && 0 <= n <= 255))
            ==> exact_bytes(v) is Some),
{
}

/// A state says how long it was under way, nothing where it does not; and its label
/// picture is taken out of the state of a task and of no other.
pub proof fn law_labels_are_taken_out_of_tasks(v: JsonView, key: Seq<char>)
    ensures
        u64_of(at(v, "_transport_ms"@)) matches Some(n) ==> transport_ms(v) == n,
        u64_of(at(v, "_transport_ms"@)) is None ==> transport_ms(v) == 0,
        at(v, "mode"@) == Some(JsonView::Str("task"@)) ==> at(labels_taken(v), "labels"@) is None,
        at(v, "mode"@) != Some(JsonView::Str("task"@)) ==> labels_taken(v) == v,
        key != "labels"@ ==> at(labels_taken(v), key) == at(v, key),
{
}

/// What is said below the picture goes by what is known: while something changes nothing
/// else is said, and without a connection a task that was known goes on.
pub proof fn law_caption_follows_the_connection(m: MirrorView, connected: bool)
    ensures
        Mirror::caption_of(m, connected, true) == "正在更新设备，等待确认…"@,
        Mirror::caption_of(m, false, false) == if m.task is Some {
            "通信未确认 · 按上次参数继续本地运行"@
        } else {
            "连接设备后读取实际沙漏"@
        },
        Mirror::caption_of(m, true, false) == if m.task is Some {
            "本地独立计算 · 无后台查询"@
        } else {
            "设备当前未运行任务沙漏"@
        },
{
}

} // verus!
