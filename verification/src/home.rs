//! The playlist: what is selected, and which scene the device shows when.

use vstd::prelude::*;

use crate::json::{
    at, at_in, empty_object, items_of, models, opt_text, option_view, put, put_in, same_text,
    text_at, text_of, u64_of, without, Json, JsonView,
};
use crate::mirror::{exact_bytes, read_bytes, rgba_view};
use crate::model::Mode;
use crate::outside::{decode_rgba, misfit, picture_of, Rgba};
use crate::preload::{entries_fault, playlist_mode, selected};
use crate::tally::{comes_before, precedes};
use crate::text::{glue, hexadecimal, is_short_sum};
use crate::typed::{
    all_fine, fault_view, field_at, field_views, find_field, law_nothing_said_of_good_lists,
    law_nothing_said_of_good_records, list_field, name_views, plain_field, record_fault, said,
    say, say_misfit, try_list, try_plain, try_record, Field, Plain,
};

verus! {

/// The name of a mode on the line; a playlist is not part of itself.
pub open spec fn wire_name(mode: Mode) -> Option<Seq<char>> {
    match mode {
        Mode::Hourglass => Some("task"@),
        Mode::Radar => Some("radar"@),
        Mode::Calendar => Some("calendar"@),
        Mode::Text => Some("text"@),
        Mode::Image => Some("image"@),
        Mode::Home => None,
    }
}

/// The mode that a name on the line stands for.
pub open spec fn mode_of(name: Seq<char>) -> Option<Mode> {
    if name == "task"@ {
        Some(Mode::Hourglass)
    } else if name == "radar"@ {
        Some(Mode::Radar)
    } else if name == "calendar"@ {
        Some(Mode::Calendar)
    } else if name == "text"@ {
        Some(Mode::Text)
    } else if name == "image"@ {
        Some(Mode::Image)
    } else {
        None
    }
}

/// The name of a mode on the line; a playlist is not part of itself.
pub fn protocol_mode(mode: Mode) -> (r: Option<&'static str>)
    ensures
        match r {
            Some(s) => wire_name(mode) == Some(s@),
            None => wire_name(mode) is None,
        },
{
    match mode {
        Mode::Hourglass => Some("task"),
        Mode::Radar => Some("radar"),
        Mode::Calendar => Some("calendar"),
        Mode::Text => Some("text"),
        Mode::Image => Some("image"),
        Mode::Home => None,
    }
}

/// The mode that a name on the line stands for.
pub fn display_mode(name: &str) -> (r: Option<Mode>)
    ensures
        r == mode_of(name@),
{
    if same_text(name, "task") {
        Some(Mode::Hourglass)
    } else if same_text(name, "radar") {
        Some(Mode::Radar)
    } else if same_text(name, "calendar") {
        Some(Mode::Calendar)
    } else if same_text(name, "text") {
        Some(Mode::Text)
    } else if same_text(name, "image") {
        Some(Mode::Image)
    } else {
        None
    }
}

proof fn lemma_names_differ()
    ensures
        "task"@ != "radar"@,
        "task"@ != "calendar"@,
        "task"@ != "text"@,
        "task"@ != "image"@,
        "radar"@ != "calendar"@,
        "radar"@ != "text"@,
        "radar"@ != "image"@,
        "calendar"@ != "text"@,
        "calendar"@ != "image"@,
        "text"@ != "image"@,
        "mode"@ != "seconds"@,
{
    reveal_strlit("task");
    reveal_strlit("radar");
    reveal_strlit("calendar");
    reveal_strlit("text");
    reveal_strlit("image");
    reveal_strlit("mode");
    reveal_strlit("seconds");
    assert("task"@[0] == 't' && "text"@[1] == 'e' && "task"@[1] == 'a');
    assert("radar"@[0] == 'r' && "image"@[0] == 'i' && "text"@[0] == 't');
    assert("mode"@.len() == 4 && "seconds"@.len() == 7);
}

/// Names on the line and modes stand for each other, one for one.
pub proof fn law_names_and_modes_correspond(mode: Mode, name: Seq<char>)
    ensures
        match wire_name(mode) {
            Some(n) => mode_of(n) == Some(mode),
            None => mode == Mode::Home,
        },
        match mode_of(name) {
            Some(m) => wire_name(m) == Some(name),
            None => !playlist_mode(name),
        },
        playlist_mode(name) == (mode_of(name) is Some),
{
    lemma_names_differ();
}

/// A scene that can be selected, and how many seconds it stays.
#[derive(Debug, Clone, Copy)]
pub struct Choice {
    pub mode: Mode,
    pub enabled: bool,
    pub seconds: u32,
}

/// What is selected.
#[derive(Debug)]
pub struct Config {
    pub choices: Vec<Choice>,
}

/// The hourglass and the radar are selected; the other scenes can be.
pub open spec fn default_choices() -> Seq<Choice> {
    seq![
        Choice { mode: Mode::Hourglass, enabled: true, seconds: 15 },
        Choice { mode: Mode::Radar, enabled: true, seconds: 15 },
        Choice { mode: Mode::Text, enabled: false, seconds: 10 },
        Choice { mode: Mode::Calendar, enabled: false, seconds: 15 },
        Choice { mode: Mode::Image, enabled: false, seconds: 10 },
    ]
}

impl Default for Config {
    fn default() -> (r: Self)
        ensures
            r.choices@ == default_choices(),
    {
        let mut choices: Vec<Choice> = Vec::new();
        choices.push(Choice { mode: Mode::Hourglass, enabled: true, seconds: 15 });
        choices.push(Choice { mode: Mode::Radar, enabled: true, seconds: 15 });
        choices.push(Choice { mode: Mode::Text, enabled: false, seconds: 10 });
        choices.push(Choice { mode: Mode::Calendar, enabled: false, seconds: 15 });
        choices.push(Choice { mode: Mode::Image, enabled: false, seconds: 10 });
        Config { choices }
    }
}

/// A scene of a playlist on the line.
pub open spec fn entry_json(name: Seq<char>, seconds: int) -> JsonView {
    put(
        put(empty_object(), "mode"@, JsonView::Str(name)),
        "seconds"@,
        JsonView::Int(seconds),
    )
}

/// The selected scenes, in order, or what is wrong with the first bad one.
pub open spec fn selection(choices: Seq<Choice>) -> Result<Seq<JsonView>, Seq<char>>
    decreases choices.len(),
{
    if choices.len() == 0 {
        Ok(Seq::empty())
    } else {
        let c = choices.last();
        match selection(choices.drop_last()) {
            Err(e) => Err(e),
            Ok(entries) => if !c.enabled {
                Ok(entries)
            } else {
                match wire_name(c.mode) {
                    None => Err("主页不能作为自己的轮播画面"@),
                    Some(name) => if !(1 <= c.seconds <= 3600) || selected(entries, name) {
                        Err("轮播时长应为1～3600秒，画面不能重复"@)
                    } else {
                        Ok(entries.push(entry_json(name, c.seconds as int)))
                    },
                }
            },
        }
    }
}

proof fn lemma_selection_fail(choices: Seq<Choice>, n: int)
    requires
        0 <= n <= choices.len(),
        selection(choices.take(n)) is Err,
    ensures
        selection(choices) == selection(choices.take(n)),
    decreases choices.len() - n,
{
    if n < choices.len() {
        assert(choices.take(n + 1).drop_last() =~= choices.take(n));
        lemma_selection_fail(choices, n + 1);
    } else {
        assert(choices.take(n) =~= choices);
    }
}

/// A playlist that is selected is one that can be started: every scene is
/// known, none is there twice, and every time is from 1 to 3600 seconds.
pub proof fn law_selection_can_be_started(choices: Seq<Choice>)
    ensures
        match selection(choices) {
            Ok(entries) => entries_fault(entries) is None,
            Err(_) => true,
        },
    decreases choices.len(),
{
    if choices.len() > 0 {
        law_selection_can_be_started(choices.drop_last());
        match selection(choices.drop_last()) {
            Ok(entries) => {
                let c = choices.last();
                if c.enabled && wire_name(c.mode) is Some {
                    let name = wire_name(c.mode)->0;
                    let e = entry_json(name, c.seconds as int);
                    lemma_names_differ();
                    assert(at(e, "mode"@) == Some(JsonView::Str(name)));
                    assert(at(e, "seconds"@) == Some(JsonView::Int(c.seconds as int)));
                    assert(entries.push(e).drop_last() =~= entries);
                }
            },
            Err(_) => {},
        }
    }
}

/// Whether a mode is selected.
pub open spec fn wants(choices: Seq<Choice>, mode: Mode) -> bool {
    exists|i: int| 0 <= i < choices.len() && (#[trigger] choices[i]).enabled && choices[i].mode == mode
}

impl Config {
    /// The selected scenes, or why they cannot be a playlist.
    pub fn entries(&self) -> (r: Result<Vec<Json>, String>)
        ensures
            match r {
                Ok(v) => selection(self.choices@) == Ok::<Seq<JsonView>, Seq<char>>(models(v@)) && 1
                    <= v@.len() <= 5 && entries_fault(models(v@)) is None,
                Err(e) => match selection(self.choices@) {
                    Err(m) => e@ == m,
                    Ok(entries) => !(1 <= entries.len() <= 5) && e@ == "请勾选至少一个轮播画面"@,
                },
            },
    {
        let ghost all = self.choices@;
        let mut out: Vec<Json> = Vec::new();
        let mut names: Vec<String> = Vec::new();
        let mut i: usize = 0;
        assert(all.take(0) =~= Seq::empty());
        assert(models(out@) =~= Seq::empty());
        while i < self.choices.len()
            invariant
                i <= self.choices@.len(),
                all == self.choices@,
                selection(all.take(i as int)) == Ok::<Seq<JsonView>, Seq<char>>(models(out@)),
                names@.len() == out@.len(),
                forall|k: int|
                    #![trigger names@[k]]
                    0 <= k < names@.len() ==> text_at(out@[k]@, "mode"@, ""@) == names@[k]@,
            decreases self.choices@.len() - i,
        {
            let c = self.choices[i];
            let ghost before = models(out@);
            proof {
                assert(all.take(i as int + 1).drop_last() =~= all.take(i as int));
                assert(all.take(i as int + 1).last() == c);
                if selection(all.take(i as int + 1)) is Err {
                    lemma_selection_fail(all, i as int + 1);
                }
            }
            if c.enabled {
                let name = match protocol_mode(c.mode) {
                    Some(n) => n,
                    None => {
                        return Err("主页不能作为自己的轮播画面".to_owned());
                    },
                };
                if c.seconds < 1 || c.seconds > 3600 || is_listed(&names, name, &out) {
                    return Err("轮播时长应为1～3600秒，画面不能重复".to_owned());
                }
                let entry = Json::object().with("mode", Json::text(name)).with(
                    "seconds",
                    Json::Uint(c.seconds as u64),
                );
                proof {
                    lemma_names_differ();
                    assert(at(entry@, "mode"@) == Some(JsonView::Str(name@)));
                }
                out.push(entry);
                names.push(name.to_owned());
                assert(models(out@) =~= before.push(entry@));
            }
            i += 1;
        }
        assert(all.take(all.len() as int) =~= all);
        assert(models(out@).len() == out@.len());
        proof {
            law_selection_can_be_started(all);
        }
        if out.len() < 1 || out.len() > 5 {
            return Err("请勾选至少一个轮播画面".to_owned());
        }
        Ok(out)
    }

    fn wants(&self, mode: Mode) -> (r: bool)
        ensures
            r == wants(self.choices@, mode),
    {
        let mut i: usize = 0;
        while i < self.choices.len()
            invariant
                i <= self.choices@.len(),
                forall|k: int|
                    0 <= k < i ==> !((#[trigger] self.choices@[k]).enabled && self.choices@[k].mode
                        == mode),
            decreases self.choices@.len() - i,
        {
            if self.choices[i].enabled && self.choices[i].mode == mode {
                return true;
            }
            i += 1;
        }
        false
    }
}

fn is_listed(names: &Vec<String>, name: &str, list: &Vec<Json>) -> (r: bool)
    requires
        names@.len() == list@.len(),
        forall|k: int|
            #![trigger names@[k]]
            0 <= k < names@.len() ==> text_at(list@[k]@, "mode"@, ""@) == names@[k]@,
    ensures
        r == selected(models(list@), name@),
{
    let ghost all = models(list@);
    let mut i: usize = 0;
    while i < names.len()
        invariant
            i <= names@.len() == list@.len(),
            all == models(list@),
            forall|k: int|
                #![trigger names@[k]]
                0 <= k < names@.len() ==> text_at(list@[k]@, "mode"@, ""@) == names@[k]@,
            forall|k: int| 0 <= k < i ==> text_at(#[trigger] all[k], "mode"@, ""@) != name@,
        decreases names@.len() - i,
    {
        assert(all[i as int] == list@[i as int]@);
        assert(names@[i as int]@ == text_at(list@[i as int]@, "mode"@, ""@));
        if same_text(names[i].as_str(), name) {
            return true;
        }
        i += 1;
    }
    false
}

/// A scene of the playlist that runs, by its name on the line.
#[derive(Debug)]
pub struct Slot {
    pub mode: String,
    pub seconds: u32,
}

#[verifier::ext_equal]
pub struct SlotView {
    pub mode: Seq<char>,
    pub seconds: int,
}

impl View for Slot {
    type V = SlotView;

    open spec fn view(&self) -> SlotView {
        SlotView { mode: self.mode@, seconds: self.seconds as int }
    }
}

/// The scenes as values.
pub open spec fn slot_views(s: Seq<Slot>) -> Seq<SlotView> {
    Seq::new(s.len(), |i: int| s[i]@)
}

/// The playlist that runs, and how far it was when the device said so.
#[derive(Debug)]
pub struct Clock {
    pub home_id: String,
    pub home_entries: Vec<Slot>,
    pub home_elapsed_ms: u64,
    pub home_transition_ms: u64,
}

#[verifier::ext_equal]
pub struct ClockView {
    pub id: Seq<char>,
    pub entries: Seq<SlotView>,
    pub elapsed: int,
    pub transition: int,
}

impl View for Clock {
    type V = ClockView;

    open spec fn view(&self) -> ClockView {
        ClockView {
            id: self.home_id@,
            entries: slot_views(self.home_entries@),
            elapsed: self.home_elapsed_ms as int,
            transition: self.home_transition_ms as int,
        }
    }
}

/// The milliseconds that some scenes take, each with the change to the next.
pub open spec fn span(entries: Seq<SlotView>, transition: int) -> int
    decreases entries.len(),
{
    if entries.len() == 0 {
        0
    } else {
        span(entries.drop_last(), transition) + entries.last().seconds * 1000 + transition
    }
}

impl ClockView {
    /// Every scene is known, none is there twice, and every time is from 1 to
    /// 3600 seconds.
    pub open spec fn scenes_sound(&self) -> bool {
        &&& forall|i: int|
            #![trigger self.entries[i]]
            0 <= i < self.entries.len() ==> mode_of(self.entries[i].mode) is Some && 1
                <= self.entries[i].seconds <= 3600
        &&& forall|i: int, j: int|
            #![trigger self.entries[i], self.entries[j]]
            0 <= i < j < self.entries.len() ==> self.entries[i].mode != self.entries[j].mode
    }

    /// The milliseconds after which the playlist starts over.
    pub open spec fn cycle(&self) -> int {
        span(self.entries, self.transition)
    }

    pub open spec fn valid(&self) -> bool {
        &&& self.scenes_sound()
        &&& 1 <= self.entries.len() <= 5
        &&& self.id.len() == 8
        &&& hexadecimal(self.id)
        &&& self.transition == if self.entries.len() > 1 {
            1200int
        } else {
            0
        }
        &&& 0 <= self.elapsed < self.cycle()
    }

    /// The mode of a scene.
    pub open spec fn mode(&self, i: int) -> Mode {
        mode_of(self.entries[i].mode)->0
    }

    /// What is shown `rest` milliseconds after scene `i` came up: the scene for
    /// its time; then the change to the next scene, of which the first half
    /// still shows this one and the second half the next; then the next scene.
    pub open spec fn scene_from(&self, i: int, rest: int) -> (Mode, Option<int>)
        decreases self.entries.len() - i,
    {
        if i < 0 || i >= self.entries.len() {
            (Mode::Home, None)
        } else {
            let hold = self.entries[i].seconds * 1000;
            if rest < hold {
                (self.mode(i), None)
            } else if rest < hold + self.transition {
                let next = if i + 1 < self.entries.len() {
                    i + 1
                } else {
                    0
                };
                (
                    if 2 * (rest - hold) >= self.transition {
                        self.mode(next)
                    } else {
                        self.mode(i)
                    },
                    Some(rest - hold),
                )
            } else {
                self.scene_from(i + 1, rest - hold - self.transition)
            }
        }
    }

    /// What is shown `age_ms` after the device said how far it was, with how far
    /// the change to the next scene is while one is under way.
    pub open spec fn scene_at(&self, age_ms: int) -> (Mode, Option<int>) {
        self.scene_from(0, (self.elapsed + age_ms) % self.cycle())
    }

    /// The same playlist, `age_ms` later.
    pub open spec fn later(&self, age_ms: int) -> ClockView {
        ClockView { elapsed: (self.elapsed + age_ms) % self.cycle(), ..*self }
    }
}

proof fn lemma_span_positive(entries: Seq<SlotView>, transition: int)
    requires
        0 <= transition,
        forall|i: int| 0 <= i < entries.len() ==> 1 <= (#[trigger] entries[i]).seconds,
    ensures
        span(entries, transition) >= entries.len(),
    decreases entries.len(),
{
    if entries.len() > 0 {
        assert forall|i: int| 0 <= i < entries.drop_last().len() implies 1 <= (
        #[trigger] entries.drop_last()[i]).seconds by {
            assert(entries.drop_last()[i] == entries[i]);
        }
        lemma_span_positive(entries.drop_last(), transition);
        assert(entries.last() == entries[entries.len() - 1]);
    }
}

proof fn lemma_span_bound(entries: Seq<SlotView>, transition: int)
    requires
        0 <= transition <= 1200,
        forall|i: int| 0 <= i < entries.len() ==> 0 <= (#[trigger] entries[i]).seconds <= 3600,
    ensures
        0 <= span(entries, transition) <= entries.len() * 3601200,
    decreases entries.len(),
{
    if entries.len() > 0 {
        assert forall|i: int| 0 <= i < entries.drop_last().len() implies 0 <= (
        #[trigger] entries.drop_last()[i]).seconds <= 3600 by {
            assert(entries.drop_last()[i] == entries[i]);
        }
        lemma_span_bound(entries.drop_last(), transition);
        assert(entries.last() == entries[entries.len() - 1]);
    }
}

proof fn lemma_span_step(entries: Seq<SlotView>, transition: int, i: int)
    requires
        0 <= i < entries.len(),
    ensures
        span(entries.take(i + 1), transition) == span(entries.take(i), transition)
            + entries[i].seconds * 1000 + transition,
{
    assert(entries.take(i + 1).drop_last() =~= entries.take(i));
    assert(entries.take(i + 1).last() == entries[i]);
}

proof fn lemma_scene_reached(c: ClockView, i: int, rest: int)
    requires
        0 <= c.transition,
        0 <= i <= c.entries.len(),
        0 <= rest,
        forall|k: int| 0 <= k < c.entries.len() ==> 1 <= (#[trigger] c.entries[k]).seconds,
    ensures
        c.scene_from(0, span(c.entries.take(i), c.transition) + rest) == c.scene_from(i, rest),
    decreases i,
{
    if i == 0 {
        assert(c.entries.take(0) =~= Seq::empty());
    } else {
        lemma_span_step(c.entries, c.transition, i - 1);
        assert(1 <= c.entries[i - 1].seconds);
        let step = c.entries[i - 1].seconds * 1000 + c.transition;
        lemma_scene_reached(c, i - 1, step + rest);
        assert(c.scene_from(i - 1, step + rest) == c.scene_from(i, rest));
    }
}

/// Every scene is shown for its whole time and then gives way to the next: the
/// first half of the change shows the old scene, the second half the new one,
/// and after the last scene comes the first.
pub proof fn law_every_scene_has_its_time(c: ClockView, i: int, rest: int, age_ms: int)
    requires
        c.valid(),
        0 <= i < c.entries.len(),
        0 <= rest < c.entries[i].seconds * 1000 + c.transition,
        0 <= age_ms,
        (c.elapsed + age_ms) % c.cycle() == span(c.entries.take(i), c.transition) + rest,
    ensures
        ({
            let hold = c.entries[i].seconds * 1000;
            let next = if i + 1 < c.entries.len() {
                i + 1
            } else {
                0
            };
            c.scene_at(age_ms) == if rest < hold {
                (c.mode(i), None)
            } else if 2 * (rest - hold) >= c.transition {
                (c.mode(next), Some(rest - hold))
            } else {
                (c.mode(i), Some(rest - hold))
            }
        }),
{
    lemma_scene_reached(c, i, rest);
}

/// A moment of the cycle always falls into the time of a scene.
pub proof fn law_some_scene_is_shown(c: ClockView, age_ms: int) -> (i: int)
    requires
        c.valid(),
        0 <= age_ms,
    ensures
        0 <= i < c.entries.len(),
        span(c.entries.take(i), c.transition) <= (c.elapsed + age_ms) % c.cycle() < span(
            c.entries.take(i + 1),
            c.transition,
        ),
{
    lemma_span_positive(c.entries, c.transition);
    let phase = (c.elapsed + age_ms) % c.cycle();
    assert(c.entries.take(c.entries.len() as int) =~= c.entries);
    assert(c.entries.take(0) =~= Seq::empty());
    lemma_slot_found(c, phase, 0)
}

proof fn lemma_slot_found(c: ClockView, phase: int, from: int) -> (i: int)
    requires
        0 <= from <= c.entries.len(),
        span(c.entries.take(from), c.transition) <= phase < span(
            c.entries.take(c.entries.len() as int),
            c.transition,
        ),
    ensures
        0 <= i < c.entries.len(),
        span(c.entries.take(i), c.transition) <= phase < span(
            c.entries.take(i + 1),
            c.transition,
        ),
    decreases c.entries.len() - from,
{
    if phase < span(c.entries.take(from + 1), c.transition) && from < c.entries.len() {
        from
    } else {
        lemma_slot_found(c, phase, from + 1)
    }
}

/// The playlist starts over after its cycle, and nothing of the time is lost: a
/// clock that is read later shows the same.
pub proof fn law_playlist_goes_round(c: ClockView, first: int, then: int)
    requires
        c.valid(),
        0 <= first,
        0 <= then,
    ensures
        c.scene_at(first + c.cycle()) == c.scene_at(first),
        c.later(first).valid(),
        c.later(first).scene_at(then) == c.scene_at(first + then),
{
    lemma_span_positive(c.entries, c.transition);
    let m = c.cycle();
    let x = c.elapsed + first;
    vstd::arithmetic::div_mod::lemma_mod_bound(x, m);
    vstd::arithmetic::div_mod::lemma_add_mod_noop(x, m, m);
    vstd::arithmetic::div_mod::lemma_add_mod_noop(x, then, m);
    vstd::arithmetic::div_mod::lemma_add_mod_noop(x % m, then, m);
    vstd::arithmetic::div_mod::lemma_mod_self_0(m);
    vstd::arithmetic::div_mod::lemma_mod_twice(x, m);
    assert((x + m) % m == x % m);
    assert((x % m + then) % m == (x + then) % m);
    let d = c.later(first);
    assert(d.cycle() == m);
    lemma_scene_same(c, d, 0, (x + then) % m);
}

proof fn lemma_scene_same(c: ClockView, d: ClockView, i: int, rest: int)
    requires
        0 <= i,
        c.entries == d.entries,
        c.transition == d.transition,
    ensures
        c.scene_from(i, rest) == d.scene_from(i, rest),
    decreases c.entries.len() - i,
{
    if i < c.entries.len() {
        let hold = c.entries[i].seconds * 1000;
        if rest >= hold + c.transition {
            lemma_scene_same(c, d, i + 1, rest - hold - c.transition);
        }
    }
}

/// A scene, as an object with its fields or as a list of them.
pub open spec fn slot_of(v: JsonView) -> Option<SlotView> {
    let (mode, seconds) = match v {
        JsonView::Array(a) => if a.len() == 2 {
            (Some(a[0]), Some(a[1]))
        } else {
            (None, None)
        },
        _ => (at(v, "mode"@), at(v, "seconds"@)),
    };
    match (text_of(mode), u64_of(seconds)) {
        (Some(mode), Some(n)) => if n <= u32::MAX {
            Some(SlotView { mode, seconds: n as int })
        } else {
            None
        },
        _ => None,
    }
}

/// The scenes, where every one of them can be read.
pub open spec fn slots_of(items: Seq<JsonView>) -> Option<Seq<SlotView>> {
    if forall|i: int| 0 <= i < items.len() ==> slot_of(#[trigger] items[i]) is Some {
        Some(Seq::new(items.len(), |i: int| slot_of(items[i])->0))
    } else {
        None
    }
}

/// The fields of a clock, where all of them are there and of their type.
pub open spec fn clock_fields(v: JsonView) -> Option<ClockView> {
    match (
        text_of(at(v, "home_id"@)),
        items_of(at(v, "home_entries"@)),
        u64_of(at(v, "home_elapsed_ms"@)),
        u64_of(at(v, "home_transition_ms"@)),
    ) {
        (Some(id), Some(items), Some(elapsed), Some(transition)) => match slots_of(items) {
            Some(entries) => Some(
                ClockView { id, entries, elapsed: elapsed as int, transition: transition as int },
            ),
            None => None,
        },
        _ => None,
    }
}

/// What is said of a scene that cannot be read.
pub open spec fn slot_fault(v: JsonView) -> Option<Seq<char>> {
    record_fault(
        v,
        "struct Slot"@,
        seq![
            "mode"@,
            "seconds"@,
        ],
        seq![
            plain_field(field_at(v, "mode"@, 0), Plain::Text),
            plain_field(field_at(v, "seconds"@, 1), Plain::Small),
        ],
    )
}

/// What is said of a scene that cannot be read.
fn check_slot(v: &Json) -> (r: Option<String>)
    ensures
        fault_view(r) == slot_fault(v@),
{
    let fields: Vec<Field> = vec![
        try_plain(find_field(v, "mode", 0), Plain::Text),
        try_plain(find_field(v, "seconds", 1), Plain::Small),
    ];
    assert(field_views(fields@) =~= seq![
        plain_field(field_at(v@, "mode"@, 0), Plain::Text),
        plain_field(field_at(v@, "seconds"@, 1), Plain::Small),
    ]);
    let names: Vec<&str> = vec![
        "mode",
        "seconds",
    ];
    assert(name_views(names@) =~= seq![
        "mode"@,
        "seconds"@,
    ]);
    try_record(v, "struct Slot", &names, &fields)
}

/// What is said of a clock that cannot be read.
pub open spec fn clock_fault(v: JsonView) -> Option<Seq<char>> {
    record_fault(
        v,
        "struct Clock"@,
        seq![
            "home_id"@,
            "home_entries"@,
            "home_elapsed_ms"@,
            "home_transition_ms"@,
        ],
        seq![
            plain_field(field_at(v, "home_id"@, 0), Plain::Text),
            list_field(field_at(v, "home_entries"@, 1), |e: JsonView| slot_fault(e)),
            plain_field(field_at(v, "home_elapsed_ms"@, 2), Plain::Whole),
            plain_field(field_at(v, "home_transition_ms"@, 3), Plain::Whole),
        ],
    )
}

/// What is said of a clock that cannot be read.
fn check_clock(v: &Json) -> (r: Option<String>)
    ensures
        fault_view(r) == clock_fault(v@),
{
    let entries = try_list(find_field(v, "home_entries", 1), check_slot, Ghost(|e: JsonView| slot_fault(e)));
    let fields: Vec<Field> = vec![
        try_plain(find_field(v, "home_id", 0), Plain::Text),
        entries,
        try_plain(find_field(v, "home_elapsed_ms", 2), Plain::Whole),
        try_plain(find_field(v, "home_transition_ms", 3), Plain::Whole),
    ];
    assert(field_views(fields@) =~= seq![
        plain_field(field_at(v@, "home_id"@, 0), Plain::Text),
        list_field(field_at(v@, "home_entries"@, 1), |e: JsonView| slot_fault(e)),
        plain_field(field_at(v@, "home_elapsed_ms"@, 2), Plain::Whole),
        plain_field(field_at(v@, "home_transition_ms"@, 3), Plain::Whole),
    ]);
    let names: Vec<&str> = vec![
        "home_id",
        "home_entries",
        "home_elapsed_ms",
        "home_transition_ms",
    ];
    assert(name_views(names@) =~= seq![
        "home_id"@,
        "home_entries"@,
        "home_elapsed_ms"@,
        "home_transition_ms"@,
    ]);
    try_record(v, "struct Clock", &names, &fields)
}

proof fn lemma_slot_reason(v: JsonView)
    ensures
        slot_of(v) is Some <==> slot_fault(v) is None,
{
    let fields = seq![
        plain_field(field_at(v, "mode"@, 0), Plain::Text),
        plain_field(field_at(v, "seconds"@, 1), Plain::Small),
    ];
    law_nothing_said_of_good_records(v, "struct Slot"@, seq!["mode"@, "seconds"@], fields);
    assert(all_fine(fields) <==> fields[0] is Fine && fields[1] is Fine);
}

/// A clock is read just where nothing can be said of it.
pub proof fn law_clocks_are_refused_for_a_reason(v: JsonView)
    requires
        v is Object,
    ensures
        clock_fields(v) is Some <==> clock_fault(v) is None,
{
    let fields = seq![
        plain_field(field_at(v, "home_id"@, 0), Plain::Text),
        list_field(field_at(v, "home_entries"@, 1), |e: JsonView| slot_fault(e)),
        plain_field(field_at(v, "home_elapsed_ms"@, 2), Plain::Whole),
        plain_field(field_at(v, "home_transition_ms"@, 3), Plain::Whole),
    ];
    let names = seq!["home_id"@, "home_entries"@, "home_elapsed_ms"@, "home_transition_ms"@];
    law_nothing_said_of_good_records(v, "struct Clock"@, names, fields);
    assert(all_fine(fields) <==> fields[0] is Fine && fields[1] is Fine && fields[2] is Fine
        && fields[3] is Fine);
    if let Some(items) = items_of(at(v, "home_entries"@)) {
        law_nothing_said_of_good_lists(items, |e: JsonView| slot_fault(e));
        assert forall|i: int| 0 <= i < items.len() implies (slot_of(#[trigger] items[i]) is Some
            <==> slot_fault(items[i]) is None) by {
            lemma_slot_reason(items[i]);
        }
    }
}

/// The clock that the device sent, or what is wrong with it.
pub open spec fn clock_of(v: JsonView) -> Result<ClockView, Seq<char>> {
    match clock_fields(v) {
        None => Err("轮播状态无效："@ + said(clock_fault(v))),
        Some(c) => if !c.scenes_sound() {
            Err("轮播回执包含无效画面或时长"@)
        } else if !c.valid() {
            Err("轮播时钟回执无效"@)
        } else {
            Ok(c)
        },
    }
}

impl Slot {
    fn read(v: &Json) -> (r: Option<Slot>)
        ensures
            match r {
                Some(s) => slot_of(v@) == Some(s@),
                None => slot_of(v@) is None,
            },
    {
        let fields = match v.as_array() {
            Some(items) => {
                let ghost all = models(items@);
                if items.len() != 2 {
                    return None;
                }
                assert(all[0] == items@[0]@ && all[1] == items@[1]@);
                (items[0].as_str(), items[1].as_u64())
            },
            None => (v.get_str("mode"), v.get_u64("seconds")),
        };
        match fields {
            (Some(mode), Some(n)) => if n <= u32::MAX as u64 {
                Some(Slot { mode: mode.to_owned(), seconds: n as u32 })
            } else {
                None
            },
            _ => None,
        }
    }
}

impl Clock {
    fn read(v: &Json) -> (r: Option<Clock>)
        ensures
            match r {
                Some(c) => clock_fields(v@) == Some(c@),
                None => clock_fields(v@) is None,
            },
    {
        let (id, items, elapsed, transition) = match (
            v.get_str("home_id"),
            v.get_array("home_entries"),
            v.get_u64("home_elapsed_ms"),
            v.get_u64("home_transition_ms"),
        ) {
            (Some(i), Some(a), Some(e), Some(t)) => (i, a, e, t),
            _ => {
                return None;
            },
        };
        let ghost all = models(items@);
        let mut slots: Vec<Slot> = Vec::new();
        let mut i: usize = 0;
        while i < items.len()
            invariant
                i <= items@.len(),
                all == models(items@),
                items_of(at(v@, "home_entries"@)) == Some(all),
                text_of(at(v@, "home_id"@)) is Some,
                u64_of(at(v@, "home_elapsed_ms"@)) is Some,
                u64_of(at(v@, "home_transition_ms"@)) is Some,
                slots@.len() == i,
                forall|k: int|
                    #![trigger all[k]]
                    #![trigger slots@[k]]
                    0 <= k < i ==> slot_of(all[k]) == Some(slots@[k]@),
            decreases items@.len() - i,
        {
            assert(all[i as int] == items@[i as int]@);
            match Slot::read(&items[i]) {
                Some(s) => {
                    slots.push(s);
                },
                None => {
                    return None;
                },
            }
            i += 1;
        }
        assert(slot_views(slots@) =~= Seq::new(all.len(), |i: int| slot_of(all[i])->0));
        Some(
            Clock {
                home_id: id.to_owned(),
                home_entries: slots,
                home_elapsed_ms: elapsed,
                home_transition_ms: transition,
            },
        )
    }

    fn scenes_sound(&self) -> (r: bool)
        ensures
            r == self@.scenes_sound(),
    {
        let ghost all = self@.entries;
        let mut i: usize = 0;
        while i < self.home_entries.len()
            invariant
                i <= self.home_entries@.len(),
                all == self@.entries,
                forall|k: int|
                    #![trigger all[k]]
                    0 <= k < i ==> mode_of(all[k].mode) is Some && 1 <= all[k].seconds <= 3600,
                forall|j: int, k: int|
                    #![trigger all[j], all[k]]
                    0 <= j < k < i ==> all[j].mode != all[k].mode,
            decreases self.home_entries@.len() - i,
        {
            let slot = &self.home_entries[i];
            assert(all[i as int] == slot@);
            if display_mode(&slot.mode).is_none() || slot.seconds < 1 || slot.seconds > 3600 {
                return false;
            }
            let mut j: usize = 0;
            while j < i
                invariant
                    j <= i < self.home_entries@.len(),
                    all == self@.entries,
                    slot@ == all[i as int],
                    forall|k: int| 0 <= k < j ==> (#[trigger] all[k]).mode != slot.mode@,
                decreases i - j,
            {
                assert(all[j as int] == self.home_entries@[j as int]@);
                if same_text(&self.home_entries[j].mode, &slot.mode) {
                    return false;
                }
                j += 1;
            }
            i += 1;
        }
        true
    }

    /// The milliseconds after which the playlist starts over.
    pub fn cycle(&self) -> (r: u64)
        requires
            self@.scenes_sound(),
            self.home_entries@.len() <= 5,
            self.home_transition_ms <= 1200,
        ensures
            r == self@.cycle(),
    {
        let ghost all = self@.entries;
        let mut sum: u64 = 0;
        let mut i: usize = 0;
        assert(all.take(0) =~= Seq::empty());
        while i < self.home_entries.len()
            invariant
                i <= self.home_entries@.len() <= 5,
                all == self@.entries,
                self@.scenes_sound(),
                self.home_transition_ms <= 1200,
                sum == span(all.take(i as int), self.home_transition_ms as int),
                sum <= i * 3601200,
            decreases self.home_entries@.len() - i,
        {
            proof {
                lemma_span_step(all, self.home_transition_ms as int, i as int);
                assert(all[i as int] == self.home_entries@[i as int]@);
                assert(all[i as int].seconds <= 3600);
            }
            sum = sum + (self.home_entries[i].seconds as u64 * 1000 + self.home_transition_ms);
            i += 1;
        }
        assert(all.take(all.len() as int) =~= all);
        sum
    }

    /// Checks the scenes, and then the rest.
    pub fn validate(&self) -> (r: Result<(), String>)
        ensures
            match r {
                Ok(_) => self@.valid(),
                Err(e) => !self@.valid() && e@ == if self@.scenes_sound() {
                    "轮播时钟回执无效"@
                } else {
                    "轮播回执包含无效画面或时长"@
                },
            },
    {
        if !self.scenes_sound() {
            return Err("轮播回执包含无效画面或时长".to_owned());
        }
        let count = self.home_entries.len();
        let transition: u64 = if count > 1 {
            1200
        } else {
            0
        };
        if count < 1 || count > 5 || !is_short_sum(&self.home_id) || self.home_transition_ms
            != transition || self.home_elapsed_ms >= self.cycle() {
            return Err("轮播时钟回执无效".to_owned());
        }
        Ok(())
    }

    /// What is shown `age_ms` after the device said how far it was, with the
    /// milliseconds that the change to the next scene has taken while one is
    /// under way.
    pub fn project(&self, age_ms: u64) -> (r: (Mode, Option<u64>))
        requires
            self@.valid(),
        ensures
            self@.scene_at(age_ms as int).0 == r.0,
            match r.1 {
                Some(n) => self@.scene_at(age_ms as int).1 == Some(n as int),
                None => self@.scene_at(age_ms as int).1 is None,
            },
    {
        let ghost c = self@;
        let transition = self.home_transition_ms;
        let cycle = self.cycle();
        proof {
            lemma_span_positive(c.entries, c.transition);
            lemma_span_bound(c.entries, c.transition);
            assert(c.entries.take(c.entries.len() as int) =~= c.entries);
            assert(c.entries.take(0) =~= Seq::empty());
        }
        let mut rest: u64 = ((self.home_elapsed_ms as u128 + age_ms as u128) % cycle as u128) as u64;
        let ghost phase = rest as int;
        let mut i: usize = 0;
        while i < self.home_entries.len()
            invariant
                i <= self.home_entries@.len(),
                c == self@,
                c.valid(),
                transition == c.transition,
                phase == (c.elapsed + age_ms) % c.cycle(),
                c.entries.take(c.entries.len() as int) == c.entries,
                rest == phase - span(c.entries.take(i as int), c.transition),
                phase < c.cycle(),
                c.scene_at(age_ms as int) == c.scene_from(i as int, rest as int),
            decreases self.home_entries@.len() - i,
        {
            assert(c.entries[i as int] == self.home_entries@[i as int]@);
            let hold = self.home_entries[i].seconds as u64 * 1000;
            if rest < hold {
                return (self.mode(i), None);
            }
            if rest < hold + transition {
                let into = rest - hold;
                let next = if i + 1 < self.home_entries.len() {
                    i + 1
                } else {
                    0
                };
                let shown = if 2 * into >= transition {
                    next
                } else {
                    i
                };
                return (self.mode(shown), Some(into));
            }
            proof {
                lemma_span_step(c.entries, c.transition, i as int);
            }
            rest = rest - hold - transition;
            i += 1;
        }
        assert(false);
        (Mode::Home, None)
    }

    fn mode(&self, i: usize) -> (r: Mode)
        requires
            self@.valid(),
            i < self.home_entries@.len(),
        ensures
            r == self@.mode(i as int),
    {
        assert(self@.entries[i as int] == self.home_entries@[i as int]@);
        match display_mode(&self.home_entries[i].mode) {
            Some(m) => m,
            None => Mode::Home,
        }
    }

    fn shows(&self, name: &str) -> (r: bool)
        ensures
            r == has_scene(self@, name@),
    {
        let ghost all = self@.entries;
        let mut i: usize = 0;
        while i < self.home_entries.len()
            invariant
                i <= self.home_entries@.len(),
                all == self@.entries,
                forall|k: int| 0 <= k < i ==> (#[trigger] all[k]).mode != name@,
            decreases self.home_entries@.len() - i,
        {
            assert(all[i as int] == self.home_entries@[i as int]@);
            if same_text(&self.home_entries[i].mode, name) {
                return true;
            }
            i += 1;
        }
        false
    }
}

/// Whether a scene is part of the playlist that runs.
pub open spec fn has_scene(c: ClockView, name: Seq<char>) -> bool {
    exists|i: int| 0 <= i < c.entries.len() && (#[trigger] c.entries[i]).mode == name
}

/// A picture of the playlist with the sum of its bytes.
#[derive(Debug)]
pub struct Picture {
    pub crc: String,
    pub rgba: Rgba,
}

#[verifier::ext_equal]
pub struct PictureView {
    pub crc: Seq<char>,
    pub rgba: (u32, u32, Seq<u8>),
}

impl View for Picture {
    type V = PictureView;

    open spec fn view(&self) -> PictureView {
        PictureView { crc: self.crc@, rgba: rgba_view(self.rgba) }
    }
}

/// A picture that was decoded, where it fills the screen.
pub open spec fn placed(crc: Seq<char>, decoded: Result<(u32, u32, Seq<u8>), Seq<char>>) -> Result<
    PictureView,
    Seq<char>,
> {
    match decoded {
        Err(e) => Err(e),
        Ok(p) => if p.0 != 320 || p.1 != 240 {
            Err("轮播图片尺寸不是320×240"@)
        } else {
            Ok(PictureView { crc, rgba: p })
        },
    }
}

/// What is known of a picture after the device described it: the picture that
/// came with the description, or the known one, where it has the right sum.
pub open spec fn picture_taken(known: Option<PictureView>, meta: Option<JsonView>) -> Result<
    Option<PictureView>,
    Seq<char>,
> {
    match meta {
        None => Ok(known),
        Some(m) => match text_of(at(m, "crc32"@)) {
            None => Err("图片缺少校验值"@),
            Some(crc) => match at(m, "data"@) {
                None => match known {
                    Some(p) => if p.crc == crc {
                        Ok(known)
                    } else {
                        Err("轮播图片尚未完整回读"@)
                    },
                    None => Err("轮播图片尚未完整回读"@),
                },
                Some(data) => match exact_bytes(data) {
                    None => Err(misfit(Plain::Bytes, data)),
                    Some(bytes) => match u64_of(at(m, "size"@)) {
                        Some(n) => if n != bytes.len() {
                            Err("轮播图片大小不匹配"@)
                        } else {
                            match placed(crc, picture_of(bytes)) {
                                Ok(p) => Ok(Some(p)),
                                Err(e) => Err(e),
                            }
                        },
                        None => Err("轮播图片大小不匹配"@),
                    },
                },
            },
        },
    }
}

/// Whether a picture is described that is of no known kind and comes before a
/// name, or at all.
pub open spec fn stranger(images: JsonView, before: Option<Seq<char>>) -> bool {
    exists|k: Seq<char>|
        #![trigger at(images, k)]
        at(images, k) is Some && k != "text"@ && k != "image"@ && match before {
            Some(b) => precedes(k, b),
            None => true,
        }
}

/// The text picture and the image of a playlist after the device described them,
/// or what is wrong with the first bad description in the order of their names.
pub open spec fn pictures_taken(
    text: Option<PictureView>,
    image: Option<PictureView>,
    images: JsonView,
) -> Result<(Option<PictureView>, Option<PictureView>), Seq<char>> {
    if stranger(images, Some("image"@)) {
        Err("未知轮播图片类型"@)
    } else {
        match picture_taken(image, at(images, "image"@)) {
            Err(e) => Err(e),
            Ok(image) => if stranger(images, Some("text"@)) {
                Err("未知轮播图片类型"@)
            } else {
                match picture_taken(text, at(images, "text"@)) {
                    Err(e) => Err(e),
                    Ok(text) => if stranger(images, None) {
                        Err("未知轮播图片类型"@)
                    } else {
                        Ok((text, image))
                    },
                }
            },
        }
    }
}

/// The description of a playlist without the bytes of a picture.
pub open spec fn lightened(v: JsonView, kind: Seq<char>) -> JsonView {
    match at_in(v, "home_images"@, kind) {
        Some(m) => put_in(v, "home_images"@, kind, without(m, "data"@)),
        None => v,
    }
}

/// The page of the playlist: what is selected, what runs on the device, and the
/// pictures that are known to be there.
#[derive(Debug)]
pub struct HomePage {
    pub config: Config,
    pub clock: Option<Clock>,
    pub text: Option<Picture>,
    pub image: Option<Picture>,
    pub held: Option<Mode>,
}

#[verifier::ext_equal]
pub struct HomeView {
    pub choices: Seq<Choice>,
    pub clock: Option<ClockView>,
    pub text: Option<PictureView>,
    pub image: Option<PictureView>,
    pub held: Option<Mode>,
}

impl View for HomePage {
    type V = HomeView;

    open spec fn view(&self) -> HomeView {
        HomeView {
            choices: self.config.choices@,
            clock: match self.clock {
                Some(c) => Some(c@),
                None => None,
            },
            text: opt_picture(self.text),
            image: opt_picture(self.image),
            held: self.held,
        }
    }
}

pub open spec fn opt_picture(p: Option<Picture>) -> Option<PictureView> {
    match p {
        Some(p) => Some(p@),
        None => None,
    }
}

/// The mode that a device without a playlist shows: the one that it holds, or
/// the one that it runs.
pub open spec fn mode_held(v: JsonView) -> Option<Mode> {
    let held = match text_of(at(v, "held_mode"@)) {
        Some(name) => mode_of(name),
        None => None,
    };
    if held is Some {
        held
    } else {
        match text_of(at(v, "mode"@)) {
            Some(name) => if name == "task"@ || name == "radar"@ || name == "calendar"@ {
                mode_of(name)
            } else {
                None
            },
            None => None,
        }
    }
}

/// The page after the device said what it shows.
pub open spec fn home_accepted(h: HomeView, v: JsonView) -> Result<HomeView, Seq<char>> {
    if text_of(at(v, "mode"@)) != Some("home"@) {
        Ok(HomeView { clock: None, held: mode_held(v), ..h })
    } else {
        match clock_of(v) {
            Err(e) => Err(e),
            Ok(clock) => match at(v, "home_images"@) {
                Some(JsonView::Object(m)) => match pictures_taken(
                    h.text,
                    h.image,
                    JsonView::Object(m),
                ) {
                    Err(e) => Err(e),
                    Ok((text, image)) => Ok(
                        HomeView { choices: h.choices, clock: Some(clock), text, image, held: None },
                    ),
                },
                _ => Ok(HomeView { clock: Some(clock), held: None, ..h }),
            },
        }
    }
}

/// What is left of the answer of the device once its pictures are taken.
pub open spec fn home_lightened(v: JsonView) -> JsonView {
    if text_of(at(v, "mode"@)) != Some("home"@) {
        v
    } else {
        lightened(lightened(v, "image"@), "text"@)
    }
}

/// Whether a description says which sum its picture has.
pub open spec fn has_sum(meta: Option<JsonView>) -> bool {
    match meta {
        Some(m) => text_of(at(m, "crc32"@)) is Some,
        None => false,
    }
}

/// What is left of an answer of the device that is refused: the bytes are gone of
/// every picture that was looked at up to the one that is bad.
pub open spec fn home_refused(h: HomeView, v: JsonView) -> JsonView {
    match at(v, "home_images"@) {
        Some(JsonView::Object(m)) => {
            let images = JsonView::Object(m);
            if clock_of(v) is Err || stranger(images, Some("image"@)) {
                v
            } else {
                let once = if has_sum(at(images, "image"@)) {
                    lightened(v, "image"@)
                } else {
                    v
                };
                if picture_taken(h.image, at(images, "image"@)) is Err || stranger(
                    images,
                    Some("text"@),
                ) || !has_sum(at(images, "text"@)) {
                    once
                } else {
                    lightened(once, "text"@)
                }
            }
        },
        _ => v,
    }
}

impl HomeView {
    /// The clock of a playlist that runs is sound, and the pictures that are
    /// known fill the screen.
    pub open spec fn wf(&self) -> bool {
        &&& match self.clock {
            Some(c) => c.valid(),
            None => true,
        }
        &&& match self.text {
            Some(p) => p.rgba.0 == 320 && p.rgba.1 == 240,
            None => true,
        }
        &&& match self.image {
            Some(p) => p.rgba.0 == 320 && p.rgba.1 == 240,
            None => true,
        }
    }

    /// What the device shows `age_ms` after it said how far it was.
    pub open spec fn shown(&self, age_ms: int) -> (Option<Mode>, Option<int>) {
        match self.clock {
            Some(c) => (Some(c.scene_at(age_ms).0), c.scene_at(age_ms).1),
            None => (self.held, None),
        }
    }
}

/// Whatever a device sends, the page stays sound; what is refused changes
/// nothing, and nothing that the device sends changes the selection.
pub proof fn law_page_stays_sound(h: HomeView, v: JsonView)
    requires
        h.wf(),
    ensures
        match home_accepted(h, v) {
            Ok(page) => page.wf() && page.choices == h.choices && (page.clock is Some <==> text_of(
                at(v, "mode"@),
            ) == Some("home"@)),
            Err(_) => text_of(at(v, "mode"@)) == Some("home"@),
        },
{
}

/// A picture that came once does not have to come again: the description without
/// its bytes gives the same page.
pub proof fn law_pictures_are_kept(known: Option<PictureView>, m: JsonView)
    ensures
        match picture_taken(known, Some(m)) {
            Ok(p) => picture_taken(p, Some(without(m, "data"@))) == Ok::<
                Option<PictureView>,
                Seq<char>,
            >(p) && picture_taken(p, None) == Ok::<Option<PictureView>, Seq<char>>(p),
            Err(_) => true,
        },
{
    reveal_strlit("data");
    reveal_strlit("crc32");
    assert("data"@.len() != "crc32"@.len());
    assert(at(without(m, "data"@), "crc32"@) == at(m, "crc32"@));
    assert(at(without(m, "data"@), "data"@) is None);
}

/// A picture that was decoded, where it fills the screen.
pub fn place_picture(crc: &str, decoded: Result<Rgba, String>) -> (r: Result<Picture, String>)
    ensures
        ({
            let d = match decoded {
                Ok(p) => Ok(rgba_view(p)),
                Err(e) => Err(e@),
            };
            match r {
                Ok(p) => placed(crc@, d) == Ok::<PictureView, Seq<char>>(p@),
                Err(e) => placed(crc@, d) == Err::<PictureView, Seq<char>>(e@),
            }
        }),
{
    match decoded {
        Ok(rgba) => {
            if rgba.width != 320 || rgba.height != 240 {
                return Err("轮播图片尺寸不是320×240".to_owned());
            }
            Ok(Picture { crc: crc.to_owned(), rgba })
        },
        Err(e) => Err(e),
    }
}

/// The picture that comes with its description; `None` where the known one stays.
fn take_picture(known: &Option<Picture>, meta: Option<&Json>) -> (r: Result<
    Option<Picture>,
    String,
>)
    ensures
        ({
            let taken = picture_taken(opt_picture(*known), option_view(meta));
            match r {
                Ok(Some(p)) => taken == Ok::<Option<PictureView>, Seq<char>>(Some(p@)),
                Ok(None) => taken == Ok::<Option<PictureView>, Seq<char>>(opt_picture(*known)),
                Err(e) => taken == Err::<Option<PictureView>, Seq<char>>(e@),
            }
        }),
{
    let m = match meta {
        Some(m) => m,
        None => {
            return Ok(None);
        },
    };
    let crc = match m.get_str("crc32") {
        Some(c) => c,
        None => {
            return Err("图片缺少校验值".to_owned());
        },
    };
    match m.get("data") {
        Some(data) => {
            let bytes = match read_bytes(data) {
                Some(b) => b,
                None => {
                    return Err(say_misfit(Plain::Bytes, data));
                },
            };
            match m.get_u64("size") {
                Some(n) => {
                    if n != bytes.len() as u64 {
                        return Err("轮播图片大小不匹配".to_owned());
                    }
                },
                None => {
                    return Err("轮播图片大小不匹配".to_owned());
                },
            }
            match place_picture(crc, decode_rgba(&bytes)) {
                Ok(p) => Ok(Some(p)),
                Err(e) => Err(e),
            }
        },
        None => {
            match known {
                Some(p) => {
                    if same_text(&p.crc, crc) {
                        return Ok(None);
                    }
                },
                None => {},
            }
            Err("轮播图片尚未完整回读".to_owned())
        },
    }
}

fn has_stranger(images: &Json, before: Option<&str>) -> (r: bool)
    ensures
        r == stranger(images@, opt_text(before)),
{
    let keys = images.keys();
    let mut i: usize = 0;
    while i < keys.len()
        invariant
            i <= keys@.len(),
            forall|k: Seq<char>|
                at(images@, k) is Some <==> exists|n: int|
                    0 <= n < keys@.len() && (#[trigger] keys@[n])@ == k,
            forall|n: int|
                0 <= n < i ==> !((#[trigger] keys@[n])@ != "text"@ && keys@[n]@ != "image"@ && match opt_text(before) {
                    Some(b) => precedes(keys@[n]@, b),
                    None => true,
                }),
        decreases keys@.len() - i,
    {
        let key = keys[i].as_str();
        let early = match before {
            Some(b) => comes_before(key, b),
            None => true,
        };
        if early && !same_text(key, "text") && !same_text(key, "image") {
            assert(keys@[i as int]@ == key@);
            assert(at(images@, key@) is Some);
            return true;
        }
        i += 1;
    }
    proof {
        assert forall|k: Seq<char>|
            #![trigger at(images@, k)]
            !(at(images@, k) is Some && k != "text"@ && k != "image"@ && match opt_text(before) {
                Some(b) => precedes(k, b),
                None => true,
            }) by {
            if at(images@, k) is Some {
                let n = choose|n: int| 0 <= n < keys@.len() && (#[trigger] keys@[n])@ == k;
                assert(keys@[n]@ == k);
            }
        }
    }
    false
}

fn names_sum(meta: Option<&Json>) -> (r: bool)
    ensures
        r == has_sum(option_view(meta)),
{
    match meta {
        Some(m) => m.get_str("crc32").is_some(),
        None => false,
    }
}

fn lighten(v: &mut Json, kind: &str)
    ensures
        final(v)@ == lightened(old(v)@, kind@),
{
    let light = match v.get_in("home_images", kind) {
        Some(m) => {
            let mut m = m.clone();
            m.remove("data");
            Some(m)
        },
        None => None,
    };
    match light {
        Some(m) => v.insert_in("home_images", kind, m),
        None => {},
    }
}

impl Default for HomePage {
    fn default() -> (r: Self)
        ensures
            r@ == (HomeView {
                choices: default_choices(),
                clock: None,
                text: None,
                image: None,
                held: None,
            }),
    {
        HomePage { config: Config::default(), clock: None, text: None, image: None, held: None }
    }
}

impl HomePage {
    /// A page with a selection, of which nothing is known on the device.
    pub fn new(config: Config) -> (r: Self)
        ensures
            r@ == (HomeView {
                choices: config.choices@,
                clock: None,
                text: None,
                image: None,
                held: None,
            }),
    {
        HomePage { config, clock: None, text: None, image: None, held: None }
    }

    /// The selected scenes, or why they cannot be a playlist.
    pub fn entries(&self) -> (r: Result<Vec<Json>, String>)
        ensures
            match r {
                Ok(v) => selection(self.config.choices@) == Ok::<Seq<JsonView>, Seq<char>>(
                    models(v@),
                ) && 1 <= v@.len() <= 5 && entries_fault(models(v@)) is None,
                Err(e) => match selection(self.config.choices@) {
                    Err(m) => e@ == m,
                    Ok(entries) => !(1 <= entries.len() <= 5) && e@ == "请勾选至少一个轮播画面"@,
                },
            },
    {
        self.config.entries()
    }

    /// Whether the radar is selected.
    pub fn wants_radar(&self) -> (r: bool)
        ensures
            r == wants(self.config.choices@, Mode::Radar),
    {
        self.config.wants(Mode::Radar)
    }

    /// Whether the calendar is selected.
    pub fn wants_calendar(&self) -> (r: bool)
        ensures
            r == wants(self.config.choices@, Mode::Calendar),
    {
        self.config.wants(Mode::Calendar)
    }

    /// Whether the calendar is part of the playlist that runs.
    pub fn has_calendar(&self) -> (r: bool)
        ensures
            r == match self@.clock {
                Some(c) => has_scene(c, "calendar"@),
                None => false,
            },
    {
        match &self.clock {
            Some(c) => c.shows("calendar"),
            None => false,
        }
    }

    /// Whether the radar is part of the playlist that runs.
    pub fn has_radar(&self) -> (r: bool)
        ensures
            r == match self@.clock {
                Some(c) => has_scene(c, "radar"@),
                None => false,
            },
    {
        match &self.clock {
            Some(c) => c.shows("radar"),
            None => false,
        }
    }

    /// Whether a playlist runs.
    pub fn running(&self) -> (r: bool)
        ensures
            r == (self@.clock is Some),
    {
        self.clock.is_some()
    }

    /// The sums of the pictures that are known.
    pub fn asset_crcs(&self) -> (r: Json)
        ensures
            r@ == JsonView::Object(picture_sums(self@.text, self@.image)),
    {
        let mut sums = Json::object();
        if let Some(p) = &self.image {
            sums.insert("image", Json::text(&p.crc));
        }
        if let Some(p) = &self.text {
            sums.insert("text", Json::text(&p.crc));
        }
        assert(sums@ == JsonView::Object(picture_sums(self@.text, self@.image)));
        sums
    }

    /// The picture of a static scene, where it is known.
    pub fn picture(&self, mode: Mode) -> (r: Option<&Picture>)
        ensures
            match r {
                Some(p) => (mode == Mode::Text && self@.text == Some(p@)) || (mode == Mode::Image
                    && self@.image == Some(p@)),
                None => (mode == Mode::Text ==> self@.text is None) && (mode == Mode::Image
                    ==> self@.image is None),
            },
    {
        let place = if mode == Mode::Text {
            &self.text
        } else if mode == Mode::Image {
            &self.image
        } else {
            return None;
        };
        match place {
            Some(p) => Some(p),
            None => None,
        }
    }

    /// Forgets what was known of the device.
    pub fn clear_device(&mut self)
        ensures
            final(self)@ == (HomeView {
                choices: old(self)@.choices,
                clock: None,
                text: None,
                image: None,
                held: None,
            }),
    {
        self.clock = None;
        self.held = None;
        self.text = None;
        self.image = None;
    }

    /// Takes over what the device says that it shows. Pictures are checked and
    /// decoded before the page changes, and their bytes leave the answer.
    pub fn accept(&mut self, value: &mut Json) -> (r: Result<(), String>)
        ensures
            match r {
                Ok(_) => home_accepted(old(self)@, old(value)@) == Ok::<HomeView, Seq<char>>(
                    final(self)@,
                ) && final(value)@ == home_lightened(old(value)@),
                Err(e) => home_accepted(old(self)@, old(value)@) == Err::<HomeView, Seq<char>>(e@)
                    && final(self)@ == old(self)@ && final(value)@ == home_refused(
                    old(self)@,
                    old(value)@,
                ),
            },
            old(self)@.wf() ==> final(self)@.wf(),
    {
        if !value.is_str("mode", "home") {
            self.clock = None;
            self.held = held_mode(value);
            return Ok(());
        }
        let clock = match Clock::read(value) {
            Some(c) => c,
            None => {
                return Err(glue("轮播状态无效：", say(check_clock(value)).as_str()));
            },
        };
        match clock.validate() {
            Ok(_) => {},
            Err(e) => {
                return Err(e);
            },
        }
        let mut text: Option<Picture> = None;
        let mut image: Option<Picture> = None;
        let mut fault: Option<String> = None;
        let mut looked: (bool, bool) = (true, true);
        if let Some(images) = value.get("home_images") {
            if images.is_object() {
                if has_stranger(images, Some("image")) {
                    return Err("未知轮播图片类型".to_owned());
                }
                looked = (names_sum(images.get("image")), false);
                match take_picture(&self.image, images.get("image")) {
                    Err(e) => {
                        fault = Some(e);
                    },
                    Ok(p) => {
                        image = p;
                        if has_stranger(images, Some("text")) {
                            fault = Some("未知轮播图片类型".to_owned());
                        } else {
                            looked = (looked.0, names_sum(images.get("text")));
                            match take_picture(&self.text, images.get("text")) {
                                Err(e) => {
                                    fault = Some(e);
                                },
                                Ok(p) => {
                                    text = p;
                                    if has_stranger(images, None) {
                                        fault = Some("未知轮播图片类型".to_owned());
                                    }
                                },
                            }
                        }
                    },
                }
            }
        }
        if looked.0 {
            lighten(value, "image");
        }
        if looked.1 {
            lighten(value, "text");
        }
        match fault {
            Some(e) => {
                return Err(e);
            },
            None => {},
        }
        self.clock = Some(clock);
        if text.is_some() {
            self.text = text;
        }
        if image.is_some() {
            self.image = image;
        }
        self.held = None;
        Ok(())
    }

    /// What the device shows `age_ms` after it said how far it was, with the
    /// milliseconds that a change of scenes has taken.
    pub fn shown(&self, age_ms: u64) -> (r: (Option<Mode>, Option<u64>))
        requires
            self@.wf(),
        ensures
            self@.shown(age_ms as int).0 == r.0,
            match r.1 {
                Some(n) => self@.shown(age_ms as int).1 == Some(n as int),
                None => self@.shown(age_ms as int).1 is None,
            },
    {
        match &self.clock {
            Some(c) => {
                let (mode, into) = c.project(age_ms);
                (Some(mode), into)
            },
            None => (self.held, None),
        }
    }
}

/// The sums of pictures under their names.
pub open spec fn picture_sums(text: Option<PictureView>, image: Option<PictureView>) -> Map<
    Seq<char>,
    JsonView,
> {
    let sums = match image {
        Some(p) => Map::empty().insert("image"@, JsonView::Str(p.crc)),
        None => Map::empty(),
    };
    match text {
        Some(p) => sums.insert("text"@, JsonView::Str(p.crc)),
        None => sums,
    }
}

fn held_mode(v: &Json) -> (r: Option<Mode>)
    ensures
        r == mode_held(v@),
{
    let held = match v.get_str("held_mode") {
        Some(name) => display_mode(name),
        None => None,
    };
    if held.is_some() {
        return held;
    }
    match v.get_str("mode") {
        Some(name) => if same_text(name, "task") || same_text(name, "radar") || same_text(
            name,
            "calendar",
        ) {
            display_mode(name)
        } else {
            None
        },
        None => None,
    }
}

/// How far from the nearer end of a change of scenes a moment is, twice.
pub open spec fn fade_depth(into: int, transition: int) -> int {
    if 2 * into <= transition {
        2 * into
    } else {
        2 * (transition - into)
    }
}

/// How dark the screen is at a moment of a change of scenes, from 0 to 255: a
/// curve that starts and ends level, rounded to the nearest number, halves up.
pub open spec fn fade_of(into: int, transition: int) -> int {
    let x = fade_depth(into, transition);
    let t = transition;
    (2 * (x * x * (3 * t - 2 * x) * 255) + t * t * t) / (2 * (t * t * t))
}

proof fn lemma_fade_bounds(x: int, t: int)
    requires
        0 <= x <= t,
        1 <= t <= 1200,
    ensures
        0 <= x * x * (3 * t - 2 * x) <= t * t * t,
        1 <= t * t * t <= 1_728_000_000,
{
    assert(0 <= x * x * (3 * t - 2 * x) <= t * t * t) by (nonlinear_arith)
        requires
            0 <= x <= t,
            1 <= t,
    {
        let d = t - x;
        assert(x * x * (3 * t - 2 * x) == t * t * t - d * d * (t + 2 * x));
        assert(0 <= d * d * (t + 2 * x));
        assert(0 <= x * x);
    }
    assert(1 <= t * t * t <= 1_728_000_000) by (nonlinear_arith)
        requires
            1 <= t <= 1200,
    ;
}

proof fn lemma_fade_range(into: int, transition: int)
    requires
        0 <= into <= transition,
        1 <= transition <= 1200,
    ensures
        0 <= fade_of(into, transition) <= 255,
{
    let x = fade_depth(into, transition);
    let t = transition;
    lemma_fade_bounds(x, t);
    let c = t * t * t;
    let n = x * x * (3 * t - 2 * x);
    assert(x * x * (3 * t - 2 * x) * 255 == n * 255);
    assert(0 <= (2 * (n * 255) + c) / (2 * c) <= 255) by (nonlinear_arith)
        requires
            0 <= n <= c,
            1 <= c,
    ;
}

/// A change of scenes starts and ends clear, is black in the middle, where the
/// scenes change, and comes back as it went.
pub proof fn law_fade_is_even(into: int, transition: int)
    requires
        0 <= into <= transition,
        1 <= transition <= 1200,
    ensures
        fade_of(into, transition) == fade_of(transition - into, transition),
        fade_of(0, transition) == 0,
        fade_of(transition, transition) == 0,
        2 * into == transition ==> fade_of(into, transition) == 255,
{
    let t = transition;
    lemma_fade_bounds(0, t);
    let c = t * t * t;
    assert(0 * 0 * (3 * t - 2 * 0) * 255 == 0);
    assert(c / (2 * c) == 0) by (nonlinear_arith)
        requires
            1 <= c,
    ;
    assert(fade_of(into, t) == fade_of(t - into, t)) by {
        assert(fade_depth(into, t) == fade_depth(t - into, t));
    }
    if 2 * into == t {
        assert(fade_depth(into, t) == t);
        assert(t * t * (3 * t - 2 * t) == c) by (nonlinear_arith)
            requires
                c == t * t * t,
        ;
        assert((2 * (c * 255) + c) / (2 * c) == 255) by (nonlinear_arith)
            requires
                1 <= c,
        ;
    }
}

/// How dark the screen is at a moment of a change of scenes.
pub fn fade_opacity(into_ms: u64, transition_ms: u64) -> (r: u8)
    requires
        into_ms <= transition_ms,
        1 <= transition_ms <= 1200,
    ensures
        r == fade_of(into_ms as int, transition_ms as int),
{
    let t = transition_ms;
    let x = if 2 * into_ms <= t {
        2 * into_ms
    } else {
        2 * (t - into_ms)
    };
    proof {
        lemma_fade_bounds(x as int, t as int);
        lemma_fade_range(into_ms as int, t as int);
        assert(0 <= x * x <= 1_440_000) by (nonlinear_arith)
            requires
                0 <= x <= 1200,
        ;
        assert(0 <= t * t <= 1_440_000) by (nonlinear_arith)
            requires
                0 <= t <= 1200,
        ;
    }
    let whole = t * t * t;
    let part = x * x * (3 * t - 2 * x);
    ((2 * (part * 255) + whole) / (2 * whole)) as u8
}

proof fn lemma_entry_names()
    ensures
        "mode"@.len() == 4,
        "seconds"@.len() == 7,
{
    reveal_strlit("mode");
    reveal_strlit("seconds");
}

/// Every mode has its name on the line.
pub proof fn law_modes_have_their_names(name: Seq<char>)
    ensures
        mode_of(name) == Some(Mode::Hourglass) <==> name == "task"@,
        mode_of(name) == Some(Mode::Radar) <==> name == "radar"@,
        mode_of(name) == Some(Mode::Calendar) <==> name == "calendar"@,
        mode_of(name) == Some(Mode::Text) <==> name == "text"@,
        mode_of(name) == Some(Mode::Image) <==> name == "image"@,
        wire_name(Mode::Hourglass) == Some("task"@),
        wire_name(Mode::Radar) == Some("radar"@),
        wire_name(Mode::Calendar) == Some("calendar"@),
        wire_name(Mode::Text) == Some("text"@),
        wire_name(Mode::Image) == Some("image"@),
{
    lemma_names_differ();
}

/// The scenes that are ticked.
pub open spec fn ticked_of(choices: Seq<Choice>) -> Seq<Choice> {
    choices.filter(|c: Choice| c.enabled)
}

/// A selection is the scenes that are ticked, in order, each under its name and with its
/// own time.
pub proof fn law_selection_is_what_is_ticked(choices: Seq<Choice>)
    ensures
        match selection(choices) {
            Ok(entries) => {
                let ticked = ticked_of(choices);
                &&& entries.len() == ticked.len()
                &&& forall|i: int|
                    #![trigger entries[i]]
                    #![trigger ticked[i]]
                    0 <= i < entries.len() ==> {
                        &&& wire_name(ticked[i].mode) is Some
                        &&& text_of(at(entries[i], "mode"@)) == wire_name(ticked[i].mode)
                        &&& at(entries[i], "seconds"@) == Some(JsonView::Int(ticked[i].seconds as int))
                        &&& 1 <= ticked[i].seconds <= 3600
                    }
            },
            Err(_) => true,
        },
    decreases choices.len(),
{
    reveal(Seq::filter);
    lemma_entry_names();
    if choices.len() > 0 {
        law_selection_is_what_is_ticked(choices.drop_last());
    }
}

/// No scene is selected twice.
pub proof fn law_no_scene_is_selected_twice(choices: Seq<Choice>, i: int, j: int)
    requires
        selection(choices) is Ok,
        0 <= i < j < ticked_of(choices).len(),
    ensures
        ticked_of(choices)[i].mode != ticked_of(choices)[j].mode,
    decreases choices.len(),
{
    reveal(Seq::filter);
    law_selection_is_what_is_ticked(choices);
    let front = choices.drop_last();
    law_selection_is_what_is_ticked(front);
    let ticked = ticked_of(front);
    if j < ticked.len() {
        law_no_scene_is_selected_twice(front, i, j);
    } else {
        let entries = selection(front)->Ok_0;
        let c = choices.last();
        assert(ticked_of(choices) == ticked.push(c));
        assert(text_of(at(entries[i], "mode"@)) == wire_name(ticked[i].mode));
        assert(text_at(entries[i], "mode"@, ""@) != wire_name(c.mode)->0);
    }
}

/// A selection is refused only where a scene that is ticked is the playlist itself, has
/// no time from 1 to 3600 seconds, or is there already.
pub proof fn law_selection_is_refused_for_a_reason(choices: Seq<Choice>) -> (i: int)
    requires
        selection(choices) is Err,
    ensures
        0 <= i < choices.len(),
        choices[i].enabled,
        choices[i].mode == Mode::Home || !(1 <= choices[i].seconds <= 3600) || exists|j: int|
            0 <= j < i && (#[trigger] choices[j]).enabled && choices[j].mode == choices[i].mode,
    decreases choices.len(),
{
    let front = choices.drop_last();
    let n = choices.len() - 1;
    if selection(front) is Err {
        let i = law_selection_is_refused_for_a_reason(front);
        if exists|j: int|
            0 <= j < i && (#[trigger] front[j]).enabled && front[j].mode == front[i].mode {
            let j = choose|j: int|
                0 <= j < i && (#[trigger] front[j]).enabled && front[j].mode == front[i].mode;
            assert(choices[j] == front[j]);
        }
        i
    } else {
        let c = choices[n];
        let entries = selection(front)->Ok_0;
        if c.mode != Mode::Home && 1 <= c.seconds <= 3600 {
            let name = wire_name(c.mode)->0;
            let k = choose|k: int|
                0 <= k < entries.len() && text_at(#[trigger] entries[k], "mode"@, ""@) == name;
            law_selection_is_what_is_ticked(front);
            assert(text_of(at(entries[k], "mode"@)) == wire_name(ticked_of(front)[k].mode));
            law_names_and_modes_correspond(ticked_of(front)[k].mode, name);
            law_names_and_modes_correspond(c.mode, name);
            lemma_ticked(front, k);
            let j = choose|j: int|
                0 <= j < front.len() && (#[trigger] front[j]).enabled && front[j] == ticked_of(
                    front,
                )[k];
            assert(choices[j] == front[j]);
        }
        n
    }
}

proof fn lemma_ticked(choices: Seq<Choice>, k: int)
    requires
        0 <= k < ticked_of(choices).len(),
    ensures
        exists|j: int|
            0 <= j < choices.len() && (#[trigger] choices[j]).enabled && choices[j]
                == ticked_of(choices)[k],
    decreases choices.len(),
{
    reveal(Seq::filter);
    if choices.len() > 0 {
        let front = choices.drop_last();
        let n = choices.len() - 1;
        assert(choices[n] == choices.last());
        if k < ticked_of(front).len() {
            lemma_ticked(front, k);
            let j = choose|j: int|
                0 <= j < front.len() && (#[trigger] front[j]).enabled && front[j] == ticked_of(front)[k];
            assert(choices[j] == front[j]);
        }
    }
}

proof fn lemma_clock_members()
    ensures
        "mode"@.len() == 4,
        "seconds"@.len() == 7,
        "home_id"@.len() == 7,
        "home_entries"@.len() == 12,
        "home_elapsed_ms"@.len() == 15,
        "home_transition_ms"@.len() == 18,
        "home_images"@.len() == 11,
        "held_mode"@.len() == 9,
        "text"@.len() == 4,
        "image"@.len() == 5,
        "task"@.len() == 4,
        "radar"@.len() == 5,
        "calendar"@.len() == 8,
        "home"@.len() == 4,
        "crc32"@.len() == 5,
        "data"@.len() == 4,
        "size"@.len() == 4,
        "mode"@[0] == 'm',
        "text"@[0] == 't',
        "task"@[0] == 't',
        "home"@[0] == 'h',
        "data"@[0] == 'd',
        "size"@[0] == 's',
        "seconds"@[0] == 's',
        "home_id"@[0] == 'h',
        "text"@[1] == 'e',
        "task"@[1] == 'a',
        "image"@[0] == 'i',
        "radar"@[0] == 'r',
        "crc32"@[0] == 'c',
{
    reveal_strlit("mode");
    reveal_strlit("seconds");
    reveal_strlit("home_id");
    reveal_strlit("home_entries");
    reveal_strlit("home_elapsed_ms");
    reveal_strlit("home_transition_ms");
    reveal_strlit("home_images");
    reveal_strlit("held_mode");
    reveal_strlit("text");
    reveal_strlit("image");
    reveal_strlit("task");
    reveal_strlit("radar");
    reveal_strlit("calendar");
    reveal_strlit("home");
    reveal_strlit("crc32");
    reveal_strlit("data");
    reveal_strlit("size");
}

/// Every scene takes its seconds and the change to the next one.
pub proof fn law_times_of_scenes_add_up(entries: Seq<SlotView>, transition: int, i: int)
    requires
        0 <= i < entries.len(),
    ensures
        span(entries.take(0), transition) == 0,
        span(entries.take(i + 1), transition) == span(entries.take(i), transition)
            + entries[i].seconds * 1000 + transition,
{
    assert(entries.take(i + 1).drop_last() =~= entries.take(i));
    assert(entries.take(i + 1).last() == entries[i]);
}

/// The clock of a playlist is what the device sent: its name, its scenes in order, how
/// far it is and how long a change takes.
pub proof fn law_clock_is_what_the_device_says(v: JsonView)
    ensures
        clock_of(v) matches Ok(c) ==> {
            &&& at(v, "home_id"@) == Some(JsonView::Str(c.id))
            &&& u64_of(at(v, "home_elapsed_ms"@)) == Some(c.elapsed as u64)
            &&& u64_of(at(v, "home_transition_ms"@)) == Some(c.transition as u64)
            &&& items_of(at(v, "home_entries"@)) matches Some(items)
            &&& items.len() == c.entries.len()
            &&& forall|i: int|
                #![trigger c.entries[i]]
                0 <= i < items.len() ==> (items[i] is Object ==> at(items[i], "mode"@) == Some(
                    JsonView::Str(c.entries[i].mode),
                ) && u64_of(at(items[i], "seconds"@)) == Some(c.entries[i].seconds as u64)) && (
                items[i] is Array ==> items[i]->Array_0.len() == 2 && items[i]->Array_0[0]
                    == JsonView::Str(c.entries[i].mode) && u64_of(Some(items[i]->Array_0[1]))
                    == Some(c.entries[i].seconds as u64))
        },
{
    lemma_clock_members();
    match clock_of(v) {
        Ok(c) => {
            let items = items_of(at(v, "home_entries"@))->0;
            assert forall|i: int| #![trigger c.entries[i]] 0 <= i < items.len() implies (
            items[i] is Object ==> at(items[i], "mode"@) == Some(JsonView::Str(c.entries[i].mode))
                && u64_of(at(items[i], "seconds"@)) == Some(c.entries[i].seconds as u64)) && (
            items[i] is Array ==> items[i]->Array_0.len() == 2 && items[i]->Array_0[0]
                == JsonView::Str(c.entries[i].mode) && u64_of(Some(items[i]->Array_0[1])) == Some(
                c.entries[i].seconds as u64,
            )) by {
                assert(slot_of(items[i]) is Some);
                assert(c.entries[i] == slot_of(items[i])->0);
            }
        },
        Err(_) => {},
    }
}

/// A clock is taken where its name is eight hexadecimal digits, it has one to five
/// different known scenes of up to an hour, a change takes 1.2 seconds where there is
/// one, and it is within its round; and it is refused otherwise.
pub proof fn law_good_clocks_are_taken(v: JsonView, c: ClockView)
    requires
        clock_fields(v) == Some(c),
    ensures
        clock_of(v) is Ok <==> {
            &&& 1 <= c.entries.len() <= 5
            &&& forall|i: int|
                0 <= i < c.entries.len() ==> mode_of((#[trigger] c.entries[i]).mode) is Some && 1
                    <= c.entries[i].seconds <= 3600
            &&& forall|i: int, j: int|
                0 <= i < j < c.entries.len() ==> (#[trigger] c.entries[i]).mode != (
                #[trigger] c.entries[j]).mode
            &&& c.id.len() == 8 && hexadecimal(c.id)
            &&& c.transition == if c.entries.len() == 1 {
                0int
            } else {
                1200
            }
            &&& c.elapsed < span(c.entries, c.transition)
        },
        clock_of(v) is Ok ==> clock_of(v) == Ok::<ClockView, Seq<char>>(c),
{
}

/// A picture is taken under the sum that the device gives it, where its bytes came, are
/// as many as it says and fill the screen, or where it is the known one; and it is
/// refused otherwise.
pub proof fn law_picture_is_what_the_device_says(known: Option<PictureView>, m: JsonView)
    ensures
        ({
            let crc = text_of(at(m, "crc32"@));
            let data = at(m, "data"@);
            let size = u64_of(at(m, "size"@));
            let bytes = exact_bytes(data->0);
            let drawn = data is Some && bytes is Some && size is Some && size->0 == bytes->0.len()
                && picture_of(bytes->0) is Ok && picture_of(bytes->0)->Ok_0.0 == 320 && picture_of(
                bytes->0,
            )->Ok_0.1 == 240;
            let kept = data is None && known is Some && Some(known->0.crc) == crc;
            let r = picture_taken(known, Some(m));
            &&& r is Ok <==> crc is Some && (drawn || kept)
            &&& r is Ok ==> {
                &&& r->Ok_0 matches Some(p)
                &&& Some(p.crc) == crc
                &&& drawn ==> picture_of(bytes->0) == Ok::<(u32, u32, Seq<u8>), Seq<char>>(p.rgba)
                &&& kept ==> p == known->0
            }
        }),
{
    lemma_clock_members();
}

/// While a playlist runs, the page holds its clock and both of its pictures, each as
/// the device described it and the one that it said nothing of as it was; without a
/// playlist it holds the scene that is held, and keeps the pictures.
pub proof fn law_page_is_what_the_device_says(h: HomeView, v: JsonView)
    ensures
        ({
            let r = home_accepted(h, v);
            let home = at(v, "mode"@) == Some(JsonView::Str("home"@));
            let images = at(v, "home_images"@);
            let listed = images is Some && images->0 is Object;
            let strange = listed && exists|k: Seq<char>| #[trigger]
                at(images->0, k) is Some && k != "text"@ && k != "image"@;
            &&& !home ==> r is Ok && r->Ok_0.clock is None && r->Ok_0.text == h.text
                && r->Ok_0.image == h.image && r->Ok_0.choices == h.choices
            &&& home ==> (r is Ok <==> clock_of(v) is Ok && (listed ==> !strange && picture_taken(
                h.text,
                at(images->0, "text"@),
            ) is Ok && picture_taken(h.image, at(images->0, "image"@)) is Ok))
            &&& home && r is Ok ==> {
                &&& r->Ok_0.clock == Some(clock_of(v)->Ok_0)
                &&& r->Ok_0.held is None
                &&& r->Ok_0.choices == h.choices
                &&& !listed ==> r->Ok_0.text == h.text && r->Ok_0.image == h.image
                &&& listed ==> r->Ok_0.text == picture_taken(h.text, at(images->0, "text"@))->Ok_0
                &&& listed ==> r->Ok_0.image == picture_taken(
                    h.image,
                    at(images->0, "image"@),
                )->Ok_0
                &&& listed && at(images->0, "text"@) is None ==> r->Ok_0.text == h.text
                &&& listed && at(images->0, "image"@) is None ==> r->Ok_0.image == h.image
            }
        }),
{
    lemma_clock_members();
}

/// Outside a playlist the scene that is held is shown, by the name that the device
/// gives it, or else the task, the radar or the calendar that it is in.
pub proof fn law_held_scene_is_shown(h: HomeView, v: JsonView, age_ms: int)
    requires
        at(v, "mode"@) != Some(JsonView::Str("home"@)),
    ensures
        ({
            let page = home_accepted(h, v)->Ok_0;
            let held = text_of(at(v, "held_mode"@));
            let mode = text_of(at(v, "mode"@));
            &&& page.shown(age_ms) == (page.held, None::<int>)
            &&& held is Some && mode_of(held->0) is Some ==> page.held == mode_of(held->0)
            &&& held is None || mode_of(held->0) is None ==> page.held == if mode == Some("task"@) {
                Some(Mode::Hourglass)
            } else if mode == Some("radar"@) {
                Some(Mode::Radar)
            } else if mode == Some("calendar"@) {
                Some(Mode::Calendar)
            } else {
                None
            }
        }),
{
    lemma_clock_members();
}

/// The bytes of the pictures are taken out of an answer, and nothing else.
pub proof fn law_only_the_bytes_are_taken_out(v: JsonView)
    requires
        at(v, "mode"@) == Some(JsonView::Str("home"@)),
    ensures
        ({
            let w = home_lightened(v);
            &&& forall|k: Seq<char>| k != "home_images"@ ==> #[trigger] at(w, k) == at(v, k)
            &&& forall|k: Seq<char>|
                k != "text"@ && k != "image"@ ==> #[trigger] at_in(w, "home_images"@, k) == at_in(
                    v,
                    "home_images"@,
                    k,
                )
            &&& at_in(v, "home_images"@, "text"@) matches Some(m) ==> at_in(
                w,
                "home_images"@,
                "text"@,
            ) == Some(without(m, "data"@))
            &&& at_in(v, "home_images"@, "image"@) matches Some(m) ==> at_in(
                w,
                "home_images"@,
                "image"@,
            ) == Some(without(m, "data"@))
        }),
{
    lemma_clock_members();
}

/// The screen is as dark as a smooth step from the nearer end of the change to its
/// middle, in 255 steps: the nearest whole number to 255 times x * x * (3 - 2 * x), where
/// x goes from 0 at an end to 1 in the middle.
pub proof fn law_fade_is_a_smooth_step(into: int, transition: int)
    requires
        0 <= into <= transition,
        1 <= transition <= 1200,
    ensures
        ({
            let t = transition;
            let x = if into <= t - into {
                2 * into
            } else {
                2 * (t - into)
            };
            let exact = 255 * (x * x * (3 * t - 2 * x));
            let cube = t * t * t;
            &&& 0 <= fade_of(into, t) <= 255
            &&& 2 * (fade_of(into, t) * cube) <= 2 * exact + cube
            &&& 2 * exact - cube < 2 * (fade_of(into, t) * cube)
        }),
{
    let t = transition;
    let x = fade_depth(into, t);
    lemma_fade_bounds(x, t);
    let step = x * x * (3 * t - 2 * x);
    let cube = t * t * t;
    let n = 2 * (step * 255) + cube;
    let f = n / (2 * cube);
    assert(fade_of(into, t) == f);
    assert(0 <= f <= 255 && 2 * (f * cube) <= n < 2 * (f * cube) + 2 * cube) by (nonlinear_arith)
        requires
            f == n / (2 * cube),
            n == 2 * (step * 255) + cube,
            0 <= step <= cube,
            1 <= cube,
    ;
    assert(step * 255 == 255 * step);
}

} // verus!
