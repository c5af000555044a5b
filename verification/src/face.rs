//! What the screen of the device looks like: bars, lines and labels of the
//! hourglass and of the radar, at the places where the device has them.

use vstd::prelude::*;

use crate::mirror::{StateView, TaskState};
use crate::model::{duration_text, format_duration, format_percent, percent_text};
use crate::radar::{Card, CardView, DeviceView, ScreenView};
use crate::text::{decimal, glue, padded, texts, write_decimal, write_padded};

verus! {

/// Something on the screen of the device.
#[derive(Debug)]
pub enum Mark {
    /// A bar with round corners.
    Bar { x: u32, y: u32, w: u32, h: u32, color: u32, radius: u32 },
    /// A line between two points.
    Line { x0: u32, y0: u32, x1: u32, y1: u32, width: u32, color: u32 },
    /// A text that does not leave its box.
    Label { x: u32, y: u32, w: u32, h: u32, text: String, size: u32, color: u32 },
}

#[verifier::ext_equal]
pub enum MarkView {
    Bar { x: int, y: int, w: int, h: int, color: int, radius: int },
    Line { x0: int, y0: int, x1: int, y1: int, width: int, color: int },
    Label { x: int, y: int, w: int, h: int, text: Seq<char>, size: int, color: int },
}

impl View for Mark {
    type V = MarkView;

    open spec fn view(&self) -> MarkView {
        match self {
            Mark::Bar { x, y, w, h, color, radius } => MarkView::Bar {
                x: *x as int,
                y: *y as int,
                w: *w as int,
                h: *h as int,
                color: *color as int,
                radius: *radius as int,
            },
            Mark::Line { x0, y0, x1, y1, width, color } => MarkView::Line {
                x0: *x0 as int,
                y0: *y0 as int,
                x1: *x1 as int,
                y1: *y1 as int,
                width: *width as int,
                color: *color as int,
            },
            Mark::Label { x, y, w, h, text, size, color } => MarkView::Label {
                x: *x as int,
                y: *y as int,
                w: *w as int,
                h: *h as int,
                text: text@,
                size: *size as int,
                color: *color as int,
            },
        }
    }
}

pub open spec fn mark_views(v: Seq<Mark>) -> Seq<MarkView> {
    Seq::new(v.len(), |i: int| v[i]@)
}

/// A bar by its corner, its size, its colour and how round it is.
pub open spec fn bar(x: int, y: int, w: int, h: int, color: int, radius: int) -> MarkView {
    MarkView::Bar { x, y, w, h, color, radius }
}

/// A line by its ends, its width and its colour.
pub open spec fn line(x0: int, y0: int, x1: int, y1: int, width: int, color: int) -> MarkView {
    MarkView::Line { x0, y0, x1, y1, width, color }
}

/// A label by its box, its text, its size and its colour.
pub open spec fn label(
    x: int,
    y: int,
    w: int,
    h: int,
    text: Seq<char>,
    size: int,
    color: int,
) -> MarkView {
    MarkView::Label { x, y, w, h, text, size, color }
}

fn put_bar(marks: &mut Vec<Mark>, x: u32, y: u32, w: u32, h: u32, color: u32, radius: u32)
    ensures
        mark_views(final(marks)@) == mark_views(old(marks)@).push(
            bar(x as int, y as int, w as int, h as int, color as int, radius as int),
        ),
{
    let ghost before = mark_views(marks@);
    marks.push(Mark::Bar { x, y, w, h, color, radius });
    assert(mark_views(marks@) =~= before.push(
        bar(x as int, y as int, w as int, h as int, color as int, radius as int),
    ));
}

fn put_line(marks: &mut Vec<Mark>, x0: u32, y0: u32, x1: u32, y1: u32, width: u32, color: u32)
    ensures
        mark_views(final(marks)@) == mark_views(old(marks)@).push(
            line(x0 as int, y0 as int, x1 as int, y1 as int, width as int, color as int),
        ),
{
    let ghost before = mark_views(marks@);
    marks.push(Mark::Line { x0, y0, x1, y1, width, color });
    assert(mark_views(marks@) =~= before.push(
        line(x0 as int, y0 as int, x1 as int, y1 as int, width as int, color as int),
    ));
}

fn put_label(
    marks: &mut Vec<Mark>,
    x: u32,
    y: u32,
    w: u32,
    h: u32,
    text: &str,
    size: u32,
    color: u32,
)
    ensures
        mark_views(final(marks)@) == mark_views(old(marks)@).push(
            label(x as int, y as int, w as int, h as int, text@, size as int, color as int),
        ),
{
    let ghost before = mark_views(marks@);
    marks.push(Mark::Label { x, y, w, h, text: text.to_owned(), size, color });
    assert(mark_views(marks@) =~= before.push(
        label(x as int, y as int, w as int, h as int, text@, size as int, color as int),
    ));
}

/// The hourglass without its sand: badge, rules, and glass.
pub open spec fn glass_marks(s: StateView) -> Seq<MarkView> {
    seq![
        bar(241, 12, 63, 22, 0x153039, 5),
        label(249, 16, 54, 16, s.badge(), 12, 0xffc276),
        bar(16, 43, 288, 1, 0x19343d, 0),
        bar(32, 56, 96, 5, 0x73d8e8, 2),
        bar(32, 201, 96, 5, 0x73d8e8, 2),
        line(36, 64, 76, 126, 2, 0x76d5e6),
        line(76, 126, 76, 134, 2, 0x76d5e6),
        line(76, 134, 36, 196, 2, 0x76d5e6),
        line(124, 64, 84, 126, 2, 0x76d5e6),
        line(84, 126, 84, 134, 2, 0x76d5e6),
        line(84, 134, 124, 196, 2, 0x76d5e6),
    ]
}

/// How long the bar of a task is: in proportion to what remains, and at least one
/// point while anything does.
pub open spec fn bar_length(bp: int) -> int {
    if 142 * bp / 10000 < 1 {
        1
    } else {
        142 * bp / 10000
    }
}

/// The figures beside the hourglass: what remains, in per cent and as a bar, and
/// the time.
pub open spec fn figure_marks(s: StateView) -> Seq<MarkView> {
    seq![
        label(162, 59, 142, 18, "REMAINING"@, 12, 0x619aa8),
        label(160, 79, 144, 35, percent_text(s.bp as nat), 28, s.accent),
        bar(162, 119, 142, 4, 0x102b34, 1),
    ] + (if s.bp > 0 {
        seq![bar(162, 119, bar_length(s.bp), 4, s.accent, 1)]
    } else {
        Seq::empty()
    }) + seq![
        label(162, 139, 142, 17, "TIME LEFT"@, 12, 0x619aa8),
        label(162, 161, 142, 27, duration_text(s.reset_seconds as nat), 20, 0xe1f8ff),
        label(
            162,
            191,
            142,
            18,
            "ELAPSED "@ + padded(decimal(s.counter as nat), 4),
            12,
            0x619aa8,
        ),
        bar(16, 216, 288, 1, 0x19343d, 0),
    ]
}

/// The hourglass without its sand.
pub fn glass(task: &TaskState) -> (r: Vec<Mark>)
    ensures
        mark_views(r@) == glass_marks(task@),
{
    let mut m: Vec<Mark> = Vec::new();
    put_bar(&mut m, 241, 12, 63, 22, 0x153039, 5);
    put_label(&mut m, 249, 16, 54, 16, task.badge(), 12, 0xffc276);
    put_bar(&mut m, 16, 43, 288, 1, 0x19343d, 0);
    put_bar(&mut m, 32, 56, 96, 5, 0x73d8e8, 2);
    put_bar(&mut m, 32, 201, 96, 5, 0x73d8e8, 2);
    put_line(&mut m, 36, 64, 76, 126, 2, 0x76d5e6);
    put_line(&mut m, 76, 126, 76, 134, 2, 0x76d5e6);
    put_line(&mut m, 76, 134, 36, 196, 2, 0x76d5e6);
    put_line(&mut m, 124, 64, 84, 126, 2, 0x76d5e6);
    put_line(&mut m, 84, 126, 84, 134, 2, 0x76d5e6);
    put_line(&mut m, 84, 134, 124, 196, 2, 0x76d5e6);
    assert(mark_views(m@) =~= glass_marks(task@));
    m
}

/// The figures beside the hourglass.
pub fn figures(task: &TaskState) -> (r: Vec<Mark>)
    requires
        task.bp <= 10000,
    ensures
        mark_views(r@) == figure_marks(task@),
{
    let mut m: Vec<Mark> = Vec::new();
    put_label(&mut m, 162, 59, 142, 18, "REMAINING", 12, 0x619aa8);
    put_label(&mut m, 160, 79, 144, 35, format_percent(task.bp).as_str(), 28, task.accent);
    put_bar(&mut m, 162, 119, 142, 4, 0x102b34, 1);
    if task.bp > 0 {
        let part = 142 * task.bp / 10000;
        let length: u32 = if part < 1 {
            1
        } else {
            part
        };
        put_bar(&mut m, 162, 119, length, 4, task.accent, 1);
    }
    put_label(&mut m, 162, 139, 142, 17, "TIME LEFT", 12, 0x619aa8);
    put_label(&mut m, 162, 161, 142, 27, format_duration(task.reset_seconds).as_str(), 20, 0xe1f8ff);
    let elapsed = glue("ELAPSED ", write_padded(task.counter as u64, 4).as_str());
    put_label(&mut m, 162, 191, 142, 18, elapsed.as_str(), 12, 0x619aa8);
    put_bar(&mut m, 16, 216, 288, 1, 0x19343d, 0);
    assert(mark_views(m@) =~= figure_marks(task@));
    m
}

/// How far a row of sand reaches to either side of the middle: the glass is 78
/// points wide at its ends and narrows evenly over 60 points.
pub open spec fn sand_reach(index: int, upper: bool) -> int {
    let part = if upper {
        39 * (59 - 2 * index) / 60
    } else {
        39 * (2 * index + 1) / 60
    };
    if part < 1 {
        1
    } else {
        part
    }
}

/// One row of sand, in the upper or the lower half of the glass.
pub open spec fn sand_mark(s: StateView, index: int, upper: bool) -> MarkView {
    let reach = sand_reach(index, upper);
    bar(
        80 - reach,
        if upper {
            66 + 2 * index
        } else {
            134 + 2 * index
        },
        2 * reach,
        2,
        if upper {
            s.accent
        } else if s.bp <= 2000 {
            0x80512b
        } else {
            0x287d90
        },
        0,
    )
}

/// Whether there can be sand in a half of the glass at all.
pub open spec fn has_sand(bp: int, upper: bool) -> bool {
    if upper {
        bp > 0
    } else {
        bp < 10000
    }
}

/// The first rows of sand, each of them in the upper half, then in the lower.
/// `upper` and `lower` say which rows are below the surface.
pub open spec fn sand_marks(s: StateView, upper: Seq<bool>, lower: Seq<bool>, n: nat) -> Seq<MarkView>
    decreases n,
{
    if n == 0 {
        Seq::empty()
    } else {
        let i = (n - 1) as nat;
        sand_marks(s, upper, lower, i) + (if has_sand(s.bp, true) && i < upper.len()
            && upper[i as int] {
            seq![sand_mark(s, i as int, true)]
        } else {
            Seq::empty()
        }) + (if has_sand(s.bp, false) && i < lower.len() && lower[i as int] {
            seq![sand_mark(s, i as int, false)]
        } else {
            Seq::empty()
        })
    }
}

fn put_sand(marks: &mut Vec<Mark>, task: &TaskState, index: u32, upper: bool)
    requires
        index < 30,
    ensures
        mark_views(final(marks)@) == mark_views(old(marks)@).push(
            sand_mark(task@, index as int, upper),
        ),
{
    let part: u32 = if upper {
        39 * (59 - 2 * index) / 60
    } else {
        39 * (2 * index + 1) / 60
    };
    let reach: u32 = if part < 1 {
        1
    } else {
        part
    };
    let y: u32 = if upper {
        66 + 2 * index
    } else {
        134 + 2 * index
    };
    let color: u32 = if upper {
        task.accent
    } else if task.bp <= 2000 {
        0x80512b
    } else {
        0x287d90
    };
    put_bar(marks, 80 - reach, y, 2 * reach, 2, color, 0);
}

/// The sand in the hourglass. `upper` and `lower` say for each of 30 rows
/// whether it is below the surface of the sand.
pub fn sand(task: &TaskState, upper: &Vec<bool>, lower: &Vec<bool>) -> (r: Vec<Mark>)
    ensures
        mark_views(r@) == sand_marks(task@, upper@, lower@, 30),
{
    let mut m: Vec<Mark> = Vec::new();
    let mut i: usize = 0;
    assert(mark_views(m@) =~= Seq::empty());
    while i < 30
        invariant
            i <= 30,
            mark_views(m@) == sand_marks(task@, upper@, lower@, i as nat),
        decreases 30 - i,
    {
        let ghost before = mark_views(m@);
        if task.bp > 0 && i < upper.len() && upper[i] {
            put_sand(&mut m, task, i as u32, true);
        }
        let ghost middle = mark_views(m@);
        if task.bp < 10000 && i < lower.len() && lower[i] {
            put_sand(&mut m, task, i as u32, false);
        }
        i += 1;
        assert(mark_views(m@) =~= sand_marks(task@, upper@, lower@, i as nat));
    }
    m
}

/// Where a falling grain is on its way, in parts of 64.
pub open spec fn grain_phase(frames: int, index: int) -> int {
    let frame = if frames < 1 {
        0
    } else {
        frames - 1
    };
    (2 * frame + 9 * index) % 64
}

proof fn lemma_phase(frame: int, index: int)
    requires
        frame >= 0,
    ensures
        (2 * frame + 9 * index) % 64 == (2 * (frame % 32) + 9 * index) % 64,
{
    let rest = 2 * (frame % 32) + 9 * index;
    vstd::arithmetic::div_mod::lemma_fundamental_div_mod(frame, 32);
    assert(2 * frame + 9 * index == 64 * (frame / 32) + rest);
    vstd::arithmetic::div_mod::lemma_mod_multiples_vanish(frame / 32, rest, 64);
}

/// The first falling grains. `depth` says how deep a grain has fallen at each
/// phase.
pub open spec fn grain_marks(s: StateView, depth: Seq<u32>, n: nat) -> Seq<MarkView>
    decreases n,
{
    if n == 0 {
        Seq::empty()
    } else {
        let frame = if s.frames < 1 {
            0
        } else {
            s.frames - 1
        };
        let phase = grain_phase(s.frames, n as int);
        grain_marks(s, depth, (n - 1) as nat) + (if phase < depth.len() {
            seq![bar(78 + (n + frame / 8) % 3, 128 + depth[phase], 2, 3, 0xabf5ff, 0)]
        } else {
            Seq::empty()
        })
    }
}

/// The seven grains that fall while a task runs and anything remains. `depth` says
/// for each of 64 phases how deep a grain has fallen, which is 63 points at most.
pub fn grains(task: &TaskState, depth: &Vec<u32>) -> (r: Vec<Mark>)
    requires
        forall|i: int| 0 <= i < depth@.len() ==> #[trigger] depth@[i] <= 63,
    ensures
        mark_views(r@) == if task.bp > 0 && task.reset_seconds > 0 {
            grain_marks(task@, depth@, 7)
        } else {
            Seq::empty()
        },
{
    let mut m: Vec<Mark> = Vec::new();
    assert(mark_views(m@) =~= Seq::empty());
    if task.bp == 0 || task.reset_seconds == 0 {
        return m;
    }
    let frame: u64 = if task.frames < 1 {
        0
    } else {
        task.frames - 1
    };
    let mut n: u64 = 0;
    while n < 7
        invariant
            n <= 7,
            frame == if task.frames < 1 {
                0
            } else {
                task.frames - 1
            },
            forall|i: int| 0 <= i < depth@.len() ==> #[trigger] depth@[i] <= 63,
            mark_views(m@) == grain_marks(task@, depth@, n as nat),
        decreases 7 - n,
    {
        n += 1;
        let phase: usize = ((2 * (frame % 32) + 9 * n) % 64) as usize;
        proof {
            lemma_phase(frame as int, n as int);
        }
        if phase < depth.len() {
            let x: u32 = 78 + ((n + frame / 8) % 3) as u32;
            put_bar(&mut m, x, 128 + depth[phase], 2, 3, 0xabf5ff, 0);
        }
        assert(mark_views(m@) =~= grain_marks(task@, depth@, n as nat));
    }
    m
}

/// The values of a card as they are written: points, price and minutes.
#[derive(Debug)]
pub struct CardTexts {
    pub score: String,
    pub price: String,
    pub minutes: String,
}

/// Four lines about a card.
pub open spec fn card_marks(card: CardView, t: CardTexts, y: int) -> Seq<MarkView> {
    seq![
        label(8, y, 141, 14, card.label, 10, card.color),
        label(
            9,
            y + 14,
            91,
            35,
            if card.score < 0 {
                "--"@
            } else {
                t.score@
            },
            28,
            card.color,
        ),
        label(108, y + 21, 39, 16, "x"@ + decimal(card.count as nat), 12, 0x8296aa),
        label(
            9,
            y + 50,
            140,
            15,
            (if card.price < 0 {
                "$--"@
            } else {
                t.price@
            }) + "   "@ + if card.minutes < 0 {
                "--m"@
            } else {
                t.minutes@
            },
            10,
            0x8296aa,
        ),
    ]
}

/// The cards from one on, at most two of them.
pub open spec fn cards_marks(
    cards: Seq<CardView>,
    first: int,
    t: Seq<CardTexts>,
    n: nat,
) -> Seq<MarkView>
    decreases n,
{
    if n == 0 {
        Seq::empty()
    } else {
        let i = (n - 1) as nat;
        cards_marks(cards, first, t, i) + if first + i < cards.len() && i < t.len() {
            card_marks(cards[first + i], t[i as int], 52 + 70 * i as int)
        } else {
            Seq::empty()
        }
    }
}

/// What is said of each curve: its name and its share.
pub open spec fn legend_marks(s: ScreenView, shares: Seq<Seq<char>>, n: nat) -> Seq<MarkView>
    decreases n,
{
    if n == 0 {
        Seq::empty()
    } else {
        let i = (n - 1) as nat;
        legend_marks(s, shares, i) + if i < s.data.series.len() && i < shares.len() {
            seq![
                label(
                    224,
                    123 + 15 * i as int,
                    92,
                    14,
                    s.data.series[i as int].name + " "@ + shares[i as int],
                    10,
                    s.data.series[i as int].color,
                ),
            ]
        } else {
            Seq::empty()
        }
    }
}

/// The radar without its curves and its ring.
pub open spec fn radar_marks(
    s: ScreenView,
    elapsed: int,
    cards: Seq<CardTexts>,
    shares: Seq<Seq<char>>,
    total: Seq<char>,
) -> Seq<MarkView> {
    seq![
        label(8, 5, 160, 24, "AI RADAR"@, 20, 0xe1f8ff),
        label(220, 10, 96, 14, s.badge(elapsed), 10, 0x8296aa),
        line(8, 30, 312, 30, 1, 0x253547),
        line(153, 37, 153, 194, 1, 0x253547),
        label(8, 34, 143, 15, "CODE / LAST 10 TASKS"@, 10, 0x8296aa),
        label(163, 34, 151, 15, "REQUESTS / 24H"@, 10, 0x8296aa),
    ] + cards_marks(s.data.cards, 2 * s.page(elapsed), cards, 2) + seq![
        label(8, 192, 143, 13, s.pages_text(elapsed), 10, 0x8296aa),
    ] + legend_marks(s, shares, 4) + seq![
        label(
            163,
            102,
            151,
            18,
            if s.data.total < 0 {
                "USAGE UNAVAILABLE"@
            } else {
                total
            },
            12,
            0xe1f8ff,
        ),
        line(8, 208, 312, 208, 1, 0x253547),
        label(8, 217, 51, 17, "RESET"@, 12, 0x24d7ea),
        label(65, 217, 249, 17, s.reset_text(elapsed), 12, 0xe1f8ff),
    ]
}

fn put_card(marks: &mut Vec<Mark>, card: &Card, t: &CardTexts, y: u32)
    requires
        y <= 200,
    ensures
        mark_views(final(marks)@) == mark_views(old(marks)@) + card_marks(card@, *t, y as int),
{
    let ghost before = mark_views(marks@);
    let score = if card.3 < 0 {
        "--"
    } else {
        t.score.as_str()
    };
    let price = if card.4 < 0 {
        "$--"
    } else {
        t.price.as_str()
    };
    let minutes = if card.5 < 0 {
        "--m"
    } else {
        t.minutes.as_str()
    };
    put_label(marks, 8, y, 141, 14, card.0.as_str(), 10, card.2);
    put_label(marks, 9, y + 14, 91, 35, score, 28, card.2);
    let count = glue("x", write_decimal(card.1 as u64).as_str());
    put_label(marks, 108, y + 21, 39, 16, count.as_str(), 12, 0x8296aa);
    let mut values = glue(price, "   ");
    values.append(minutes);
    put_label(marks, 9, y + 50, 140, 15, values.as_str(), 10, 0x8296aa);
    assert(mark_views(marks@) =~= before + card_marks(card@, *t, y as int));
}

/// The radar without its curves and its ring, `elapsed` seconds after the device
/// was heard of. The values of the cards that are up, the shares of the curves
/// and the number of requests come as they are written.
pub fn radar(
    screen: &DeviceView,
    elapsed: u64,
    cards: &Vec<CardTexts>,
    shares: &Vec<String>,
    total: &str,
) -> (r: Vec<Mark>)
    requires
        screen@.wf(),
        screen.age + elapsed <= u64::MAX,
    ensures
        mark_views(r@) == radar_marks(screen@, elapsed as int, cards@, texts(shares@), total@),
{
    let ghost s = screen@;
    let ghost e = elapsed as int;
    let mut m: Vec<Mark> = Vec::new();
    put_label(&mut m, 8, 5, 160, 24, "AI RADAR", 20, 0xe1f8ff);
    put_label(&mut m, 220, 10, 96, 14, screen.badge(elapsed).as_str(), 10, 0x8296aa);
    put_line(&mut m, 8, 30, 312, 30, 1, 0x253547);
    put_line(&mut m, 153, 37, 153, 194, 1, 0x253547);
    put_label(&mut m, 8, 34, 143, 15, "CODE / LAST 10 TASKS", 10, 0x8296aa);
    put_label(&mut m, 163, 34, 151, 15, "REQUESTS / 24H", 10, 0x8296aa);
    let ghost head = mark_views(m@);
    let first = 2 * screen.page(elapsed);
    let mut i: usize = 0;
    assert(head =~= head + cards_marks(s.data.cards, first as int, cards@, 0));
    while i < 2
        invariant
            i <= 2,
            s == screen@,
            first <= 12,
            mark_views(m@) == head + cards_marks(s.data.cards, first as int, cards@, i as nat),
        decreases 2 - i,
    {
        let ghost before = mark_views(m@);
        if first + i < screen.data.cards.len() && i < cards.len() {
            assert(s.data.cards[first + i] == screen.data.cards@[first + i]@);
            put_card(&mut m, &screen.data.cards[first + i], &cards[i], 52 + 70 * i as u32);
        }
        i += 1;
        assert(mark_views(m@) =~= head + cards_marks(s.data.cards, first as int, cards@, i as nat));
    }
    put_label(&mut m, 8, 192, 143, 13, screen.pages_text(elapsed).as_str(), 10, 0x8296aa);
    let ghost middle = mark_views(m@);
    let ghost given = texts(shares@);
    let mut k: usize = 0;
    assert(middle =~= middle + legend_marks(s, given, 0));
    while k < 4
        invariant
            k <= 4,
            s == screen@,
            given == texts(shares@),
            mark_views(m@) == middle + legend_marks(s, given, k as nat),
        decreases 4 - k,
    {
        if k < screen.data.series.len() && k < shares.len() {
            let row = &screen.data.series[k];
            assert(s.data.series[k as int] == row@);
            assert(given[k as int] == shares@[k as int]@);
            let mut text = glue(row.0.as_str(), " ");
            text.append(shares[k].as_str());
            put_label(&mut m, 224, 123 + 15 * k as u32, 92, 14, text.as_str(), 10, row.1);
        }
        k += 1;
        assert(mark_views(m@) =~= middle + legend_marks(s, given, k as nat));
    }
    let requests = if screen.data.total < 0 {
        "USAGE UNAVAILABLE"
    } else {
        total
    };
    put_label(&mut m, 163, 102, 151, 18, requests, 12, 0xe1f8ff);
    put_line(&mut m, 8, 208, 312, 208, 1, 0x253547);
    put_label(&mut m, 8, 217, 51, 17, "RESET", 12, 0x24d7ea);
    put_label(&mut m, 65, 217, 249, 17, screen.reset_text(elapsed).as_str(), 12, 0xe1f8ff);
    assert(mark_views(m@) =~= radar_marks(s, e, cards@, given, total@));
    m
}

/// Whether a mark lies on the screen of the device.
pub open spec fn on_screen(m: MarkView) -> bool {
    match m {
        MarkView::Bar { x, y, w, h, .. } => 0 <= x && 0 <= y && 0 < w && 0 < h && x + w <= 320 && y
            + h <= 240,
        MarkView::Line { x0, y0, x1, y1, .. } => 0 <= x0 <= 320 && 0 <= x1 <= 320 && 0 <= y0 <= 240
            && 0 <= y1 <= 240,
        MarkView::Label { x, y, w, h, .. } => 0 <= x && 0 <= y && 0 < w && 0 < h && x + w <= 320
            && y + h <= 240,
    }
}

/// Whether some marks write a text.
pub open spec fn write_out(marks: Seq<MarkView>, text: Seq<char>) -> bool {
    exists|i: int|
        0 <= i < marks.len() && (#[trigger] marks[i] matches MarkView::Label { text: t, .. } && t
            == text)
}

/// The hourglass is upright and stands on the screen: what is drawn left of its middle
/// is drawn right of it too, and the badge tells the state of the task.
pub proof fn law_glass_is_even(s: StateView)
    ensures
        ({
            let marks = glass_marks(s);
            &&& marks.len() == 11
            &&& forall|i: int| 0 <= i < marks.len() ==> on_screen(#[trigger] marks[i])
            &&& write_out(marks, s.badge())
            &&& forall|i: int|
                #![trigger marks[i]]
                5 <= i < 8 ==> (marks[i] matches MarkView::Line { x0, y0, x1, y1, width, color }
                    && marks[i + 3] == line(160 - x0, y0, 160 - x1, y1, width, color) && x0 < 80
                    && x1 < 80)
            &&& forall|i: int|
                #![trigger marks[i]]
                3 <= i < 5 ==> (marks[i] matches MarkView::Bar { x, w, .. } && 2 * x + w == 160)
        }),
{
    let marks = glass_marks(s);
    assert(marks[1] == label(249, 16, 54, 16, s.badge(), 12, 0xffc276));
    assert(marks[5] == line(36, 64, 76, 126, 2, 0x76d5e6));
    assert(marks[8] == line(124, 64, 84, 126, 2, 0x76d5e6));
    assert(marks[6] == line(76, 126, 76, 134, 2, 0x76d5e6));
    assert(marks[9] == line(84, 126, 84, 134, 2, 0x76d5e6));
    assert(marks[7] == line(76, 134, 36, 196, 2, 0x76d5e6));
    assert(marks[10] == line(84, 134, 124, 196, 2, 0x76d5e6));
}

/// Beside the hourglass stand what remains in per cent, the time that is left, and how
/// many seconds have passed.
pub proof fn law_figures_say_the_state(s: StateView)
    requires
        0 <= s.bp <= 10000,
    ensures
        ({
            let marks = figure_marks(s);
            &&& forall|i: int| 0 <= i < marks.len() ==> on_screen(#[trigger] marks[i])
            &&& write_out(marks, percent_text(s.bp as nat))
            &&& write_out(marks, duration_text(s.reset_seconds as nat))
            &&& write_out(marks, "ELAPSED "@ + padded(decimal(s.counter as nat), 4))
            &&& s.bp == 0 ==> marks.len() == 7
            &&& s.bp > 0 ==> marks.len() == 8 && (marks[3] matches MarkView::Bar {
                x,
                y,
                w,
                h,
                color,
                ..
            } && marks[2] matches MarkView::Bar { x: x0, y: y0, w: full, h: h0, .. } && x == x0
                && y == y0 && h == h0 && color == s.accent && full == 142 && w == bar_length(s.bp))
        }),
{
    let marks = figure_marks(s);
    let n = marks.len() as int;
    law_bar_is_in_proportion(s.bp, s.bp);
    assert(marks[1] == label(160, 79, 144, 35, percent_text(s.bp as nat), 28, s.accent));
    assert(marks[n - 3] == label(
        162,
        161,
        142,
        27,
        duration_text(s.reset_seconds as nat),
        20,
        0xe1f8ff,
    ));
    assert(marks[n - 2] == label(
        162,
        191,
        142,
        18,
        "ELAPSED "@ + padded(decimal(s.counter as nat), 4),
        12,
        0x619aa8,
    ));
}

/// The bar is as long as its share of the whole, to within a point; it is full for all
/// and no shorter than a point, and more never makes it shorter.
pub proof fn law_bar_is_in_proportion(bp: int, more: int)
    requires
        0 <= bp <= more <= 10000,
    ensures
        1 <= bar_length(bp) <= bar_length(more) <= 142,
        bar_length(10000) == 142,
        bar_length(bp) > 1 ==> 142 * bp - 10000 < 10000 * bar_length(bp) <= 142 * bp,
{
}

/// Sand lies in the middle of the glass and within it. In the upper half it narrows
/// downwards, and the lower half is the upper one upside down.
pub proof fn law_sand_lies_in_the_glass(s: StateView, i: int)
    requires
        0 <= i < 30,
    ensures
        ({
            let top = sand_mark(s, i, true);
            let bottom = sand_mark(s, 29 - i, false);
            &&& on_screen(top) && on_screen(bottom)
            &&& top matches MarkView::Bar { x, y, w, h, color, .. }
            &&& bottom matches MarkView::Bar { x: x1, y: y1, w: w1, h: h1, color: low, .. }
            &&& 2 * x + w == 160 && 2 * x1 + w1 == 160
            &&& w == w1 && h == 2 && h1 == 2
            &&& y == 66 + 2 * i && y1 == 192 - 2 * i
            &&& w <= 78
            &&& i < 29 ==> sand_reach(i + 1, true) <= sand_reach(i, true)
            &&& color == s.accent
            &&& low == if s.bp <= 2000 {
                0x80512bint
            } else {
                0x287d90
            }
        }),
{
}

/// Just the rows below the surface are filled: every one of them in its half, the upper
/// half not at all once nothing remains, and the lower half not before anything fell.
pub proof fn law_sand_fills_the_rows(
    s: StateView,
    upper: Seq<bool>,
    lower: Seq<bool>,
    n: nat,
    i: int,
)
    requires
        0 <= i < n,
        n <= upper.len(),
        n <= lower.len(),
        n <= 30,
    ensures
        sand_marks(s, upper, lower, n).contains(sand_mark(s, i, true)) <==> s.bp > 0 && upper[i],
        sand_marks(s, upper, lower, n).contains(sand_mark(s, i, false)) <==> s.bp < 10000
            && lower[i],
    decreases n,
{
    let last = n - 1;
    let front = sand_marks(s, upper, lower, (n - 1) as nat);
    let all = sand_marks(s, upper, lower, n);
    let a = if s.bp > 0 && upper[last] {
        seq![sand_mark(s, last, true)]
    } else {
        Seq::empty()
    };
    let b = if s.bp < 10000 && lower[last] {
        seq![sand_mark(s, last, false)]
    } else {
        Seq::empty()
    };
    assert(all == front + a + b);
    lemma_joined_contains(front, a, b, sand_mark(s, i, true));
    lemma_joined_contains(front, a, b, sand_mark(s, i, false));
    lemma_rows_apart(s, i, last);
    if i < last {
        law_sand_fills_the_rows(s, upper, lower, (n - 1) as nat, i);
    } else {
        lemma_row_is_new(s, upper, lower, (n - 1) as nat, last);
    }
    if a.len() > 0 {
        assert(a[0] == sand_mark(s, last, true));
    }
    if b.len() > 0 {
        assert(b[0] == sand_mark(s, last, false));
    }
}

proof fn lemma_joined_contains(a: Seq<MarkView>, b: Seq<MarkView>, c: Seq<MarkView>, m: MarkView)
    ensures
        (a + b + c).contains(m) <==> a.contains(m) || b.contains(m) || c.contains(m),
{
    let all = a + b + c;
    if a.contains(m) {
        let i = choose|i: int| 0 <= i < a.len() && a[i] == m;
        assert(all[i] == m);
    }
    if b.contains(m) {
        let i = choose|i: int| 0 <= i < b.len() && b[i] == m;
        assert(all[a.len() + i] == m);
    }
    if c.contains(m) {
        let i = choose|i: int| 0 <= i < c.len() && c[i] == m;
        assert(all[a.len() + b.len() + i] == m);
    }
    if all.contains(m) {
        let i = choose|i: int| 0 <= i < all.len() && all[i] == m;
        if i < a.len() {
            assert(a[i] == m);
        } else if i < a.len() + b.len() {
            assert(b[i - a.len()] == m);
        } else {
            assert(c[i - a.len() - b.len()] == m);
        }
    }
}

proof fn lemma_rows_apart(s: StateView, i: int, j: int)
    requires
        0 <= i < 30,
        0 <= j < 30,
    ensures
        sand_mark(s, i, true) != sand_mark(s, j, false),
        i != j ==> sand_mark(s, i, true) != sand_mark(s, j, true),
        i != j ==> sand_mark(s, i, false) != sand_mark(s, j, false),
{
}

proof fn lemma_row_is_new(s: StateView, upper: Seq<bool>, lower: Seq<bool>, n: nat, i: int)
    requires
        n <= i < 30,
    ensures
        !sand_marks(s, upper, lower, n).contains(sand_mark(s, i, true)),
        !sand_marks(s, upper, lower, n).contains(sand_mark(s, i, false)),
    decreases n,
{
    if n > 0 {
        let k = (n - 1) as nat;
        let front = sand_marks(s, upper, lower, k);
        let a = if has_sand(s.bp, true) && k < upper.len() && upper[k as int] {
            seq![sand_mark(s, k as int, true)]
        } else {
            Seq::empty()
        };
        let b = if has_sand(s.bp, false) && k < lower.len() && lower[k as int] {
            seq![sand_mark(s, k as int, false)]
        } else {
            Seq::empty()
        };
        lemma_row_is_new(s, upper, lower, k, i);
        lemma_joined_contains(front, a, b, sand_mark(s, i, true));
        lemma_joined_contains(front, a, b, sand_mark(s, i, false));
        lemma_rows_apart(s, i, k as int);
        lemma_rows_apart(s, k as int, i);
    }
}

/// Every grain falls through the neck as deep as its phase says, each of them nine
/// parts behind the next, and all of them two parts further with every frame.
pub proof fn law_grains_fall(s: StateView, depth: Seq<u32>, n: nat, i: int)
    requires
        0 <= i < n,
        depth.len() == 64,
        forall|k: int| 0 <= k < 64 ==> #[trigger] depth[k] <= 63,
        1 <= s.frames,
    ensures
        grain_marks(s, depth, n).len() == n,
        on_screen(grain_marks(s, depth, n)[i]),
        grain_marks(s, depth, n)[i] matches MarkView::Bar { x, y, w, h, .. } && 78 <= x <= 80 && y
            == 128 + depth[(2 * (s.frames - 1) + 9 * (i + 1)) % 64] && w == 2 && h == 3,
    decreases n,
{
    let phase = grain_phase(s.frames, n as int);
    assert(0 <= phase < 64);
    if n > 1 {
        if i < n - 1 {
            law_grains_fall(s, depth, (n - 1) as nat, i);
        } else {
            law_grains_fall(s, depth, (n - 1) as nat, 0);
        }
    } else {
        assert(grain_marks(s, depth, 0).len() == 0);
    }
    let frame = s.frames - 1;
    assert(0 <= (n + frame / 8) % 3 < 3);
    assert(depth[phase] <= 63);
}

/// A card says its name and its count and, in this order, its points, its price and its
/// minutes, dashes for those that are missing.
pub proof fn law_card_says_its_values(card: CardView, t: CardTexts, y: int)
    requires
        0 <= y <= 160,
    ensures
        ({
            let marks = card_marks(card, t, y);
            let price = if card.price < 0 {
                "$--"@
            } else {
                t.price@
            };
            let minutes = if card.minutes < 0 {
                "--m"@
            } else {
                t.minutes@
            };
            &&& forall|i: int| 0 <= i < marks.len() ==> on_screen(#[trigger] marks[i])
            &&& write_out(marks, card.label)
            &&& card.score >= 0 ==> write_out(marks, t.score@)
            &&& card.score < 0 ==> write_out(marks, "--"@)
            &&& write_out(marks, "x"@ + decimal(card.count as nat))
            &&& write_out(marks, price + "   "@ + minutes)
        }),
{
    let marks = card_marks(card, t, y);
    assert(marks[0] is Label && marks[1] is Label && marks[2] is Label && marks[3] is Label);
}

/// The radar shows the two cards of the page that is up, a legend for each curve, the
/// number of requests, and when the quota is reset.
pub proof fn law_radar_says_its_data(
    s: ScreenView,
    elapsed: int,
    cards: Seq<CardTexts>,
    shares: Seq<Seq<char>>,
    total: Seq<char>,
)
    ensures
        ({
            let marks = radar_marks(s, elapsed, cards, shares, total);
            let first = 2 * s.page(elapsed);
            &&& write_out(marks, s.badge(elapsed))
            &&& write_out(marks, s.pages_text(elapsed))
            &&& write_out(marks, s.reset_text(elapsed))
            &&& s.data.total >= 0 ==> write_out(marks, total)
            &&& s.data.total < 0 ==> write_out(marks, "USAGE UNAVAILABLE"@)
            &&& forall|i: int|
                #![trigger cards[i]]
                0 <= i < 2 && i < cards.len() && first + i < s.data.cards.len() ==> forall|k: int|
                    0 <= k < 4 ==> marks.contains(
                        #[trigger] card_marks(s.data.cards[first + i], cards[i], 52 + 70 * i)[k],
                    )
            &&& forall|i: int|
                #![trigger shares[i]]
                0 <= i < 4 && i < shares.len() && i < s.data.series.len() ==> write_out(
                    marks,
                    s.data.series[i].name + " "@ + shares[i],
                )
        }),
{
    let marks = radar_marks(s, elapsed, cards, shares, total);
    let first = 2 * s.page(elapsed);
    let up = cards_marks(s.data.cards, first, cards, 2);
    let legend = legend_marks(s, shares, 4);
    let n = marks.len() as int;
    assert(n == 6 + up.len() + 1 + legend.len() + 4);
    assert(marks[1] == label(220, 10, 96, 14, s.badge(elapsed), 10, 0x8296aa));
    assert(marks[6 + up.len() as int] == label(8, 192, 143, 13, s.pages_text(elapsed), 10, 0x8296aa));
    assert(marks[n - 1] == label(65, 217, 249, 17, s.reset_text(elapsed), 12, 0xe1f8ff));
    assert(marks[n - 4] is Label);
    assert forall|i: int|
        #![trigger cards[i]]
        0 <= i < 2 && i < cards.len() && first + i < s.data.cards.len() implies forall|k: int|
        0 <= k < 4 ==> marks.contains(
            #[trigger] card_marks(s.data.cards[first + i], cards[i], 52 + 70 * i)[k],
        ) by {
        lemma_card_is_up(s.data.cards, first, cards, 2, i);
        let one = card_marks(s.data.cards[first + i], cards[i], 52 + 70 * i);
        assert forall|k: int| 0 <= k < 4 implies marks.contains(#[trigger] one[k]) by {
            assert(up.contains(one[k]));
            let j = choose|j: int| 0 <= j < up.len() && up[j] == one[k];
            assert(marks[6 + j] == one[k]);
        }
    }
    assert forall|i: int|
        #![trigger shares[i]]
        0 <= i < 4 && i < shares.len() && i < s.data.series.len() implies write_out(
        marks,
        s.data.series[i].name + " "@ + shares[i],
    ) by {
        lemma_legend_is_there(s, shares, 4, i);
        let text = s.data.series[i].name + " "@ + shares[i];
        let j = choose|j: int|
            0 <= j < legend.len() && (#[trigger] legend[j] matches MarkView::Label { text: t, .. }
                && t == text);
        assert(marks[7 + up.len() as int + j] == legend[j]);
    }
}

proof fn lemma_card_is_up(cards: Seq<CardView>, first: int, t: Seq<CardTexts>, n: nat, i: int)
    requires
        0 <= i < n,
        i < t.len(),
        first + i < cards.len(),
    ensures
        forall|k: int|
            0 <= k < 4 ==> cards_marks(cards, first, t, n).contains(
                #[trigger] card_marks(cards[first + i], t[i], 52 + 70 * i)[k],
            ),
    decreases n,
{
    let one = card_marks(cards[first + i], t[i], 52 + 70 * i);
    let front = cards_marks(cards, first, t, (n - 1) as nat);
    let all = cards_marks(cards, first, t, n);
    if i < n - 1 {
        lemma_card_is_up(cards, first, t, (n - 1) as nat, i);
        assert forall|k: int| 0 <= k < 4 implies all.contains(#[trigger] one[k]) by {
            assert(front.contains(one[k]));
            let j = choose|j: int| 0 <= j < front.len() && front[j] == one[k];
            assert(all[j] == one[k]);
        }
    } else {
        assert(all == front + one);
        assert forall|k: int| 0 <= k < 4 implies all.contains(#[trigger] one[k]) by {
            assert(all[front.len() + k] == one[k]);
        }
    }
}

proof fn lemma_legend_is_there(s: ScreenView, shares: Seq<Seq<char>>, n: nat, i: int)
    requires
        0 <= i < n,
        i < shares.len(),
        i < s.data.series.len(),
    ensures
        write_out(legend_marks(s, shares, n), s.data.series[i].name + " "@ + shares[i]),
    decreases n,
{
    let front = legend_marks(s, shares, (n - 1) as nat);
    let all = legend_marks(s, shares, n);
    let text = s.data.series[i].name + " "@ + shares[i];
    if i < n - 1 {
        lemma_legend_is_there(s, shares, (n - 1) as nat, i);
        let j = choose|j: int|
            0 <= j < front.len() && (#[trigger] front[j] matches MarkView::Label { text: t, .. }
                && t == text);
        assert(all[j] == front[j]);
    } else {
        assert(all[front.len() as int] is Label);
    }
}

} // verus!
