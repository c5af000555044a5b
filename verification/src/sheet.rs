//! The calendar page: which lines of the day have room, and what is drawn.

use vstd::prelude::*;

use crate::calendar_data::lines_of;
use crate::json::{at, bool_of, items_of, models, text_at, text_under, u64_of, Json, JsonView};
use crate::canvas::{Region, RenderError, Rgb};
use crate::render::{
    rule, shape_views, text_shape, written, Frame, Place, Shape, ShapeView, Text, TextView,
};
use crate::text::{decimal, glue, padded, texts, write_decimal, write_two};
use crate::wrap::{
    fit_single_line_font, largest, law_wrapping_keeps_the_text, measures, wrap_text, wrapped,
};

verus! {

/// A line on the calendar page: the number of its item, whether that is shown,
/// what it says, whether it is done, and its height.
#[derive(Debug)]
pub struct Row {
    pub number: u64,
    pub numbered: bool,
    pub text: String,
    pub done: bool,
    pub top: u32,
}

#[verifier::ext_equal]
pub struct RowView {
    pub number: int,
    pub numbered: bool,
    pub text: Seq<char>,
    pub done: bool,
    pub top: int,
}

impl View for Row {
    type V = RowView;

    open spec fn view(&self) -> RowView {
        RowView {
            number: self.number as int,
            numbered: self.numbered,
            text: self.text@,
            done: self.done,
            top: self.top as int,
        }
    }
}

pub open spec fn row_views(v: Seq<Row>) -> Seq<RowView> {
    Seq::new(v.len(), |i: int| v[i]@)
}

/// An item whose text is broken into lines.
#[derive(Debug)]
pub struct Entry {
    pub lines: Vec<String>,
    pub done: bool,
}

#[verifier::ext_equal]
pub struct EntryLines {
    pub lines: Seq<Seq<char>>,
    pub done: bool,
}

impl View for Entry {
    type V = EntryLines;

    open spec fn view(&self) -> EntryLines {
        EntryLines { lines: texts(self.lines@), done: self.done }
    }
}

pub open spec fn entry_lines(v: Seq<Entry>) -> Seq<EntryLines> {
    Seq::new(v.len(), |i: int| v[i]@)
}

/// A page that is filled from above: its lines, how far down they reach, and
/// whether something had no room.
#[verifier::ext_equal]
pub struct SheetView {
    pub rows: Seq<RowView>,
    pub y: int,
    pub full: bool,
}

/// A page without lines.
pub open spec fn blank_sheet() -> SheetView {
    SheetView { rows: Seq::empty(), y: 60, full: false }
}

/// The page with the first lines of an item added, as long as there is room
/// above the foot of the page.
pub open spec fn with_lines(s: SheetView, number: int, e: EntryLines, n: nat) -> SheetView
    decreases n,
{
    if n == 0 || n > e.lines.len() {
        s
    } else {
        let before = with_lines(s, number, e, (n - 1) as nat);
        if before.full {
            before
        } else if before.y + 18 > 217 {
            SheetView { full: true, ..before }
        } else {
            SheetView {
                rows: before.rows.push(
                    RowView {
                        number,
                        numbered: n == 1 || before.rows.len() == 0,
                        text: e.lines[n - 1],
                        done: e.done,
                        top: before.y,
                    },
                ),
                y: before.y + 18,
                full: false,
            }
        }
    }
}

/// The page with the first items on it, with space between them.
pub open spec fn sheet_of(entries: Seq<EntryLines>) -> SheetView
    decreases entries.len(),
{
    if entries.len() == 0 {
        blank_sheet()
    } else {
        let before = sheet_of(entries.drop_last());
        if before.full {
            before
        } else {
            let after = with_lines(
                before,
                entries.len() as int,
                entries.last(),
                entries.last().lines.len(),
            );
            if after.full {
                after
            } else {
                SheetView { y: after.y + 6, ..after }
            }
        }
    }
}

impl SheetView {
    /// Lines stand between head and foot of the page, and each below the one
    /// before.
    pub open spec fn wf(&self) -> bool {
        &&& 60 <= self.y
        &&& forall|i: int|
            #![trigger self.rows[i]]
            0 <= i < self.rows.len() ==> 60 <= self.rows[i].top && self.rows[i].top + 18 <= 217
                && self.rows[i].top + 18 <= self.y
        &&& forall|i: int, j: int|
            #![trigger self.rows[i], self.rows[j]]
            0 <= i < j < self.rows.len() ==> self.rows[i].top + 18 <= self.rows[j].top
    }
}

proof fn lemma_lines_wf(s: SheetView, number: int, e: EntryLines, n: nat)
    requires
        s.wf(),
    ensures
        with_lines(s, number, e, n).wf(),
        with_lines(s, number, e, n).y >= s.y,
    decreases n,
{
    if n != 0 && n <= e.lines.len() {
        lemma_lines_wf(s, number, e, (n - 1) as nat);
    }
}

/// Whatever a day holds, its lines stay between head and foot of the page, each
/// below the one before.
pub proof fn law_lines_stay_on_the_page(entries: Seq<EntryLines>)
    ensures
        sheet_of(entries).wf(),
    decreases entries.len(),
{
    if entries.len() > 0 {
        law_lines_stay_on_the_page(entries.drop_last());
        let before = sheet_of(entries.drop_last());
        lemma_lines_wf(
            before,
            entries.len() as int,
            entries.last(),
            entries.last().lines.len(),
        );
    }
}

/// A page that is filled from above.
#[derive(Debug)]
pub struct Sheet {
    pub rows: Vec<Row>,
    pub y: u32,
    pub full: bool,
}

impl View for Sheet {
    type V = SheetView;

    open spec fn view(&self) -> SheetView {
        SheetView { rows: row_views(self.rows@), y: self.y as int, full: self.full }
    }
}

/// Puts the items of a day on a page, as far as they have room.
pub fn lay_out(entries: &Vec<Entry>) -> (r: Sheet)
    requires
        forall|i: int| 0 <= i < entries@.len() ==> (#[trigger] entries@[i]).lines@.len() > 0,
    ensures
        r@ == sheet_of(entry_lines(entries@)),
        r@.wf(),
{
    let ghost all = entry_lines(entries@);
    let count = entries.len();
    let mut sheet = Sheet { rows: Vec::new(), y: 60, full: false };
    let mut i: usize = 0;
    proof {
        assert(all.take(0) =~= Seq::empty());
        assert(sheet@ =~= blank_sheet());
        assert(all.take(all.len() as int) =~= all);
        law_lines_stay_on_the_page(all);
    }
    while i < count
        invariant
            i <= count == entries@.len(),
            forall|i: int| 0 <= i < entries@.len() ==> (#[trigger] entries@[i]).lines@.len() > 0,
            all == entry_lines(entries@),
            sheet@ == sheet_of(all.take(i as int)),
            !sheet.full,
            sheet.y <= 223,
        decreases count - i,
    {
        let entry = &entries[i];
        let ghost e = entry@;
        let ghost start = sheet@;
        proof {
            assert(all.take(i as int + 1).drop_last() =~= all.take(i as int));
            assert(all.take(i as int + 1).last() == e);
            assert(all[i as int] == e);
        }
        let mut n: usize = 0;
        while n < entry.lines.len()
            invariant
                n <= entry.lines@.len(),
                i < count == entries@.len(),
                all == entry_lines(entries@),
                start == sheet_of(all.take(i as int)),
                !start.full,
                n == 0 ==> sheet.y <= 223,
                n > 0 ==> sheet.y <= 217,
                e == entry@,
                e == all[i as int],
                sheet@ == with_lines(start, i + 1, e, n as nat),
                !sheet.full,
            decreases entry.lines@.len() - n,
        {
            if sheet.y > 199 {
                sheet.full = true;
                proof {
                    assert(e.lines.len() == entry.lines@.len());
                    assert(sheet@ =~= with_lines(start, i + 1, e, n as nat + 1));
                    lemma_full_stays(start, i + 1, e, n as nat + 1);
                    assert(all.take(i as int + 1).drop_last() =~= all.take(i as int));
                    assert(all.take(i as int + 1).last() == e);
                    assert(sheet_of(all.take(i as int + 1)) == sheet@);
                    lemma_rest_left_out(all, i as int + 1);
                    law_lines_stay_on_the_page(all);
                }
                return sheet;
            }
            let ghost before = sheet@;
            let top = sheet.y;
            let numbered = n == 0 || sheet.rows.len() == 0;
            sheet.rows.push(
                Row {
                    number: i as u64 + 1,
                    numbered,
                    text: entry.lines[n].clone(),
                    done: entry.done,
                    top,
                },
            );
            sheet.y = top + 18;
            n += 1;
            proof {
                assert(e.lines[n as int - 1] == entry.lines@[n as int - 1]@);
                assert(row_views(sheet.rows@) =~= before.rows.push(row_views(sheet.rows@).last()));
                assert(sheet@ =~= with_lines(start, i + 1, e, n as nat));
            }
        }
        proof {
            assert(e.lines.len() == entry.lines@.len());
        }
        let ghost before = sheet@;
        sheet.y = sheet.y + 6;
        i += 1;
        assert(sheet@ =~= sheet_of(all.take(i as int)));
    }
    proof {
        law_lines_stay_on_the_page(all);
    }
    sheet
}

proof fn lemma_full_stays(s: SheetView, number: int, e: EntryLines, n: nat)
    requires
        n <= e.lines.len(),
        with_lines(s, number, e, n).full,
    ensures
        with_lines(s, number, e, e.lines.len()) == with_lines(s, number, e, n),
    decreases e.lines.len() - n,
{
    if n < e.lines.len() {
        assert(with_lines(s, number, e, n + 1) == with_lines(s, number, e, n));
        lemma_full_stays(s, number, e, n + 1);
    }
}

proof fn lemma_rest_left_out(entries: Seq<EntryLines>, n: int)
    requires
        0 <= n <= entries.len(),
    ensures
        sheet_of(entries.take(n)).full ==> sheet_of(entries) == sheet_of(entries.take(n)),
    decreases entries.len() - n,
{
    if n == entries.len() {
        assert(entries.take(n) =~= entries);
    } else {
        lemma_rest_left_out(entries, n + 1);
        assert(entries.take(n + 1).drop_last() =~= entries.take(n));
    }
}

/// A count as a number with a sign writes it.
pub open spec fn count_text(n: u64) -> Seq<char> {
    if n <= i64::MAX {
        decimal(n as nat)
    } else {
        "-"@ + decimal((0x1_0000_0000_0000_0000 - n) as nat)
    }
}

fn write_count(n: u64) -> (r: String)
    ensures
        r@ == count_text(n),
{
    if n <= i64::MAX as u64 {
        write_decimal(n)
    } else {
        glue("-", write_decimal(u64::MAX - n + 1).as_str())
    }
}

/// The count under a key, or zero.
pub open spec fn count_at(v: JsonView, key: Seq<char>) -> u64 {
    match u64_of(at(v, key)) {
        Some(n) => n,
        None => 0,
    }
}

fn count_under(v: &Json, key: &str) -> (r: u64)
    ensures
        r == count_at(v@, key@),
{
    match v.get_u64(key) {
        Some(n) => n,
        None => 0,
    }
}

/// How much of a day is done.
pub open spec fn progress_text(day: JsonView) -> Seq<char> {
    "完成 "@ + count_text(count_at(day, "done"@)) + "/"@ + count_text(count_at(day, "total"@))
}

/// Which day of which calendar it is.
pub open spec fn heading_text(day: JsonView) -> Seq<char> {
    text_at(day, "date"@, ""@) + "  "@ + text_at(day, "weekday"@, ""@) + " · "@ + text_at(
        day,
        "account"@,
        ""@,
    )
}

/// The colour of a line that is done, or of one that is not.
pub open spec fn row_color(done: bool) -> Rgb {
    if done {
        (121, 146, 154)
    } else {
        (227, 241, 247)
    }
}

/// What is drawn of a line: the number of its item in front where it is shown,
/// and what it says, with a line through it where it is done.
pub open spec fn row_shapes(row: RowView) -> Seq<ShapeView> {
    (if row.numbered {
        seq![
            text_shape(
                Place::At(12),
                2 * row.top + 4,
                padded(decimal(row.number as nat), 2),
                10,
                false,
                (81, 221, 199),
            ),
        ]
    } else {
        Seq::empty()
    }).push(
        ShapeView::Text(
            TextView {
                place: Place::At(38),
                half_y: 2 * row.top,
                text: row.text,
                size: 14,
                bold: false,
                color: row_color(row.done),
                struck: row.done,
            },
        ),
    )
}

/// What is drawn of lines.
pub open spec fn rows_shapes(rows: Seq<RowView>) -> Seq<ShapeView>
    decreases rows.len(),
{
    if rows.len() == 0 {
        Seq::empty()
    } else {
        rows_shapes(rows.drop_last()) + row_shapes(rows.last())
    }
}

/// The head of the calendar page.
pub open spec fn head_shapes(day: JsonView, heading_size: u32) -> Seq<ShapeView> {
    seq![
        text_shape(Place::At(12), 14, "日历清单"@, 18, true, (222, 247, 255)),
        text_shape(Place::At(226), 20, progress_text(day), 11, false, (81, 221, 199)),
        text_shape(Place::At(12), 66, heading_text(day), heading_size, false, (120, 155, 169)),
        rule(12, 308, 51, (30, 57, 65)),
    ]
}

/// What is said where a day holds nothing.
pub open spec fn empty_shapes(rows: Seq<RowView>) -> Seq<ShapeView> {
    if rows.len() == 0 {
        seq![text_shape(Place::At(75), 232, "当日暂无任务"@, 20, false, (133, 166, 174))]
    } else {
        Seq::empty()
    }
}

/// The foot of the calendar page.
pub open spec fn foot_shapes(full: bool) -> Seq<ShapeView> {
    seq![
        rule(12, 308, 220, (30, 57, 65)),
        text_shape(Place::At(12), 450, "本地只读"@, 10, false, (120, 155, 169)),
        text_shape(
            Place::At(158),
            450,
            if full {
                "仅第一页 · 还有内容"@
            } else {
                "固定显示第一页"@
            },
            10,
            false,
            (120, 155, 169),
        ),
    ]
}

/// The calendar page.
pub open spec fn calendar_shapes(day: JsonView, heading_size: u32, sheet: SheetView) -> Seq<ShapeView> {
    head_shapes(day, heading_size) + empty_shapes(sheet.rows) + rows_shapes(sheet.rows)
        + foot_shapes(sheet.full)
}

fn put_text(shapes: &mut Vec<Shape>, place: Place, half_y: u32, text: &str, size: u32, bold: bool, color: Rgb)
    ensures
        shape_views(final(shapes)@) == shape_views(old(shapes)@).push(
            text_shape(place, half_y as int, text@, size, bold, color),
        ),
{
    let ghost before = shape_views(shapes@);
    let shape = Shape::Text(
        Text { place, half_y, text: text.to_owned(), size, bold, color, struck: false },
    );
    let ghost drawn = shape@;
    shapes.push(shape);
    assert(shape_views(shapes@) =~= before.push(drawn));
}

fn put_rule(shapes: &mut Vec<Shape>, x0: i32, x1: i32, y: i32, color: Rgb)
    ensures
        shape_views(final(shapes)@) == shape_views(old(shapes)@).push(rule(x0, x1, y, color)),
{
    let ghost before = shape_views(shapes@);
    shapes.push(Shape::Fill(Region::Block { x0, y0: y, x1, y1: y }, color));
    assert(shape_views(shapes@) =~= before.push(rule(x0, x1, y, color)));
}

fn put_row(shapes: &mut Vec<Shape>, row: &Row)
    requires
        row.top <= 217,
    ensures
        shape_views(final(shapes)@) == shape_views(old(shapes)@) + row_shapes(row@),
{
    let ghost before = shape_views(shapes@);
    if row.numbered {
        put_text(
            shapes,
            Place::At(12),
            2 * row.top + 4,
            write_two(row.number).as_str(),
            10,
            false,
            (81, 221, 199),
        );
    }
    let color: Rgb = if row.done {
        (121, 146, 154)
    } else {
        (227, 241, 247)
    };
    let ghost middle = shape_views(shapes@);
    let shape = Shape::Text(
        Text {
            place: Place::At(38),
            half_y: 2 * row.top,
            text: row.text.clone(),
            size: 14,
            bold: false,
            color,
            struck: row.done,
        },
    );
    let ghost drawn = shape@;
    shapes.push(shape);
    proof {
        assert(shape_views(shapes@) =~= middle.push(drawn));
        assert(shape_views(shapes@) =~= before + row_shapes(row@));
    }
}

/// Draws the calendar page.
pub fn calendar_frame(day: &Json, heading_size: u32, sheet: &Sheet) -> (r: Frame)
    requires
        sheet@.wf(),
    ensures
        r.ground == (0u8, 0u8, 0u8),
        shape_views(r.shapes@) == calendar_shapes(day@, heading_size, sheet@),
{
    let mut shapes: Vec<Shape> = Vec::new();
    let ghost nothing: Seq<ShapeView> = Seq::empty();
    assert(shape_views(shapes@) =~= nothing);
    put_text(&mut shapes, Place::At(12), 14, "日历清单", 18, true, (222, 247, 255));
    let mut progress = glue("完成 ", write_count(count_under(day, "done")).as_str());
    progress.append("/");
    progress.append(write_count(count_under(day, "total")).as_str());
    put_text(&mut shapes, Place::At(226), 20, progress.as_str(), 11, false, (81, 221, 199));
    let heading = heading(day);
    put_text(
        &mut shapes,
        Place::At(12),
        66,
        heading.as_str(),
        heading_size,
        false,
        (120, 155, 169),
    );
    put_rule(&mut shapes, 12, 308, 51, (30, 57, 65));
    assert(shape_views(shapes@) =~= head_shapes(day@, heading_size));
    if sheet.rows.len() == 0 {
        put_text(&mut shapes, Place::At(75), 232, "当日暂无任务", 20, false, (133, 166, 174));
    }
    let ghost rows = sheet@.rows;
    let ghost start = head_shapes(day@, heading_size) + empty_shapes(rows);
    assert(shape_views(shapes@) =~= start);
    let mut i: usize = 0;
    assert(rows.take(0) =~= Seq::empty());
    assert(start =~= start + rows_shapes(rows.take(0)));
    while i < sheet.rows.len()
        invariant
            i <= sheet.rows@.len(),
            rows == row_views(sheet.rows@),
            sheet@.wf(),
            rows == sheet@.rows,
            shape_views(shapes@) == start + rows_shapes(rows.take(i as int)),
        decreases sheet.rows@.len() - i,
    {
        proof {
            assert(rows.take(i as int + 1).drop_last() =~= rows.take(i as int));
            assert(rows.take(i as int + 1).last() == rows[i as int]);
            assert(rows[i as int] == sheet.rows@[i as int]@);
            assert(rows[i as int].top + 18 <= 217);
        }
        let ghost before = shape_views(shapes@);
        put_row(&mut shapes, &sheet.rows[i]);
        assert(shape_views(shapes@) =~= start + rows_shapes(rows.take(i as int + 1)));
        i += 1;
    }
    assert(rows.take(rows.len() as int) =~= rows);
    let ghost before = shape_views(shapes@);
    put_rule(&mut shapes, 12, 308, 220, (30, 57, 65));
    put_text(&mut shapes, Place::At(12), 450, "本地只读", 10, false, (120, 155, 169));
    let footer = if sheet.full {
        "仅第一页 · 还有内容"
    } else {
        "固定显示第一页"
    };
    put_text(&mut shapes, Place::At(158), 450, footer, 10, false, (120, 155, 169));
    assert(shape_views(shapes@) =~= before + foot_shapes(sheet.full));
    assert(shape_views(shapes@) =~= calendar_shapes(day@, heading_size, sheet@));
    Frame { ground: (0, 0, 0), shapes }
}

fn heading(day: &Json) -> (r: String)
    ensures
        r@ == heading_text(day@),
{
    let mut out = glue(text_under(day, "date", ""), "  ");
    out.append(text_under(day, "weekday", ""));
    out.append(" · ");
    out.append(text_under(day, "account", ""));
    out
}

/// Whether an item is done.
pub open spec fn item_done(v: JsonView) -> bool {
    match bool_of(at(v, "done"@)) {
        Some(b) => b,
        None => false,
    }
}

/// Whether items are broken into lines as a measure says.
pub open spec fn entries_wrapped<F: Fn(u32, bool, u32, &str) -> bool>(
    fits: F,
    items: Seq<JsonView>,
    entries: Seq<EntryLines>,
) -> bool {
    &&& entries.len() == items.len()
    &&& forall|i: int|
        #![trigger entries[i]]
        0 <= i < items.len() ==> entries[i].done == item_done(items[i]) && wrapped(
            fits,
            14,
            false,
            270,
            lines_of(text_at(items[i], "text"@, ""@)),
            entries[i].lines,
        )
}

/// Breaks the items of a day into lines.
pub fn wrap_items<F: Fn(u32, bool, u32, &str) -> bool>(fits: &F, items: &Vec<Json>) -> (r: Vec<
    Entry,
>)
    requires
        measures(*fits),
    ensures
        entries_wrapped(*fits, models(items@), entry_lines(r@)),
        forall|i: int| 0 <= i < r@.len() ==> (#[trigger] r@[i]).lines@.len() > 0,
{
    let ghost all = models(items@);
    let mut out: Vec<Entry> = Vec::new();
    let mut i: usize = 0;
    while i < items.len()
        invariant
            measures(*fits),
            i <= items@.len(),
            all == models(items@),
            out@.len() == i,
            forall|k: int|
                #![trigger out@[k]]
                0 <= k < i ==> out@[k].done == item_done(all[k]) && wrapped(
                    *fits,
                    14,
                    false,
                    270,
                    lines_of(text_at(all[k], "text"@, ""@)),
                    texts(out@[k].lines@),
                ) && out@[k].lines@.len() > 0,
        decreases items@.len() - i,
    {
        assert(all[i as int] == items@[i as int]@);
        let text = text_under(&items[i], "text", "");
        let done = match items[i].get_bool("done") {
            Some(b) => b,
            None => false,
        };
        let lines = wrap_text(fits, 14, false, text, 270);
        proof {
            lemma_some_line(*fits, text@, texts(lines@));
            assert(texts(lines@).len() == lines@.len());
        }
        out.push(Entry { lines, done });
        i += 1;
    }
    assert forall|k: int|
        #![trigger entry_lines(out@)[k]]
        0 <= k < all.len() implies entry_lines(out@)[k].done == item_done(all[k]) && wrapped(
        *fits,
        14,
        false,
        270,
        lines_of(text_at(all[k], "text"@, ""@)),
        entry_lines(out@)[k].lines,
    ) by {
        assert(entry_lines(out@)[k] == out@[k]@);
    }
    out
}

proof fn lemma_some_line<F: Fn(u32, bool, u32, &str) -> bool>(
    fits: F,
    text: Seq<char>,
    lines: Seq<Seq<char>>,
)
    requires
        wrapped(fits, 14, false, 270, lines_of(text), lines),
    ensures
        lines.len() > 0,
{
    lemma_some_paragraph(text);
    law_wrapping_keeps_the_text(fits, 14, false, 270, lines_of(text), lines);
}

proof fn lemma_some_paragraph(text: Seq<char>)
    ensures
        lines_of(text).len() > 0,
    decreases text.len(),
{
    if text.len() > 0 {
        lemma_some_paragraph(text.drop_last());
    }
}

/// Whether shapes are how a day is drawn with a measure.
pub open spec fn day_drawn<F: Fn(u32, bool, u32, &str) -> bool>(
    fits: F,
    day: JsonView,
    items: Seq<JsonView>,
    shapes: Seq<ShapeView>,
) -> bool {
    exists|entries: Seq<EntryLines>, heading_size: u32|
        {
            &&& entries_wrapped(fits, items, entries)
            &&& largest(fits, heading_text(day), false, 296, 11, 8, heading_size)
            &&& shapes == #[trigger] calendar_shapes(day, heading_size, sheet_of(entries))
        }
}

/// Lays out the pages of a day, which is always one.
pub fn render_calendar_pages<F: Fn(u32, bool, u32, &str) -> bool>(fits: &F, snapshot: &Json) -> (r:
    Result<Vec<Frame>, RenderError>)
    requires
        measures(*fits),
    ensures
        match (r, items_of(at(snapshot@, "items"@))) {
            (Ok(f), Some(items)) => f@.len() == 1 && f@[0].ground == (0u8, 0u8, 0u8) && day_drawn(
                *fits,
                snapshot@,
                items,
                shape_views(f@[0].shapes@),
            ),
            (Err(e), None) => e.0@ == "日历快照缺少 items"@,
            _ => false,
        },
{
    let items = match snapshot.get_array("items") {
        Some(a) => a,
        None => {
            return Err(RenderError("日历快照缺少 items".to_owned()));
        },
    };
    let entries = wrap_items(fits, items);
    let sheet = lay_out(&entries);
    let heading_size = fit_single_line_font(
        fits,
        heading(snapshot).as_str(),
        296,
        11,
        8,
        false,
    );
    let frame = calendar_frame(snapshot, heading_size, &sheet);
    assert(shape_views(frame.shapes@) == calendar_shapes(
        snapshot@,
        heading_size,
        sheet_of(entry_lines(entries@)),
    ));
    let mut pages: Vec<Frame> = Vec::new();
    pages.push(frame);
    Ok(pages)
}

/// One line of one entry, with the number of the entry and of the line in it.
#[verifier::ext_equal]
pub struct ListedLine {
    pub number: int,
    pub line: int,
    pub text: Seq<char>,
    pub done: bool,
}

/// All lines of all entries, in order.
pub open spec fn listed_lines(entries: Seq<EntryLines>) -> Seq<ListedLine>
    decreases entries.len(),
{
    if entries.len() == 0 {
        Seq::empty()
    } else {
        let e = entries.last();
        listed_lines(entries.drop_last()) + Seq::new(
            e.lines.len(),
            |k: int|
                ListedLine {
                    number: entries.len() as int,
                    line: k,
                    text: e.lines[k],
                    done: e.done,
                },
        )
    }
}

/// Whether the rows of a sheet are the first ones of some lines, each numbered where an
/// entry begins.
pub open spec fn rows_are(rows: Seq<RowView>, lines: Seq<ListedLine>) -> bool {
    &&& rows.len() <= lines.len()
    &&& forall|i: int|
        #![trigger rows[i]]
        0 <= i < rows.len() ==> rows[i].number == lines[i].number && rows[i].text == lines[i].text
            && rows[i].done == lines[i].done && (rows[i].numbered <==> lines[i].line == 0)
}

proof fn lemma_lines_added(s: SheetView, number: int, e: EntryLines, n: nat, before: Seq<ListedLine>)
    requires
        n <= e.lines.len(),
        !s.full,
        rows_are(s.rows, before),
        s.rows.len() == before.len(),
    ensures
        ({
            let after = with_lines(s, number, e, n);
            let lines = before + Seq::new(
                n,
                |k: int| ListedLine { number, line: k, text: e.lines[k], done: e.done },
            );
            &&& rows_are(after.rows, lines)
            &&& !after.full ==> after.rows.len() == lines.len()
            &&& after.full ==> after.rows.len() < lines.len()
        }),
    decreases n,
{
    let lines = before + Seq::new(
        n,
        |k: int| ListedLine { number, line: k, text: e.lines[k], done: e.done },
    );
    if n == 0 {
        assert(lines =~= before);
    } else {
        lemma_lines_added(s, number, e, (n - 1) as nat, before);
        let shorter = before + Seq::new(
            (n - 1) as nat,
            |k: int| ListedLine { number, line: k, text: e.lines[k], done: e.done },
        );
        assert(lines.take(shorter.len() as int) =~= shorter);
        let was = with_lines(s, number, e, (n - 1) as nat);
        let after = with_lines(s, number, e, n);
        assert forall|i: int| #![trigger after.rows[i]] 0 <= i < after.rows.len() implies
            after.rows[i].number == lines[i].number && after.rows[i].text == lines[i].text
            && after.rows[i].done == lines[i].done && (after.rows[i].numbered <==> lines[i].line
            == 0) by {
            if i < was.rows.len() {
                assert(after.rows[i] == was.rows[i]);
                assert(lines[i] == shorter[i]);
            } else {
                assert(i == shorter.len());
                assert(lines[i].line == n - 1);
                if was.rows.len() == 0 {
                    assert(shorter.len() == 0);
                }
            }
        }
    }
}

/// A sheet lists the lines of the entries in order, as many as there is room for: each
/// with its entry's number at the first line of the entry, its text and its mark, and it
/// is full just where not all of them are on it.
pub proof fn law_sheet_lists_the_entries(entries: Seq<EntryLines>)
    ensures
        rows_are(sheet_of(entries).rows, listed_lines(entries)),
        sheet_of(entries).full <==> sheet_of(entries).rows.len() < listed_lines(entries).len(),
    decreases entries.len(),
{
    if entries.len() > 0 {
        let front = entries.drop_last();
        law_sheet_lists_the_entries(front);
        let before = sheet_of(front);
        let e = entries.last();
        let lines = listed_lines(entries);
        assert(lines.take(listed_lines(front).len() as int) =~= listed_lines(front));
        if before.full {
            assert forall|i: int| #![trigger before.rows[i]] 0 <= i < before.rows.len() implies
                before.rows[i].number == lines[i].number && before.rows[i].text == lines[i].text
                && before.rows[i].done == lines[i].done && (before.rows[i].numbered
                <==> lines[i].line == 0) by {
                assert(lines[i] == listed_lines(front)[i]);
            }
        } else {
            lemma_lines_added(
                before,
                entries.len() as int,
                e,
                e.lines.len(),
                listed_lines(front),
            );
            assert(lines =~= listed_lines(front) + Seq::new(
                e.lines.len(),
                |k: int|
                    ListedLine {
                        number: entries.len() as int,
                        line: k,
                        text: e.lines[k],
                        done: e.done,
                    },
            ));
        }
    }
}

/// A row shows its text, struck out just where it is done, and the number of its entry
/// where the entry begins.
pub proof fn law_row_shows_its_entry(row: RowView)
    ensures
        ({
            let shapes = row_shapes(row);
            &&& shapes.len() == if row.numbered {
                2int
            } else {
                1
            }
            &&& shapes.last() matches ShapeView::Text(t) && t.text == row.text && t.struck
                == row.done && t.half_y == 2 * row.top && t.size == 14
            &&& row.numbered ==> (shapes[0] matches ShapeView::Text(t) && t.text == padded(
                decimal(row.number as nat),
                2,
            ))
        }),
        row_color(true) != row_color(false),
{
}

proof fn lemma_row_is_drawn(rows: Seq<RowView>, i: int, k: int)
    requires
        0 <= i < rows.len(),
        0 <= k < row_shapes(rows[i]).len(),
    ensures
        rows_shapes(rows).contains(row_shapes(rows[i])[k]),
    decreases rows.len(),
{
    let front = rows_shapes(rows.drop_last());
    let all = rows_shapes(rows);
    let shape = row_shapes(rows[i])[k];
    if i < rows.len() - 1 {
        lemma_row_is_drawn(rows.drop_last(), i, k);
        let j = choose|j: int| 0 <= j < front.len() && front[j] == shape;
        assert(all[j] == shape);
    } else {
        assert(all[front.len() + k] == shape);
    }
}

/// The page of a day shows how much of it is done, the date with the weekday and the
/// calendar, and every row of the sheet; it says where there is nothing to show, and
/// where there is more than it shows.
pub proof fn law_day_is_drawn_in_full(day: JsonView, heading_size: u32, sheet: SheetView)
    ensures
        ({
            let shapes = calendar_shapes(day, heading_size, sheet);
            let done = u64_of(at(day, "done"@));
            let total = u64_of(at(day, "total"@));
            &&& done is Some && total is Some && done->0 <= i64::MAX && total->0 <= i64::MAX
                ==> written(
                shapes,
                "完成 "@ + decimal(done->0 as nat) + "/"@ + decimal(total->0 as nat),
            )
            &&& written(
                shapes,
                text_at(day, "date"@, ""@) + "  "@ + text_at(day, "weekday"@, ""@) + " · "@
                    + text_at(day, "account"@, ""@),
            )
            &&& sheet.rows.len() == 0 ==> written(shapes, "当日暂无任务"@)
            &&& sheet.full ==> written(shapes, "仅第一页 · 还有内容"@)
            &&& !sheet.full ==> written(shapes, "固定显示第一页"@)
            &&& forall|i: int, k: int|
                0 <= i < sheet.rows.len() && 0 <= k < row_shapes(sheet.rows[i]).len()
                    ==> shapes.contains(#[trigger] row_shapes(sheet.rows[i])[k])
        }),
{
    let shapes = calendar_shapes(day, heading_size, sheet);
    let head = head_shapes(day, heading_size);
    let empty = empty_shapes(sheet.rows);
    let rows = rows_shapes(sheet.rows);
    let foot = foot_shapes(sheet.full);
    let n = shapes.len() as int;
    assert(shapes[1] == head[1]);
    assert(shapes[2] == head[2]);
    assert(shapes[n - 1] == foot[2]);
    if sheet.rows.len() == 0 {
        assert(shapes[4] == empty[0]);
    }
    assert forall|i: int, k: int|
        0 <= i < sheet.rows.len() && 0 <= k < row_shapes(
            sheet.rows[i],
        ).len() implies shapes.contains(#[trigger] row_shapes(sheet.rows[i])[k]) by {
        lemma_row_is_drawn(sheet.rows, i, k);
        let shape = row_shapes(sheet.rows[i])[k];
        let j = choose|j: int| 0 <= j < rows.len() && rows[j] == shape;
        assert(shapes[head.len() + empty.len() + j] == shape);
    }
}

/// An entry is wrapped with its own text and its own mark, one entry for each item.
pub proof fn law_entries_are_the_items<F: Fn(u32, bool, u32, &str) -> bool>(
    fits: F,
    items: Seq<JsonView>,
    entries: Seq<EntryLines>,
    i: int,
)
    requires
        entries_wrapped(fits, items, entries),
        0 <= i < items.len(),
    ensures
        entries.len() == items.len(),
        entries[i].done <==> at(items[i], "done"@) == Some(JsonView::Bool(true)),
        wrapped(
            fits,
            14,
            false,
            270,
            lines_of(text_at(items[i], "text"@, ""@)),
            entries[i].lines,
        ),
{
}

} // verus!
