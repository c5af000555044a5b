//! What is drawn where: pages of text and the labels of a task.

use vstd::prelude::*;

use crate::calendar_data::lines_of;
use crate::canvas::{color_of, parse_color, Region, RenderError, Rgb};
use crate::text::texts;
use crate::wrap::{
    fills_box, fit_body, fit_single_line_font, has_room, largest, least, measures, most_lines,
    wrap_text, wrapped,
};

verus! {

/// Where a text starts: at a column, or so that it stands in the middle between
/// two columns.
#[derive(Debug, Clone, Copy, PartialEq, Eq, Structural)]
pub enum Place {
    At(u32),
    Centre { left: u32, width: u32 },
}

/// A text on the screen. Its height is counted in halves of a row.
#[derive(Debug)]
pub struct Text {
    pub place: Place,
    pub half_y: u32,
    pub text: String,
    pub size: u32,
    pub bold: bool,
    pub color: Rgb,
    /// Whether a line is drawn through it.
    pub struck: bool,
}

#[verifier::ext_equal]
pub struct TextView {
    pub place: Place,
    pub half_y: int,
    pub text: Seq<char>,
    pub size: u32,
    pub bold: bool,
    pub color: Rgb,
    pub struck: bool,
}

/// The round corners of a frame.
#[derive(Debug, Clone, Copy, PartialEq, Eq, Structural)]
pub struct Corners {
    pub x0: i32,
    pub y0: i32,
    pub x1: i32,
    pub y1: i32,
    pub radius: i32,
    pub width: i32,
}

/// Something that is drawn.
#[derive(Debug)]
pub enum Shape {
    Fill(Region, Rgb),
    Corners(Corners, Rgb),
    Text(Text),
}

#[verifier::ext_equal]
pub enum ShapeView {
    Fill(Region, Rgb),
    Corners(Corners, Rgb),
    Text(TextView),
}

impl View for Text {
    type V = TextView;

    open spec fn view(&self) -> TextView {
        TextView {
            place: self.place,
            half_y: self.half_y as int,
            text: self.text@,
            size: self.size,
            bold: self.bold,
            color: self.color,
            struck: self.struck,
        }
    }
}

impl View for Shape {
    type V = ShapeView;

    open spec fn view(&self) -> ShapeView {
        match self {
            Shape::Fill(r, c) => ShapeView::Fill(*r, *c),
            Shape::Corners(r, c) => ShapeView::Corners(*r, *c),
            Shape::Text(t) => ShapeView::Text(t@),
        }
    }
}

pub open spec fn shape_views(v: Seq<Shape>) -> Seq<ShapeView> {
    Seq::new(v.len(), |i: int| v[i]@)
}

/// A picture for the screen: a ground, and what is drawn on it, one thing after
/// another.
#[derive(Debug)]
pub struct Frame {
    pub ground: Rgb,
    pub shapes: Vec<Shape>,
}

/// A text that no line is drawn through.
pub open spec fn text_shape(
    place: Place,
    half_y: int,
    text: Seq<char>,
    size: u32,
    bold: bool,
    color: Rgb,
) -> ShapeView {
    ShapeView::Text(TextView { place, half_y, text, size, bold, color, struck: false })
}

fn text_at_place(place: Place, half_y: u32, text: &str, size: u32, bold: bool, color: Rgb) -> (r:
    Shape)
    ensures
        r@ == text_shape(place, half_y as int, text@, size, bold, color),
{
    Shape::Text(Text { place, half_y, text: text.to_owned(), size, bold, color, struck: false })
}

/// A row of points.
pub open spec fn rule(x0: i32, x1: i32, y: i32, color: Rgb) -> ShapeView {
    ShapeView::Fill(Region::Block { x0, y0: y, x1, y1: y }, color)
}

/// The colour of the letters of a page of text.
pub const PAGE_LETTERS: Rgb = (0xf4, 0xfb, 0xff);

/// The ground of a page of text.
pub const PAGE_GROUND: Rgb = (0x02, 0x07, 0x0b);

/// The frame around a page of text: four sides, two points wide, and four round
/// corners; and below the title a line, and before it a dot.
pub open spec fn page_frame(accent: Rgb) -> Seq<ShapeView> {
    seq![
        ShapeView::Fill(Region::Block { x0: 21, y0: 8, x1: 298, y1: 9 }, accent),
        ShapeView::Fill(Region::Block { x0: 21, y0: 231, x1: 298, y1: 232 }, accent),
        ShapeView::Fill(Region::Block { x0: 8, y0: 21, x1: 9, y1: 219 }, accent),
        ShapeView::Fill(Region::Block { x0: 311, y0: 21, x1: 312, y1: 219 }, accent),
        ShapeView::Corners(
            Corners { x0: 8, y0: 8, x1: 311, y1: 231, radius: 13, width: 2 },
            accent,
        ),
        rule(22, 297, 61, accent),
        ShapeView::Fill(Region::Disc { cx: 23, cy: 24, r: 4 }, accent),
    ]
}

/// Where the lines of a page start, in halves of a row: in the middle between
/// title and footer, as far as they have room.
pub open spec fn body_top(lines: nat, height: int) -> int {
    146 + if lines * height < 124 {
        124 - lines * height
    } else {
        0
    }
}

/// The lines of a page.
pub open spec fn body_shapes(lines: Seq<Seq<char>>, size: u32) -> Seq<ShapeView> {
    Seq::new(
        lines.len(),
        |k: int|
            text_shape(
                Place::Centre { left: 23, width: 274 },
                body_top(lines.len(), size + 7) + 2 * k * (size + 7),
                lines[k],
                size,
                false,
                PAGE_LETTERS,
            ),
    )
}

/// A page of text: the frame, the title, the lines, and the footer.
pub open spec fn page_shapes(
    title: Seq<char>,
    title_size: u32,
    lines: Seq<Seq<char>>,
    size: u32,
    footer: Seq<char>,
    footer_size: u32,
    accent: Rgb,
) -> Seq<ShapeView> {
    page_frame(accent) + seq![
        text_shape(
            Place::Centre { left: 34, width: 263 },
            34,
            title,
            title_size,
            true,
            PAGE_LETTERS,
        ),
    ] + body_shapes(lines, size) + seq![
        text_shape(
            Place::Centre { left: 30, width: 260 },
            414,
            footer,
            footer_size,
            true,
            accent,
        ),
    ]
}

fn push_page_frame(accent: Rgb) -> (r: Vec<Shape>)
    ensures
        shape_views(r@) == page_frame(accent),
{
    let mut shapes: Vec<Shape> = Vec::new();
    shapes.push(Shape::Fill(Region::Block { x0: 21, y0: 8, x1: 298, y1: 9 }, accent));
    shapes.push(Shape::Fill(Region::Block { x0: 21, y0: 231, x1: 298, y1: 232 }, accent));
    shapes.push(Shape::Fill(Region::Block { x0: 8, y0: 21, x1: 9, y1: 219 }, accent));
    shapes.push(Shape::Fill(Region::Block { x0: 311, y0: 21, x1: 312, y1: 219 }, accent));
    shapes.push(
        Shape::Corners(
            Corners { x0: 8, y0: 8, x1: 311, y1: 231, radius: 13, width: 2 },
            accent,
        ),
    );
    shapes.push(Shape::Fill(Region::Block { x0: 22, y0: 61, x1: 297, y1: 61 }, accent));
    shapes.push(Shape::Fill(Region::Disc { cx: 23, cy: 24, r: 4 }, accent));
    assert(shape_views(shapes@) =~= page_frame(accent));
    shapes
}

/// Whether shapes are how a page of text is drawn with a measure.
pub open spec fn page_drawn<F: Fn(u32, bool, u32, &str) -> bool>(
    fits: F,
    title: Seq<char>,
    body: Seq<char>,
    footer: Seq<char>,
    accent: Rgb,
    shapes: Seq<ShapeView>,
) -> bool {
    exists|title_size: u32, lines: Seq<Seq<char>>, size: u32, footer_size: u32|
        {
            &&& largest(fits, title, true, 252, 31, 17, title_size)
            &&& fills_box(fits, body, 274, 124, size, lines)
            &&& largest(fits, footer, true, 260, 14, 11, footer_size)
            &&& shapes == #[trigger] page_shapes(
                title,
                title_size,
                lines,
                size,
                footer,
                footer_size,
                accent,
            )
        }
}

proof fn lemma_body_small<F: Fn(u32, bool, u32, &str) -> bool>(
    fits: F,
    text: Seq<char>,
    size: u32,
    lines: Seq<Seq<char>>,
)
    requires
        fills_box(fits, text, 274, 124, size, lines),
    ensures
        lines.len() * (size + 7) <= 124,
{
    let all = choose|all: Seq<Seq<char>>| #[trigger]
        wrapped(fits, size, false, 274, lines_of(text), all) && if has_room(all.len(), size, 124) {
            lines == all
        } else {
            size == 14 && lines == all.take(least(all.len(), most_lines(124)))
        };
    if !has_room(all.len(), size, 124) {
        assert(most_lines(124) == 5);
        assert(lines.len() <= 5);
    }
}

/// Lays out a page of text.
pub fn render_text_frame<F: Fn(u32, bool, u32, &str) -> bool>(
    fits: &F,
    title: &str,
    body: &str,
    footer: &str,
    accent: &str,
) -> (r: Result<Frame, RenderError>)
    requires
        measures(*fits),
    ensures
        match (r, color_of(accent@)) {
            (Ok(f), Some(c)) => f.ground == PAGE_GROUND && page_drawn(
                *fits,
                title@,
                body@,
                footer@,
                c,
                shape_views(f.shapes@),
            ),
            (Err(e), None) => e.0@ == "颜色必须是 #RRGGBB："@ + accent@,
            _ => false,
        },
{
    let highlight = match parse_color(accent) {
        Ok(c) => c,
        Err(e) => {
            return Err(e);
        },
    };
    let mut shapes = push_page_frame(highlight);
    let title_size = fit_single_line_font(fits, title, 252, 31, 17, true);
    shapes.push(
        text_at_place(
            Place::Centre { left: 34, width: 263 },
            34,
            title,
            title_size,
            true,
            PAGE_LETTERS,
        ),
    );
    let ghost head = shape_views(shapes@);
    let page = fit_body(fits, body, 274, 124);
    let ghost lines = texts(page.lines@);
    let ghost body_all = body_shapes(lines, page.size);
    proof {
        lemma_body_small(*fits, body@, page.size, lines);
        assert(lines.len() <= 5) by (nonlinear_arith)
            requires
                lines.len() * (page.size + 7) <= 124,
                page.size >= 14,
        ;
    }
    let n = page.lines.len() as u32;
    let taken = n * page.height;
    let top: u32 = 146 + if taken < 124 {
        124 - taken
    } else {
        0
    };
    let mut k: usize = 0;
    assert(head =~= head + body_all.take(0));
    while k < page.lines.len()
        invariant
            k <= page.lines@.len() <= 5,
            lines == texts(page.lines@),
            14 <= page.size <= 27,
            page.height == page.size + 7,
            top == body_top(lines.len(), page.size + 7),
            body_all == body_shapes(lines, page.size),
            shape_views(shapes@) == head + body_all.take(k as int),
        decreases page.lines@.len() - k,
    {
        let ghost before = shape_views(shapes@);
        assert(2 * k * (page.size + 7) <= 2 * 5 * 34) by (nonlinear_arith)
            requires
                0 <= k <= 5,
                0 <= page.size <= 27,
        ;
        assert(2 * k as u32 * page.height == 2 * k * (page.size + 7));
        let y = top + 2 * k as u32 * page.height;
        shapes.push(
            text_at_place(
                Place::Centre { left: 23, width: 274 },
                y,
                page.lines[k].as_str(),
                page.size,
                false,
                PAGE_LETTERS,
            ),
        );
        proof {
            assert(lines[k as int] == page.lines@[k as int]@);
            assert(shape_views(shapes@) =~= before.push(body_all[k as int]));
            assert(body_all.take(k as int + 1) =~= body_all.take(k as int).push(
                body_all[k as int],
            ));
            assert(shape_views(shapes@) =~= head + body_all.take(k as int + 1));
        }
        k += 1;
    }
    let footer_size = fit_single_line_font(fits, footer, 260, 14, 11, true);
    let ghost before = shape_views(shapes@);
    shapes.push(
        text_at_place(
            Place::Centre { left: 30, width: 260 },
            414,
            footer,
            footer_size,
            true,
            highlight,
        ),
    );
    proof {
        assert(body_all.take(body_all.len() as int) =~= body_all);
        let title_shape = text_shape(
            Place::Centre { left: 34, width: 263 },
            34,
            title@,
            title_size,
            true,
            PAGE_LETTERS,
        );
        let footer_shape = text_shape(
            Place::Centre { left: 30, width: 260 },
            414,
            footer@,
            footer_size,
            true,
            highlight,
        );
        assert(head =~= page_frame(highlight) + seq![title_shape]);
        assert(before =~= head + body_all);
        assert(shape_views(shapes@) =~= before + seq![footer_shape]);
        assert(shape_views(shapes@) =~= page_shapes(
            title@,
            title_size,
            lines,
            page.size,
            footer@,
            footer_size,
            highlight,
        ));
    }
    Ok(Frame { ground: PAGE_GROUND, shapes })
}

/// Whether lines in a size are how a note stands above a task: the size is the
/// largest one, from 13 down to 10, in which there are at most two lines, or the
/// smallest.
pub open spec fn note_fits<F: Fn(u32, bool, u32, &str) -> bool>(
    fits: F,
    note: Seq<char>,
    size: u32,
    lines: Seq<Seq<char>>,
) -> bool {
    &&& 10 <= size <= 13
    &&& wrapped(fits, size, false, 215, lines_of(note), lines)
    &&& lines.len() <= 2 || size == 10
    &&& forall|s: u32| size < s <= 13 ==> #[trigger] three_lines(fits, note, s)
}

/// Whether a note in a size takes more than two lines.
pub open spec fn three_lines<F: Fn(u32, bool, u32, &str) -> bool>(
    fits: F,
    note: Seq<char>,
    size: u32,
) -> bool {
    exists|all: Seq<Seq<char>>| #[trigger]
        wrapped(fits, size, false, 215, lines_of(note), all) && all.len() > 2
}

/// The labels of a task: the note above, line by line, and the title below.
pub open spec fn label_shapes(
    lines: Seq<Seq<char>>,
    size: u32,
    title: Seq<char>,
    title_size: u32,
) -> Seq<ShapeView> {
    Seq::new(
        lines.len(),
        |k: int| text_shape(Place::At(16), 16 + 32 * k, lines[k], size, false, (130, 185, 196)),
    ).push(
        text_shape(
            Place::Centre { left: 0, width: 320 },
            436,
            title,
            title_size,
            true,
            (225, 248, 255),
        ),
    )
}

/// Whether shapes are how the labels of a task are drawn with a measure: the
/// title at the bottom, and at most two lines of the note at the top.
pub open spec fn labels_drawn<F: Fn(u32, bool, u32, &str) -> bool>(
    fits: F,
    title: Seq<char>,
    note: Seq<char>,
    shapes: Seq<ShapeView>,
) -> bool {
    exists|size: u32, lines: Seq<Seq<char>>, title_size: u32|
        {
            &&& note_fits(fits, note, size, lines)
            &&& largest(fits, title, true, 288, 18, 8, title_size)
            &&& shapes == #[trigger] label_shapes(
                lines.take(least(lines.len(), 2)),
                size,
                title,
                title_size,
            )
        }
}

fn fit_note<F: Fn(u32, bool, u32, &str) -> bool>(fits: &F, note: &str) -> (r: (u32, Vec<String>))
    requires
        measures(*fits),
    ensures
        note_fits(*fits, note@, r.0, texts(r.1@)),
{
    let mut size: u32 = 13;
    loop
        invariant
            measures(*fits),
            10 <= size <= 13,
            forall|s: u32| size < s <= 13 ==> #[trigger] three_lines(*fits, note@, s),
        decreases size,
    {
        let lines = wrap_text(fits, size, false, note, 215);
        assert(texts(lines@).len() == lines@.len());
        if lines.len() <= 2 || size == 10 {
            return (size, lines);
        }
        assert(three_lines(*fits, note@, size));
        size = size - 1;
    }
}

/// Lays out the labels of a task.
pub fn task_labels<F: Fn(u32, bool, u32, &str) -> bool>(fits: &F, title: &str, footer: &str) -> (r:
    Frame)
    requires
        measures(*fits),
    ensures
        r.ground == (0u8, 0u8, 0u8),
        labels_drawn(*fits, title@, footer@, shape_views(r.shapes@)),
{
    let (size, all) = fit_note(fits, footer);
    let ghost every = texts(all@);
    let mut lines = all;
    lines.truncate(2);
    let ghost kept = texts(lines@);
    assert(kept =~= every.take(least(every.len(), 2)));
    let mut shapes: Vec<Shape> = Vec::new();
    let mut k: usize = 0;
    while k < lines.len()
        invariant
            k <= lines@.len() <= 2,
            kept == texts(lines@),
            shapes@.len() == k,
            forall|j: int|
                0 <= j < k ==> (#[trigger] shapes@[j])@ == text_shape(
                    Place::At(16),
                    16 + 32 * j,
                    kept[j],
                    size,
                    false,
                    (130, 185, 196),
                ),
        decreases lines@.len() - k,
    {
        assert(kept[k as int] == lines@[k as int]@);
        shapes.push(
            text_at_place(
                Place::At(16),
                16 + 32 * k as u32,
                lines[k].as_str(),
                size,
                false,
                (130, 185, 196),
            ),
        );
        k += 1;
    }
    let title_size = fit_single_line_font(fits, title, 288, 18, 8, true);
    shapes.push(
        text_at_place(
            Place::Centre { left: 0, width: 320 },
            436,
            title,
            title_size,
            true,
            (225, 248, 255),
        ),
    );
    assert(shape_views(shapes@) =~= label_shapes(kept, size, title@, title_size));
    Frame { ground: (0, 0, 0), shapes }
}

/// A file that a font can be read from: its directory, its name, and the number
/// of the font in it.
#[derive(Debug, Clone, Copy, PartialEq, Eq, Structural)]
pub enum FontDirectory {
    /// The fonts of Windows.
    Windows,
    /// `/usr/share/fonts/opentype/noto`.
    Noto,
}

#[derive(Debug)]
pub struct FontFile {
    pub directory: FontDirectory,
    pub name: &'static str,
    pub index: u32,
}

/// A font by directory, name and number.
pub open spec fn is_font(f: FontFile, directory: FontDirectory, name: Seq<char>, index: u32) -> bool {
    f.directory == directory && f.name@ == name && f.index == index
}

/// The files in which a font is looked for, the best one first.
pub fn font_candidates(bold: bool) -> (r: Vec<FontFile>)
    ensures
        r@.len() == 4,
        is_font(
            r@[0],
            FontDirectory::Windows,
            if bold {
                "msyhbd.ttc"@
            } else {
                "msyh.ttc"@
            },
            0,
        ),
        is_font(
            r@[1],
            FontDirectory::Windows,
            if bold {
                "simhei.ttf"@
            } else {
                "simsun.ttc"@
            },
            0,
        ),
        is_font(
            r@[2],
            FontDirectory::Windows,
            if bold {
                "arialbd.ttf"@
            } else {
                "arial.ttf"@
            },
            0,
        ),
        is_font(
            r@[3],
            FontDirectory::Noto,
            if bold {
                "NotoSansCJK-Bold.ttc"@
            } else {
                "NotoSansCJK-Regular.ttc"@
            },
            3,
        ),
{
    let names: (&'static str, &'static str, &'static str, &'static str) = if bold {
        ("msyhbd.ttc", "simhei.ttf", "arialbd.ttf", "NotoSansCJK-Bold.ttc")
    } else {
        ("msyh.ttc", "simsun.ttc", "arial.ttf", "NotoSansCJK-Regular.ttc")
    };
    let mut out: Vec<FontFile> = Vec::new();
    out.push(FontFile { directory: FontDirectory::Windows, name: names.0, index: 0 });
    out.push(FontFile { directory: FontDirectory::Windows, name: names.1, index: 0 });
    out.push(FontFile { directory: FontDirectory::Windows, name: names.2, index: 0 });
    out.push(FontFile { directory: FontDirectory::Noto, name: names.3, index: 3 });
    out
}

/// Whether a text is written among some shapes.
pub open spec fn written(shapes: Seq<ShapeView>, text: Seq<char>) -> bool {
    exists|i: int|
        0 <= i < shapes.len() && (#[trigger] shapes[i] matches ShapeView::Text(t) && t.text == text)
}

/// A page shows its title, every line of its text in order and its footer, the frame and
/// the footer in the accent.
pub proof fn law_page_shows_its_texts(
    title: Seq<char>,
    title_size: u32,
    lines: Seq<Seq<char>>,
    size: u32,
    footer: Seq<char>,
    footer_size: u32,
    accent: Rgb,
)
    ensures
        ({
            let shapes = page_shapes(title, title_size, lines, size, footer, footer_size, accent);
            let n = page_frame(accent).len() as int;
            &&& shapes.len() == n + lines.len() + 2
            &&& shapes[n] matches ShapeView::Text(t) && t.text == title && t.size == title_size
                && t.bold
            &&& forall|k: int|
                #![trigger lines[k]]
                0 <= k < lines.len() ==> (shapes[n + 1 + k] matches ShapeView::Text(t) && t.text
                    == lines[k] && t.size == size && !t.struck)
            &&& shapes.last() matches ShapeView::Text(t) && t.text == footer && t.size
                == footer_size && t.color == accent
            &&& forall|i: int|
                0 <= i < n ==> (#[trigger] shapes[i] matches ShapeView::Fill(_, c) ==> c == accent)
            &&& forall|i: int|
                0 <= i < n ==> (#[trigger] shapes[i] matches ShapeView::Corners(_, c) ==> c
                    == accent)
        }),
{
    let shapes = page_shapes(title, title_size, lines, size, footer, footer_size, accent);
    let n = page_frame(accent).len() as int;
    assert forall|k: int| #![trigger lines[k]] 0 <= k < lines.len() implies (
    shapes[n + 1 + k] matches ShapeView::Text(t) && t.text == lines[k] && t.size == size
        && !t.struck) by {
        assert(shapes[n + 1 + k] == body_shapes(lines, size)[k]);
    }
    assert forall|i: int| 0 <= i < n implies #[trigger] shapes[i] == page_frame(accent)[i] by {}
}

/// The lines of a page follow one another at even distances, and where they leave room
/// they stand in the middle of it.
pub proof fn law_lines_stand_in_the_middle(lines: Seq<Seq<char>>, size: u32, k: int)
    requires
        0 <= k < lines.len(),
    ensures
        ({
            let shapes = body_shapes(lines, size);
            let height = size + 7;
            let first = shapes[0]->Text_0.half_y;
            let bottom = first + 2 * lines.len() * height;
            &&& shapes[k] matches ShapeView::Text(t) && t.half_y == first + 2 * k * height
            &&& lines.len() * height <= 124 ==> first - 2 * 73 == 2 * 197 - bottom
            &&& lines.len() * height > 124 ==> first == 2 * 73
        }),
{
    let height = size + 7;
    let n = lines.len() as int;
    let shapes = body_shapes(lines, size);
    assert(shapes[0]->Text_0.half_y == body_top(lines.len(), height as int) + 2 * 0 * height);
    assert(2 * 0 * height == 0) by (nonlinear_arith);
    assert(2 * n * height == 2 * (n * height)) by (nonlinear_arith);
}

/// The labels of a task are the lines of the note, one below the other, and the title.
pub proof fn law_labels_show_note_and_title(
    lines: Seq<Seq<char>>,
    size: u32,
    title: Seq<char>,
    title_size: u32,
)
    ensures
        ({
            let shapes = label_shapes(lines, size, title, title_size);
            &&& shapes.len() == lines.len() + 1
            &&& shapes.last() matches ShapeView::Text(t) && t.text == title && t.size == title_size
                && t.bold
            &&& forall|k: int|
                #![trigger lines[k]]
                0 <= k < lines.len() ==> (shapes[k] matches ShapeView::Text(t) && t.text == lines[k]
                    && t.size == size && t.half_y == 16 + 32 * k)
        }),
{
}

} // verus!
