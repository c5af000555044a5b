//! Pictures as points: colours, filled regions, and their JPEG bytes.

use vstd::prelude::*;

use crate::outside::{fills_room, flatten, flattened, jpeg_bytes, jpeg_of, next_to, shrink, Rgba};
use crate::text::{
    chars_of, digit, glue, hex_digit, numeral, padded, trim, trimmed, trimmed_end, trimmed_start,
    white,
};

verus! {

/// The width of the screen.
pub const SCREEN_W: u32 = 320;

/// The height of the screen.
pub const SCREEN_H: u32 = 240;

/// How good the pictures are that the device is sent, out of 100.
pub const JPEG_QUALITY: u8 = 88;

/// Why a picture could not be made.
#[derive(Debug)]
pub struct RenderError(pub String);

impl RenderError {
    /// What is wrong.
    pub fn message(&self) -> (r: &str)
        ensures
            r@ == self.0@,
    {
        self.0.as_str()
    }
}

impl Clone for RenderError {
    fn clone(&self) -> (r: Self)
        ensures
            r.0@ == self.0@,
    {
        RenderError(self.0.clone())
    }
}

/// Red, green and blue.
pub type Rgb = (u8, u8, u8);

/// The value of a hexadecimal digit.
pub open spec fn hex_value(c: char) -> int {
    if '0' <= c <= '9' {
        c as int - '0' as int
    } else if 'a' <= c <= 'f' {
        c as int - 'a' as int + 10
    } else {
        c as int - 'A' as int + 10
    }
}

/// A text without the hash signs in front.
pub open spec fn unhashed(s: Seq<char>) -> Seq<char>
    decreases s.len(),
{
    if s.len() > 0 && s[0] == '#' {
        unhashed(s.drop_first())
    } else {
        s
    }
}

/// The colour that six hexadecimal digits name, white space around them and hash
/// signs in front aside.
pub open spec fn color_of(value: Seq<char>) -> Option<Rgb> {
    let s = unhashed(trimmed(value));
    if s.len() == 6 && forall|i: int| 0 <= i < 6 ==> hex_digit(#[trigger] s[i]) {
        Some(
            (
                (hex_value(s[0]) * 16 + hex_value(s[1])) as u8,
                (hex_value(s[2]) * 16 + hex_value(s[3])) as u8,
                (hex_value(s[4]) * 16 + hex_value(s[5])) as u8,
            ),
        )
    } else {
        None
    }
}

fn digit_value(c: char) -> (r: u8)
    requires
        hex_digit(c),
    ensures
        r == hex_value(c),
        r < 16,
{
    if '0' <= c && c <= '9' {
        (c as u32 - '0' as u32) as u8
    } else if 'a' <= c && c <= 'f' {
        (c as u32 - 'a' as u32 + 10) as u8
    } else {
        (c as u32 - 'A' as u32 + 10) as u8
    }
}

/// Reads a colour.
pub fn parse_color(value: &str) -> (r: Result<Rgb, RenderError>)
    ensures
        match r {
            Ok(c) => color_of(value@) == Some(c),
            Err(e) => color_of(value@) is None && e.0@ == "颜色必须是 #RRGGBB："@ + value@,
        },
{
    let chars = chars_of(trim(value));
    let ghost s = trimmed(value@);
    let mut i: usize = 0;
    assert(s.skip(0) =~= s);
    while i < chars.len() && chars[i] == '#'
        invariant
            i <= chars@.len(),
            chars@ == s,
            unhashed(s) == unhashed(s.skip(i as int)),
        decreases chars@.len() - i,
    {
        assert(s.skip(i as int).drop_first() =~= s.skip(i as int + 1));
        assert(s.skip(i as int)[0] == chars@[i as int]);
        i += 1;
    }
    let ghost d = s.skip(i as int);
    assert(i < s.len() ==> d[0] == chars@[i as int]);
    assert(unhashed(s) == d);
    if chars.len() - i != 6 {
        return Err(RenderError(glue("颜色必须是 #RRGGBB：", value)));
    }
    let n = chars.len();
    let mut k: usize = 0;
    while k < 6
        invariant
            k <= 6,
            i + 6 == n == chars@.len(),
            chars@ == s,
            d == s.skip(i as int),
            unhashed(s) == d,
            s == trimmed(value@),
            forall|j: int| 0 <= j < k ==> hex_digit(#[trigger] d[j]),
        decreases 6 - k,
    {
        let c = chars[i + k];
        assert(d[k as int] == c);
        if !(('0' <= c && c <= '9') || ('a' <= c && c <= 'f') || ('A' <= c && c <= 'F')) {
            return Err(RenderError(glue("颜色必须是 #RRGGBB：", value)));
        }
        k += 1;
    }
    assert(d[0] == chars@[i as int] && d[1] == chars@[i + 1] && d[2] == chars@[i + 2]);
    assert(d[3] == chars@[i + 3] && d[4] == chars@[i + 4] && d[5] == chars@[i + 5]);
    Ok(
        (
            digit_value(chars[i]) * 16 + digit_value(chars[i + 1]),
            digit_value(chars[i + 2]) * 16 + digit_value(chars[i + 3]),
            digit_value(chars[i + 4]) * 16 + digit_value(chars[i + 5]),
        ),
    )
}

/// A part of the screen.
#[derive(Debug, Clone, Copy, PartialEq, Eq, Structural)]
pub enum Region {
    /// Everything between two corners, both of them with it.
    Block { x0: i32, y0: i32, x1: i32, y1: i32 },
    /// Everything that is no farther than `r` from a point.
    Disc { cx: i32, cy: i32, r: i32 },
}

impl Region {
    /// Whether a point is part of it.
    pub open spec fn covers(self, x: int, y: int) -> bool {
        match self {
            Region::Block { x0, y0, x1, y1 } => x0 <= x <= x1 && y0 <= y <= y1,
            Region::Disc { cx, cy, r } => (x - cx) * (x - cx) + (y - cy) * (y - cy) <= r * r,
        }
    }

    fn has(&self, x: u32, y: u32) -> (b: bool)
        ensures
            b == self.covers(x as int, y as int),
    {
        match self {
            Region::Block { x0, y0, x1, y1 } => {
                *x0 as i64 <= x as i64 && x as i64 <= *x1 as i64 && *y0 as i64 <= y as i64 && y as i64
                    <= *y1 as i64
            },
            Region::Disc { cx, cy, r } => {
                let dx = x as i128 - *cx as i128;
                let dy = y as i128 - *cy as i128;
                let r = *r as i128;
                proof {
                    lemma_square_bound(dx as int);
                    lemma_square_bound(dy as int);
                    lemma_square_bound(r as int);
                }
                dx * dx + dy * dy <= r * r
            },
        }
    }
}

proof fn lemma_square_bound(a: int)
    requires
        -0x2_0000_0000 <= a <= 0x2_0000_0000,
    ensures
        0 <= a * a <= 0x4_0000_0000_0000_0000,
{
    assert(0 <= a * a <= 0x4_0000_0000_0000_0000) by (nonlinear_arith)
        requires
            -0x2_0000_0000 <= a <= 0x2_0000_0000,
    ;
}

/// A picture, row by row, three bytes for each point.
#[derive(Debug)]
pub struct Canvas {
    pub width: u32,
    pub height: u32,
    pub pixels: Vec<u8>,
}

/// One of the parts of a colour.
pub open spec fn channel(color: Rgb, i: int) -> u8 {
    if i == 0 {
        color.0
    } else if i == 1 {
        color.1
    } else {
        color.2
    }
}

/// The place of a point among the bytes of a picture.
pub open spec fn place(w: int, x: int, y: int) -> int {
    3 * (y * w + x)
}

/// The colour of a point.
pub open spec fn point(p: Seq<u8>, w: int, x: int, y: int) -> Rgb {
    (p[place(w, x, y)], p[place(w, x, y) + 1], p[place(w, x, y) + 2])
}

proof fn lemma_place_inside(w: int, h: int, x: int, y: int)
    requires
        0 <= x < w,
        0 <= y < h,
    ensures
        0 <= place(w, x, y),
        place(w, x, y) + 3 <= 3 * (w * h),
        0 <= y * w,
        y * w + x < w * h,
{
    assert(0 <= y * w && y * w + x < w * h) by (nonlinear_arith)
        requires
            0 <= x < w,
            0 <= y < h,
    ;
}

proof fn lemma_places_differ(w: int, x: int, y: int, a: int, b: int)
    requires
        0 <= x < w,
        0 <= a < w,
        x != a || y != b,
    ensures
        place(w, x, y) + 3 <= place(w, a, b) || place(w, a, b) + 3 <= place(w, x, y),
{
    if y < b {
        assert(y * w + w <= b * w) by (nonlinear_arith)
            requires
                y < b,
                0 < w,
        ;
    } else if b < y {
        assert(b * w + w <= y * w) by (nonlinear_arith)
            requires
                b < y,
                0 < w,
        ;
    }
}

impl Canvas {
    /// There are three bytes for each point.
    pub open spec fn wf(&self) -> bool {
        self.pixels@.len() == 3 * (self.width * self.height)
    }

    /// The colour of a point.
    pub open spec fn at(&self, x: int, y: int) -> Rgb {
        point(self.pixels@, self.width as int, x, y)
    }

    /// A picture in one colour, as large as the screen.
    pub fn screen(color: Rgb) -> (r: Canvas)
        ensures
            r.wf(),
            r.width == 320 && r.height == 240,
            forall|x: int, y: int| 0 <= x < 320 && 0 <= y < 240 ==> #[trigger] r.at(x, y) == color,
    {
        let mut pixels: Vec<u8> = Vec::new();
        let mut i: usize = 0;
        while i < 76800
            invariant
                i <= 76800,
                pixels@.len() == 3 * i,
                forall|k: int| 0 <= k < 3 * i ==> #[trigger] pixels@[k] == channel(color, k % 3),
            decreases 76800 - i,
        {
            pixels.push(color.0);
            pixels.push(color.1);
            pixels.push(color.2);
            i += 1;
        }
        let r = Canvas { width: 320, height: 240, pixels };
        proof {
            assert forall|x: int, y: int| 0 <= x < 320 && 0 <= y < 240 implies #[trigger] r.at(x, y)
                == color by {
                let k = y * 320 + x;
                assert(0 <= k < 76800);
                assert(r.pixels@[3 * k] == color.0);
                assert(r.pixels@[3 * k + 1] == color.1);
                assert(r.pixels@[3 * k + 2] == color.2);
            }
        }
        r
    }

    fn put(&mut self, x: u32, y: u32, color: Rgb)
        requires
            old(self).wf(),
            x < old(self).width,
            y < old(self).height,
        ensures
            final(self).wf(),
            final(self).width == old(self).width,
            final(self).height == old(self).height,
            forall|a: int, b: int|
                0 <= a < old(self).width && 0 <= b < old(self).height ==> #[trigger] final(self).at(
                    a,
                    b,
                ) == if a == x && b == y {
                    color
                } else {
                    old(self).at(a, b)
                },
    {
        let ghost w = self.width as int;
        let ghost h = self.height as int;
        proof {
            lemma_place_inside(w, h, x as int, y as int);
        }
        let n = self.pixels.len();
        assert(n == 3 * (w * h));
        let i: usize = 3 * (y as usize * self.width as usize + x as usize);
        self.pixels.set(i, color.0);
        self.pixels.set(i + 1, color.1);
        self.pixels.set(i + 2, color.2);
        proof {
            assert forall|a: int, b: int| 0 <= a < w && 0 <= b < h implies #[trigger] self.at(a, b)
                == if a == x && b == y {
                color
            } else {
                old(self).at(a, b)
            } by {
                lemma_place_inside(w, h, a, b);
                if a != x || b != y {
                    lemma_places_differ(w, a, b, x as int, y as int);
                }
            }
        }
    }

    /// Paints a part of the picture.
    pub fn fill(&mut self, region: Region, color: Rgb)
        requires
            old(self).wf(),
        ensures
            final(self).wf(),
            final(self).width == old(self).width,
            final(self).height == old(self).height,
            forall|a: int, b: int|
                0 <= a < old(self).width && 0 <= b < old(self).height ==> #[trigger] final(self).at(
                    a,
                    b,
                ) == if region.covers(a, b) {
                    color
                } else {
                    old(self).at(a, b)
                },
    {
        let w = self.width;
        let h = self.height;
        let mut y: u32 = 0;
        while y < h
            invariant
                self.wf(),
                self.width == w == old(self).width,
                self.height == h == old(self).height,
                y <= h,
                forall|a: int, b: int|
                    0 <= a < w && 0 <= b < h ==> #[trigger] self.at(a, b) == if b < y
                        && region.covers(a, b) {
                        color
                    } else {
                        old(self).at(a, b)
                    },
            decreases h - y,
        {
            let mut x: u32 = 0;
            while x < w
                invariant
                    self.wf(),
                    self.width == w == old(self).width,
                    self.height == h == old(self).height,
                    y < h,
                    x <= w,
                    forall|a: int, b: int|
                        0 <= a < w && 0 <= b < h ==> #[trigger] self.at(a, b) == if (b < y || (b == y
                            && a < x)) && region.covers(a, b) {
                            color
                        } else {
                            old(self).at(a, b)
                        },
                decreases w - x,
            {
                if region.has(x, y) {
                    self.put(x, y, color);
                }
                x += 1;
            }
            y += 1;
        }
    }

    /// Paints single points, those outside of the picture aside.
    pub fn plot(&mut self, points: &Vec<(i32, i32)>, color: Rgb)
        requires
            old(self).wf(),
        ensures
            final(self).wf(),
            final(self).width == old(self).width,
            final(self).height == old(self).height,
            forall|a: int, b: int|
                0 <= a < old(self).width && 0 <= b < old(self).height ==> #[trigger] final(self).at(
                    a,
                    b,
                ) == if on_points(points@, a, b) {
                    color
                } else {
                    old(self).at(a, b)
                },
    {
        let ghost w = self.width as int;
        let ghost h = self.height as int;
        let mut i: usize = 0;
        assert(points@.take(0) =~= Seq::empty());
        while i < points.len()
            invariant
                self.wf(),
                self.width == w == old(self).width,
                self.height == h == old(self).height,
                i <= points@.len(),
                forall|a: int, b: int|
                    0 <= a < w && 0 <= b < h ==> #[trigger] self.at(a, b) == if on_points(
                        points@.take(i as int),
                        a,
                        b,
                    ) {
                        color
                    } else {
                        old(self).at(a, b)
                    },
            decreases points@.len() - i,
        {
            let (x, y) = points[i];
            proof {
                assert forall|a: int, b: int| #[trigger] on_points(points@.take(i as int + 1), a, b)
                    == (on_points(points@.take(i as int), a, b) || (a == x && b == y)) by {
                    let s = points@.take(i as int);
                    let t = points@.take(i as int + 1);
                    assert(t[i as int] == points@[i as int]);
                    if on_points(s, a, b) {
                        let k = choose|k: int|
                            0 <= k < s.len() && (#[trigger] s[k]).0 == a && s[k].1 == b;
                        assert(t[k] == s[k]);
                    }
                    if on_points(t, a, b) {
                        let k = choose|k: int|
                            0 <= k < t.len() && (#[trigger] t[k]).0 == a && t[k].1 == b;
                        if k < i {
                            assert(s[k] == t[k]);
                        }
                    }
                }
            }
            if x >= 0 && y >= 0 && (x as u32) < self.width && (y as u32) < self.height {
                self.put(x as u32, y as u32, color);
            }
            i += 1;
        }
        assert(points@.take(points@.len() as int) =~= points@);
    }
}

/// Whether a point is among some points.
pub open spec fn on_points(points: Seq<(i32, i32)>, x: int, y: int) -> bool {
    exists|k: int| 0 <= k < points.len() && (#[trigger] points[k]).0 == x && points[k].1 == y
}

/// The JPEG bytes of a picture, where it is as large as the screen.
pub open spec fn encoded(c: Canvas) -> Result<Seq<u8>, Seq<char>> {
    if c.width != 320 || c.height != 240 {
        Err("画面必须是 320x240。"@)
    } else {
        match jpeg_of(320, 240, c.pixels@, JPEG_QUALITY) {
            Ok(v) => Ok(v),
            Err(e) => Err("JPEG 编码失败："@ + e),
        }
    }
}

/// Encodes a picture that is as large as the screen.
pub fn encode_jpeg(image: &Canvas) -> (r: Result<Vec<u8>, RenderError>)
    requires
        image.wf(),
    ensures
        match r {
            Ok(v) => encoded(*image) == Ok::<Seq<u8>, Seq<char>>(v@),
            Err(e) => encoded(*image) == Err::<Seq<u8>, Seq<char>>(e.0@),
        },
        r is Ok <==> image.width == SCREEN_W && image.height == SCREEN_H,
{
    if image.width != SCREEN_W || image.height != SCREEN_H {
        return Err(RenderError("画面必须是 320x240。".to_owned()));
    }
    match jpeg_bytes(image.width, image.height, image.pixels.as_slice(), JPEG_QUALITY) {
        Ok(v) => Ok(v),
        Err(e) => Err(RenderError(glue("JPEG 编码失败：", e.as_str()))),
    }
}

/// Whether a point of a picture in red, green, blue and opacity can be seen through.
pub open spec fn see_through(pixels: Seq<u8>) -> bool {
    exists|i: int| 0 <= i && 4 * i + 3 < pixels.len() && #[trigger] pixels[4 * i + 3] == 0
}

/// What is wrong with an icon: it must be square, on a background that can be seen
/// through.
pub fn icon_fault(width: u32, height: u32, pixels: &[u8]) -> (r: Option<&'static str>)
    ensures
        match r {
            Some(m) => if width != height {
                m@ == "应用图标必须为正方形"@
            } else {
                m@ == "图标背景必须透明"@ && !see_through(pixels@)
            },
            None => width == height && see_through(pixels@),
        },
{
    if width != height {
        return Some("应用图标必须为正方形");
    }
    let all = pixels.len();
    let n = all / 4;
    let mut i: usize = 0;
    while i < n
        invariant
            width == height,
            i <= n,
            n == all / 4,
            all == pixels@.len(),
            forall|k: int| 0 <= k < i ==> #[trigger] pixels@[4 * k + 3] != 0,
        decreases n - i,
    {
        if pixels[4 * i + 3] == 0 {
            assert(pixels@[4 * (i as int) + 3] == 0);
            return None;
        }
        i += 1;
    }
    Some("图标背景必须透明")
}

/// A picture without the opacity of its points.
pub open spec fn opaque_bytes(p: Seq<u8>) -> Seq<u8> {
    Seq::new((p.len() / 4 * 3) as nat, |i: int| p[i / 3 * 4 + i % 3])
}

fn drop_opacity(p: &Vec<u8>) -> (r: Vec<u8>)
    ensures
        r@ == opaque_bytes(p@),
{
    let all = p.len();
    let n = all / 4;
    let mut out: Vec<u8> = Vec::new();
    let mut i: usize = 0;
    while i < n
        invariant
            i <= n,
            n == all / 4,
            all == p@.len(),
            out@.len() == 3 * i,
            forall|k: int| 0 <= k < 3 * i ==> #[trigger] out@[k] == p@[k / 3 * 4 + k % 3],
        decreases n - i,
    {
        out.push(p[4 * i]);
        out.push(p[4 * i + 1]);
        out.push(p[4 * i + 2]);
        i += 1;
    }
    assert(out@ =~= opaque_bytes(p@));
    out
}

/// Whether a picture of the screen shows a smaller picture in its middle, on a
/// ground in one colour.
pub open spec fn shows_centred(c: Canvas, ground: Rgb, fitted: (u32, u32, Seq<u8>)) -> bool {
    let dx = (320 - fitted.0) / 2;
    let dy = (240 - fitted.1) / 2;
    &&& c.wf()
    &&& c.width == 320
    &&& c.height == 240
    &&& forall|x: int, y: int|
        0 <= x < 320 && 0 <= y < 240 ==> #[trigger] c.at(x, y) == if dx <= x < dx + fitted.0 && dy
            <= y < dy + fitted.1 {
            point(fitted.2, fitted.0 as int, x - dx, y - dy)
        } else {
            ground
        }
}

/// Puts a picture into the middle of the screen.
pub fn centre_picture(ground: Rgb, width: u32, height: u32, pixels: &Vec<u8>) -> (r: Canvas)
    requires
        width <= 320,
        height <= 240,
        pixels@.len() == 3 * (width * height),
    ensures
        shows_centred(r, ground, (width, height, pixels@)),
{
    let dx = (SCREEN_W - width) / 2;
    let dy = (SCREEN_H - height) / 2;
    let mut c = Canvas::screen(ground);
    let n = pixels.len();
    let mut y: u32 = 0;
    while y < height
        invariant
            y <= height <= 240,
            width <= 320,
            n == pixels@.len() == 3 * (width * height),
            dx == (320 - width) / 2,
            dy == (240 - height) / 2,
            c.wf(),
            c.width == 320 && c.height == 240,
            forall|a: int, b: int|
                0 <= a < 320 && 0 <= b < 240 ==> #[trigger] c.at(a, b) == if dx <= a < dx + width
                    && dy <= b < dy + y {
                    point(pixels@, width as int, a - dx, b - dy)
                } else {
                    ground
                },
        decreases height - y,
    {
        let mut x: u32 = 0;
        while x < width
            invariant
                y < height <= 240,
                x <= width <= 320,
                n == pixels@.len() == 3 * (width * height),
                dx == (320 - width) / 2,
                dy == (240 - height) / 2,
                c.wf(),
                c.width == 320 && c.height == 240,
                forall|a: int, b: int|
                    0 <= a < 320 && 0 <= b < 240 ==> #[trigger] c.at(a, b) == if dx <= a < dx + width
                        && dy <= b && (b < dy + y || (b == dy + y && a < dx + x)) {
                        point(pixels@, width as int, a - dx, b - dy)
                    } else {
                        ground
                    },
            decreases width - x,
        {
            proof {
                lemma_place_inside(width as int, height as int, x as int, y as int);
            }
            let i: usize = 3 * (y as usize * width as usize + x as usize);
            c.put(dx + x, dy + y, (pixels[i], pixels[i + 1], pixels[i + 2]));
            x += 1;
        }
        y += 1;
    }
    c
}

/// The largest number of points of a picture that is opened for a preview.
pub const POINT_LIMIT: u64 = 40_000_000;

/// Refuses a picture with too many points.
pub fn check_size(width: u32, height: u32) -> (r: Result<(), String>)
    ensures
        match r {
            Ok(_) => width * height <= POINT_LIMIT,
            Err(e) => width * height > POINT_LIMIT && e@ == "图片超过 4000 万像素"@,
        },
{
    assert(width * height <= u32::MAX * u32::MAX) by (nonlinear_arith)
        requires
            0 <= width <= u32::MAX,
            0 <= height <= u32::MAX,
    ;
    if width as u64 * height as u64 > POINT_LIMIT {
        Err("图片超过 4000 万像素".to_owned())
    } else {
        Ok(())
    }
}

/// Whether a picture of the screen shows a picture with `flat` as its points: as
/// large as the screen allows, in the middle, and unchanged where it has that
/// size already.
pub open spec fn shows_fitted(c: Canvas, ground: Rgb, width: int, height: int, flat: Seq<u8>) -> bool {
    exists|wide: u32, high: u32, pixels: Seq<u8>|
        {
            &&& fills_room(width, height, (320, 240), wide as int, high as int)
            &&& pixels.len() == 3 * (wide * high)
            &&& wide == width && high == height ==> pixels == flat
            &&& #[trigger] shows_centred(c, ground, (wide, high, pixels))
        }
}

/// A picture on the screen: on a ground that fills in what is transparent, as
/// large as it fits, and in the middle. Which colours a picture has that is
/// scaled is left to the scaling.
pub fn render_image_frame(source: &Rgba, background: &str) -> (r: Result<Canvas, RenderError>)
    requires
        source.width >= 1,
        source.height >= 1,
        source.pixels@.len() == 4 * (source.width * source.height),
    ensures
        match (r, color_of(background@)) {
            (Ok(c), Some(ground)) => shows_fitted(
                c,
                ground,
                source.width as int,
                source.height as int,
                opaque_bytes(
                    flattened(
                        source.width as int,
                        source.height as int,
                        source.pixels@,
                        ground,
                    ),
                ),
            ),
            (Err(e), None) => e.0@ == "颜色必须是 #RRGGBB："@ + background@,
            _ => false,
        },
{
    let ground = match parse_color(background) {
        Ok(c) => c,
        Err(e) => {
            return Err(e);
        },
    };
    let flat = drop_opacity(&flatten(source, ground));
    match shrink(source.width, source.height, flat, (SCREEN_W, SCREEN_H)) {
        Some((width, height, pixels)) => Ok(centre_picture(ground, width, height, &pixels)),
        None => Ok(Canvas::screen(ground)),
    }
}

/// A picture that is as large as the screen is shown point by point.
pub proof fn law_screen_picture_is_kept(c: Canvas, ground: Rgb, flat: Seq<u8>, x: int, y: int)
    requires
        shows_fitted(c, ground, 320, 240, flat),
        0 <= x < 320,
        0 <= y < 240,
    ensures
        c.at(x, y) == point(flat, 320, x, y),
{
    let (wide, high, pixels) = choose|wide: u32, high: u32, pixels: Seq<u8>|
        {
            &&& fills_room(320, 240, (320, 240), wide as int, high as int)
            &&& pixels.len() == 3 * (wide * high)
            &&& wide == 320 && high == 240 ==> pixels == flat
            &&& #[trigger] shows_centred(c, ground, (wide, high, pixels))
        };
    assert(next_to(high as int, 76800, 320) ==> high == 240) by (nonlinear_arith);
    assert(next_to(wide as int, 76800, 240) ==> wide == 320) by (nonlinear_arith);
    assert(shows_centred(c, ground, (320u32, 240u32, flat)));
    assert(c.at(x, y) == point(flat, 320, x, y));
}

proof fn lemma_two_digits(n: u8)
    ensures
        ({
            let s = padded(numeral(n as nat, 16), 2);
            &&& s.len() == 2
            &&& hex_digit(s[0]) && hex_digit(s[1])
            &&& hex_value(s[0]) * 16 + hex_value(s[1]) == n
            &&& s[0] != '#' && !white(s[1])
        }),
{
    let s = padded(numeral(n as nat, 16), 2);
    if n < 16 {
        assert(numeral(n as nat, 16) =~= seq![digit(n as nat)]);
        assert(s =~= seq!['0', digit(n as nat)]);
    } else {
        let high = (n / 16) as nat;
        let low = (n % 16) as nat;
        assert(numeral(high, 16) =~= seq![digit(high)]);
        assert(numeral(n as nat, 16) =~= seq![digit(high), digit(low)]);
        assert(s =~= numeral(n as nat, 16));
    }
}

/// A colour that is written in hexadecimal reads as the colour again.
pub proof fn law_color_reads_back(r: u8, g: u8, b: u8)
    ensures
        color_of(
            "#"@ + padded(numeral(r as nat, 16), 2) + padded(numeral(g as nat, 16), 2) + padded(
                numeral(b as nat, 16),
                2,
            ),
        ) == Some((r, g, b)),
{
    lemma_two_digits(r);
    lemma_two_digits(g);
    lemma_two_digits(b);
    reveal_strlit("#");
    let x = padded(numeral(r as nat, 16), 2);
    let y = padded(numeral(g as nat, 16), 2);
    let z = padded(numeral(b as nat, 16), 2);
    let s = "#"@ + x + y + z;
    assert(s[0] == '#');
    assert(trimmed_start(s) == s);
    assert(s.last() == z[1]);
    assert(trimmed_end(s) == s);
    let d = s.drop_first();
    assert(d =~= x + y + z);
    assert(d[0] == x[0] && d[1] == x[1] && d[2] == y[0] && d[3] == y[1] && d[4] == z[0] && d[5]
        == z[1]);
    assert(unhashed(d) == d);
    assert(unhashed(s) == d);
}

/// A block reaches from corner to corner and no farther, and a disc is round: what it
/// has on one side of its middle it has on all.
pub proof fn law_regions_have_their_shape(x: int, y: int, a: i32, b: i32, c: i32, d: i32)
    ensures
        ({
            let block = Region::Block { x0: a, y0: b, x1: c, y1: d };
            let disc = Region::Disc { cx: a, cy: b, r: c };
            &&& block.covers(x, y) <==> a <= x <= c && b <= y <= d
            &&& disc.covers(a + x, b + y) <==> disc.covers(a - x, b + y)
            &&& disc.covers(a + x, b + y) <==> disc.covers(a + y, b + x)
            &&& disc.covers(a + x, b + y) <==> x * x + y * y <= c * c
        }),
{
    assert((-x) * (-x) == x * x) by (nonlinear_arith);
    assert((a + x) - a == x && (b + y) - b == y && (a - x) - a == -x);
    assert((a + y) - a == y && (b + x) - b == x);
}

/// A picture in the middle of the screen has as much ground on its left as on its right
/// and above as below, to within a point, and its points stand as they were.
pub proof fn law_picture_is_in_the_middle(
    c: Canvas,
    ground: Rgb,
    fitted: (u32, u32, Seq<u8>),
    x: int,
    y: int,
)
    requires
        shows_centred(c, ground, fitted),
        fitted.0 <= 320,
        fitted.1 <= 240,
        0 <= x < fitted.0,
        0 <= y < fitted.1,
    ensures
        ({
            let left = (320 - fitted.0) / 2;
            let top = (240 - fitted.1) / 2;
            &&& 0 <= 320 - fitted.0 - left - left <= 1
            &&& 0 <= 240 - fitted.1 - top - top <= 1
            &&& c.at(left + x, top + y) == point(fitted.2, fitted.0 as int, x, y)
            &&& left > 0 ==> c.at(0, y) == ground
            &&& top > 0 ==> c.at(x, 0) == ground
        }),
{
    let left = (320 - fitted.0) / 2;
    let top = (240 - fitted.1) / 2;
    assert(c.at(left + x, top + y) == point(fitted.2, fitted.0 as int, x, y));
}

/// Every point keeps its red, its green and its blue.
pub proof fn law_points_keep_their_colour(p: Seq<u8>, i: int, k: int)
    requires
        0 <= i,
        4 * i + 3 < p.len(),
        0 <= k < 3,
    ensures
        3 * i + k < opaque_bytes(p).len(),
        opaque_bytes(p)[3 * i + k] == p[4 * i + k],
        p.len() % 4 == 0 ==> 4 * opaque_bytes(p).len() == 3 * p.len(),
{
    assert((3 * i + k) / 3 == i);
    assert((3 * i + k) % 3 == k);
}

/// Just a picture of the size of the screen is encoded, all of it and in the quality
/// that is meant for it.
pub proof fn law_screens_are_encoded(c: Canvas)
    ensures
        encoded(c) matches Ok(v) ==> c.width == 320 && c.height == 240 && jpeg_of(
            320,
            240,
            c.pixels@,
            JPEG_QUALITY,
        ) == Ok::<Seq<u8>, Seq<char>>(v),
        c.width == 320 && c.height == 240 && jpeg_of(320, 240, c.pixels@, JPEG_QUALITY) is Ok
            ==> encoded(c) is Ok,
        c.width != 320 || c.height != 240 ==> encoded(c) is Err,
{
}

} // verus!
