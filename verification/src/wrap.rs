//! Texts broken into lines that fit, by a measure of how wide they are.

use vstd::prelude::*;

use crate::calendar_data::{lines_of, split_lines};
use crate::text::{chars_of, texts};

verus! {

/// Whether a measure said of a text that it fits, or that it does not: in a
/// size, bold or not, into a width.
pub open spec fn said<F: Fn(u32, bool, u32, &str) -> bool>(
    fits: F,
    size: u32,
    bold: bool,
    limit: u32,
    s: Seq<char>,
    answer: bool,
) -> bool {
    exists|t: &str| t@ == s && #[trigger] fits.ensures((size, bold, limit, t), answer)
}

/// Texts run together.
pub open spec fn concat(lines: Seq<Seq<char>>) -> Seq<char>
    decreases lines.len(),
{
    if lines.len() == 0 {
        Seq::empty()
    } else {
        concat(lines.drop_last()) + lines.last()
    }
}

/// A line that fits, letter by letter; a single letter always does.
pub open spec fn fitting<F: Fn(u32, bool, u32, &str) -> bool>(
    fits: F,
    size: u32,
    bold: bool,
    limit: u32,
    line: Seq<char>,
) -> bool {
    forall|n: int|
        2 <= n <= line.len() ==> said(fits, size, bold, limit, #[trigger] line.take(n), true)
}

/// Whether a paragraph is broken into lines: nothing is lost, every line fits,
/// and no line had room for the first letter of the next one.
pub open spec fn broken<F: Fn(u32, bool, u32, &str) -> bool>(
    fits: F,
    size: u32,
    bold: bool,
    limit: u32,
    paragraph: Seq<char>,
    lines: Seq<Seq<char>>,
) -> bool {
    &&& lines.len() >= 1
    &&& concat(lines) == paragraph
    &&& forall|k: int|
        0 <= k < lines.len() ==> fitting(fits, size, bold, limit, #[trigger] lines[k])
    &&& forall|k: int|
        #![trigger lines[k]]
        0 <= k < lines.len() - 1 ==> lines[k].len() > 0 && lines[k + 1].len() > 0 && said(
            fits,
            size,
            bold,
            limit,
            lines[k].push(lines[k + 1][0]),
            false,
        )
}

/// Whether paragraphs are broken into lines, one after another.
pub open spec fn wrapped<F: Fn(u32, bool, u32, &str) -> bool>(
    fits: F,
    size: u32,
    bold: bool,
    limit: u32,
    paragraphs: Seq<Seq<char>>,
    lines: Seq<Seq<char>>,
) -> bool
    decreases paragraphs.len(),
{
    if paragraphs.len() == 0 {
        lines.len() == 0
    } else {
        exists|k: int|
            0 <= k <= lines.len() && wrapped(
                fits,
                size,
                bold,
                limit,
                paragraphs.drop_last(),
                #[trigger] lines.take(k),
            ) && broken(fits, size, bold, limit, paragraphs.last(), lines.skip(k))
    }
}

proof fn lemma_concat_split(lines: Seq<Seq<char>>, k: int)
    requires
        0 <= k <= lines.len(),
    ensures
        concat(lines) == concat(lines.take(k)) + concat(lines.skip(k)),
    decreases lines.len(),
{
    if k == lines.len() {
        assert(lines.take(k) =~= lines);
        assert(lines.skip(k) =~= Seq::empty());
        assert(concat(lines) =~= concat(lines.take(k)) + concat(lines.skip(k)));
    } else {
        lemma_concat_split(lines.drop_last(), k);
        assert(lines.drop_last().take(k) =~= lines.take(k));
        assert(lines.skip(k).drop_last() =~= lines.drop_last().skip(k));
        assert(lines.skip(k).last() == lines.last());
        assert(concat(lines) =~= concat(lines.take(k)) + concat(lines.skip(k)));
    }
}

/// Breaking paragraphs into lines loses nothing and adds nothing, whatever the
/// measure says; and no paragraph is left without a line.
pub proof fn law_wrapping_keeps_the_text<F: Fn(u32, bool, u32, &str) -> bool>(
    fits: F,
    size: u32,
    bold: bool,
    limit: u32,
    paragraphs: Seq<Seq<char>>,
    lines: Seq<Seq<char>>,
)
    requires
        wrapped(fits, size, bold, limit, paragraphs, lines),
    ensures
        concat(lines) == concat(paragraphs),
        lines.len() >= paragraphs.len(),
    decreases paragraphs.len(),
{
    if paragraphs.len() > 0 {
        let k = choose|k: int|
            0 <= k <= lines.len() && wrapped(
                fits,
                size,
                bold,
                limit,
                paragraphs.drop_last(),
                #[trigger] lines.take(k),
            ) && broken(fits, size, bold, limit, paragraphs.last(), lines.skip(k));
        law_wrapping_keeps_the_text(
            fits,
            size,
            bold,
            limit,
            paragraphs.drop_last(),
            lines.take(k),
        );
        lemma_concat_split(lines, k);
    } else {
        assert(lines =~= Seq::empty());
        assert(paragraphs =~= Seq::empty());
    }
}

/// A measure that can be asked about any text.
pub open spec fn measures<F: Fn(u32, bool, u32, &str) -> bool>(fits: F) -> bool {
    forall|size: u32, bold: bool, limit: u32, t: &str| #[trigger]
        fits.requires((size, bold, limit, t))
}

fn break_paragraph<F: Fn(u32, bool, u32, &str) -> bool>(
    fits: &F,
    size: u32,
    bold: bool,
    limit: u32,
    paragraph: &str,
) -> (r: Vec<String>)
    requires
        measures(*fits),
    ensures
        broken(*fits, size, bold, limit, paragraph@, texts(r@)),
{
    let chars = chars_of(paragraph);
    let mut lines: Vec<String> = Vec::new();
    let mut current = String::new();
    let mut i: usize = 0;
    assert(texts(lines@) =~= Seq::empty());
    assert(concat(texts(lines@)) + current@ =~= paragraph@.take(0));
    while i < chars.len()
        invariant
            measures(*fits),
            i <= chars@.len(),
            chars@ == paragraph@,
            concat(texts(lines@)) + current@ == paragraph@.take(i as int),
            fitting(*fits, size, bold, limit, current@),
            i > 0 ==> current@.len() > 0,
            i == 0 ==> lines@.len() == 0,
            forall|k: int|
                0 <= k < lines@.len() ==> fitting(
                    *fits,
                    size,
                    bold,
                    limit,
                    #[trigger] texts(lines@)[k],
                ),
            forall|k: int|
                #![trigger texts(lines@)[k]]
                0 <= k < lines@.len() ==> {
                    let next = if k + 1 < lines@.len() {
                        texts(lines@)[k + 1]
                    } else {
                        current@
                    };
                    texts(lines@)[k].len() > 0 && next.len() > 0 && said(
                        *fits,
                        size,
                        bold,
                        limit,
                        texts(lines@)[k].push(next[0]),
                        false,
                    )
                },
        decreases chars@.len() - i,
    {
        let c = chars[i];
        let ghost before = current@;
        let ghost done = texts(lines@);
        proof {
            assert(paragraph@.take(i as int + 1) =~= paragraph@.take(i as int).push(c));
        }
        let mut candidate = current.clone();
        candidate.push(c);
        let room = current.as_str().unicode_len() == 0 || fits(
            size,
            bold,
            limit,
            candidate.as_str(),
        );
        if room {
            current = candidate;
            proof {
                assert(concat(done) + current@ =~= (concat(done) + before).push(c));
                assert forall|n: int| 2 <= n <= current@.len() implies said(
                    *fits,
                    size,
                    bold,
                    limit,
                    #[trigger] current@.take(n),
                    true,
                ) by {
                    if n <= before.len() {
                        assert(current@.take(n) =~= before.take(n));
                    } else {
                        assert(current@.take(n) =~= current@);
                    }
                }
                if before.len() > 0 {
                    assert(current@[0] == before[0]);
                } else {
                    assert(lines@.len() == 0) by {
                        if lines@.len() > 0 {
                            assert(i > 0);
                        }
                    }
                }
            }
        } else {
            assert(said(*fits, size, bold, limit, before.push(c), false));
            let mut next = String::new();
            next.push(c);
            lines.push(current);
            current = next;
            proof {
                let all = texts(lines@);
                assert(current@ =~= seq![c]);
                assert(all.drop_last() =~= done);
                assert(all.last() == before);
                assert(concat(all) + current@ =~= (concat(done) + before).push(c));
                assert forall|k: int| 0 <= k < lines@.len() implies fitting(
                    *fits,
                    size,
                    bold,
                    limit,
                    #[trigger] all[k],
                ) by {
                    if k < done.len() {
                        assert(all[k] == done[k]);
                    }
                }
                assert forall|k: int|
                    #![trigger all[k]]
                    0 <= k < lines@.len() implies {
                    let next = if k + 1 < lines@.len() {
                        all[k + 1]
                    } else {
                        current@
                    };
                    all[k].len() > 0 && next.len() > 0 && said(
                        *fits,
                        size,
                        bold,
                        limit,
                        all[k].push(next[0]),
                        false,
                    )
                } by {
                    if k < done.len() {
                        assert(all[k] == done[k]);
                        if k + 1 < done.len() {
                            assert(all[k + 1] == done[k + 1]);
                        } else {
                            assert(all[k + 1] == before);
                        }
                    }
                }
            }
        }
        i += 1;
    }
    let ghost done = texts(lines@);
    let ghost rest = current@;
    lines.push(current);
    proof {
        let all = texts(lines@);
        assert(paragraph@.take(paragraph@.len() as int) =~= paragraph@);
        assert(all.drop_last() =~= done);
        assert(all.last() == rest);
        assert forall|k: int| 0 <= k < all.len() implies fitting(
            *fits,
            size,
            bold,
            limit,
            #[trigger] all[k],
        ) by {
            if k < done.len() {
                assert(all[k] == done[k]);
            }
        }
        assert forall|k: int|
            #![trigger all[k]]
            0 <= k < all.len() - 1 implies all[k].len() > 0 && all[k + 1].len() > 0 && said(
            *fits,
            size,
            bold,
            limit,
            all[k].push(all[k + 1][0]),
            false,
        ) by {
            assert(all[k] == done[k]);
            if k + 1 < done.len() {
                assert(all[k + 1] == done[k + 1]);
            } else {
                assert(all[k + 1] == rest);
            }
        }
    }
    lines
}

/// Breaks a text into lines that fit into a width.
pub fn wrap_text<F: Fn(u32, bool, u32, &str) -> bool>(
    fits: &F,
    size: u32,
    bold: bool,
    text: &str,
    limit: u32,
) -> (r: Vec<String>)
    requires
        measures(*fits),
    ensures
        wrapped(*fits, size, bold, limit, lines_of(text@), texts(r@)),
{
    let paragraphs = split_lines(text);
    let ghost all = texts(paragraphs@);
    let mut lines: Vec<String> = Vec::new();
    let mut i: usize = 0;
    assert(all.take(0) =~= Seq::empty());
    while i < paragraphs.len()
        invariant
            measures(*fits),
            i <= paragraphs@.len(),
            all == texts(paragraphs@),
            wrapped(*fits, size, bold, limit, all.take(i as int), texts(lines@)),
        decreases paragraphs@.len() - i,
    {
        let mut more = break_paragraph(fits, size, bold, limit, paragraphs[i].as_str());
        let ghost before = texts(lines@);
        let ghost added = texts(more@);
        lines.append(&mut more);
        proof {
            let t = all.take(i as int + 1);
            let after = texts(lines@);
            let k = before.len() as int;
            assert(t.drop_last() =~= all.take(i as int));
            assert(t.last() == paragraphs@[i as int]@);
            assert(after.take(k) =~= before);
            assert(after.skip(k) =~= added);
            assert(wrapped(*fits, size, bold, limit, t, after));
        }
        i += 1;
    }
    assert(all.take(all.len() as int) =~= all);
    lines
}

/// Whether a size is the largest one in which a text fits, or the smallest one
/// that is allowed.
pub open spec fn largest<F: Fn(u32, bool, u32, &str) -> bool>(
    fits: F,
    text: Seq<char>,
    bold: bool,
    limit: u32,
    start: u32,
    minimum: u32,
    size: u32,
) -> bool {
    &&& minimum <= size <= start
    &&& forall|s: u32| size < s <= start ==> #[trigger] said(fits, s, bold, limit, text, false)
    &&& said(fits, size, bold, limit, text, true) || (size == minimum && said(
        fits,
        size,
        bold,
        limit,
        text,
        false,
    ))
}

/// The largest size in which a text fits into one line, from `start` down to
/// `minimum`.
pub fn fit_single_line_font<F: Fn(u32, bool, u32, &str) -> bool>(
    fits: &F,
    text: &str,
    limit: u32,
    start: u32,
    minimum: u32,
    bold: bool,
) -> (r: u32)
    requires
        measures(*fits),
        minimum <= start,
    ensures
        largest(*fits, text@, bold, limit, start, minimum, r),
{
    let mut size = start;
    loop
        invariant
            measures(*fits),
            minimum <= size <= start,
            forall|s: u32|
                size < s <= start ==> #[trigger] said(*fits, s, bold, limit, text@, false),
        decreases size - minimum,
    {
        let room = fits(size, bold, limit, text);
        assert(said(*fits, size, bold, limit, text@, room));
        if room || size == minimum {
            return size;
        }
        size = size - 1;
    }
}

/// The lines of a text that fill a box: how large they are, and as many of them
/// as have room.
#[derive(Debug)]
pub struct Body {
    pub size: u32,
    pub lines: Vec<String>,
    pub height: u32,
}

/// Whether so many lines of a size have room in a height.
pub open spec fn has_room(lines: nat, size: u32, height: u32) -> bool {
    lines * (size + 7) <= height
}

/// Whether lines in a size are how a text fills a box: the size is the largest
/// one, from 27 down to 14, in which all lines have room; in the smallest size
/// the lines without room are left out, but for the first.
pub open spec fn fills_box<F: Fn(u32, bool, u32, &str) -> bool>(
    fits: F,
    text: Seq<char>,
    limit: u32,
    height: u32,
    size: u32,
    lines: Seq<Seq<char>>,
) -> bool {
    &&& 14 <= size <= 27
    &&& forall|s: u32| size < s <= 27 ==> #[trigger] too_high(fits, text, limit, height, s)
    &&& exists|all: Seq<Seq<char>>| #[trigger]
        wrapped(fits, size, false, limit, lines_of(text), all) && if has_room(
            all.len(),
            size,
            height,
        ) {
            lines == all
        } else {
            size == 14 && lines == all.take(least(all.len(), most_lines(height)))
        }
}

/// Whether a text in a size takes more than a height.
pub open spec fn too_high<F: Fn(u32, bool, u32, &str) -> bool>(
    fits: F,
    text: Seq<char>,
    limit: u32,
    height: u32,
    size: u32,
) -> bool {
    exists|all: Seq<Seq<char>>| #[trigger]
        wrapped(fits, size, false, limit, lines_of(text), all) && !has_room(
            all.len(),
            size,
            height,
        )
}

/// How many lines in the smallest size have room in a height, at least one.
pub open spec fn most_lines(height: u32) -> nat {
    if height < 21 {
        1
    } else {
        (height / 21) as nat
    }
}

pub open spec fn least(a: nat, b: nat) -> int {
    if a <= b {
        a as int
    } else {
        b as int
    }
}

/// Fills a box with a text.
pub fn fit_body<F: Fn(u32, bool, u32, &str) -> bool>(
    fits: &F,
    text: &str,
    limit: u32,
    height: u32,
) -> (r: Body)
    requires
        measures(*fits),
    ensures
        fills_box(*fits, text@, limit, height, r.size, texts(r.lines@)),
        r.height == r.size + 7,
{
    let mut size: u32 = 27;
    loop
        invariant
            measures(*fits),
            14 <= size <= 27,
            forall|s: u32| size < s <= 27 ==> #[trigger] too_high(*fits, text@, limit, height, s),
        decreases size,
    {
        let mut lines = wrap_text(fits, size, false, text, limit);
        let ghost all = texts(lines@);
        let n = lines.len();
        proof {
            assert(all.len() == n);
            assert(n * (size + 7) <= 0x1_0000_0000_0000_0000 * 34) by (nonlinear_arith)
                requires
                    0 <= n < 0x1_0000_0000_0000_0000,
                    0 <= size <= 27,
            ;
        }
        if n as u128 * (size as u128 + 7) <= height as u128 {
            return Body { size, lines, height: size + 7 };
        }
        if size == 14 {
            let most: usize = if height < 21 {
                1
            } else {
                (height / 21) as usize
            };
            lines.truncate(most);
            assert(texts(lines@) =~= all.take(least(all.len(), most_lines(height))));
            return Body { size, lines, height: 21 };
        }
        assert(too_high(*fits, text@, limit, height, size));
        size = size - 1;
    }
}

/// The lines that fill a box are the first ones of the text and have room in it: all of
/// them where they can, and no larger than 27 nor smaller than 14.
pub proof fn law_lines_have_room<F: Fn(u32, bool, u32, &str) -> bool>(
    fits: F,
    text: Seq<char>,
    limit: u32,
    height: u32,
    size: u32,
    lines: Seq<Seq<char>>,
)
    requires
        fills_box(fits, text, limit, height, size, lines),
        height >= 21,
    ensures
        14 <= size <= 27,
        lines.len() * (size + 7) <= height,
        exists|all: Seq<Seq<char>>| #[trigger]
            wrapped(fits, size, false, limit, lines_of(text), all) && lines.is_prefix_of(all) && (
            size > 14 || all.len() * 21 <= height ==> lines == all),
{
    let all = choose|all: Seq<Seq<char>>| #[trigger]
        wrapped(fits, size, false, limit, lines_of(text), all) && if has_room(
            all.len(),
            size,
            height,
        ) {
            lines == all
        } else {
            size == 14 && lines == all.take(least(all.len(), most_lines(height)))
        };
    assert(wrapped(fits, size, false, limit, lines_of(text), all));
    if has_room(all.len(), size, height) {
        assert(all.take(all.len() as int) =~= all);
    } else {
        let n = least(all.len(), most_lines(height));
        assert(all.take(n).len() == n);
        assert(n * 21 <= height);
        assert(all.take(n) =~= all.take(lines.len() as int));
    }
}

} // verus!
