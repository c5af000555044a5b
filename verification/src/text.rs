//! Characters, numerals and the other small things that are done with text.

use vstd::prelude::*;
use vstd::utf8::encode_utf8;

verus! {

/// The digit of a value below sixteen.
pub open spec fn digit(d: nat) -> char {
    if d < 10 {
        (0x30 + d) as char
    } else {
        (0x57 + d) as char
    }
}

fn digit_char(d: u64) -> (r: char)
    requires
        d < 16,
    ensures
        r == digit(d as nat),
{
    if d < 10 {
        (0x30u8 + d as u8) as char
    } else {
        (0x57u8 + d as u8) as char
    }
}

/// A number written in a base, without leading zeros.
pub open spec fn numeral(n: nat, base: nat) -> Seq<char>
    decreases n,
{
    if base < 2 || n < base {
        seq![digit(n)]
    } else {
        proof {
            assert(n / base < n) by (nonlinear_arith)
                requires
                    2 <= base <= n,
            ;
        }
        numeral(n / base, base).push(digit(n % base))
    }
}

/// A number in decimal.
pub open spec fn decimal(n: nat) -> Seq<char> {
    numeral(n, 10)
}

/// Zeros in front of a text, up to a width.
pub open spec fn padded(s: Seq<char>, width: nat) -> Seq<char> {
    if s.len() >= width {
        s
    } else {
        Seq::new((width - s.len()) as nat, |i: int| '0') + s
    }
}

/// Writes a number in base ten or sixteen.
fn write_numeral(n: u64, base: u64) -> (r: String)
    requires
        2 <= base <= 16,
    ensures
        r@ == numeral(n as nat, base as nat),
{
    let mut digits: Vec<char> = Vec::new();
    let mut rest = n;
    let ghost mut done: Seq<char> = Seq::empty();
    while rest >= base
        invariant
            2 <= base <= 16,
            done.len() == digits@.len(),
            forall|i: int| 0 <= i < done.len() ==> #[trigger] done[i] == digits@[done.len() - 1 - i],
            numeral(n as nat, base as nat) == numeral(rest as nat, base as nat) + done,
        decreases rest,
    {
        proof {
            let first = digit((rest % base) as nat);
            assert(numeral(rest as nat, base as nat) + done =~= numeral(
                (rest / base) as nat,
                base as nat,
            ) + (seq![first] + done));
            assert(rest / base < rest) by (nonlinear_arith)
                requires
                    2 <= base <= rest,
            ;
            done = seq![first] + done;
        }
        digits.push(digit_char(rest % base));
        rest = rest / base;
    }
    let mut out = String::new();
    out.push(digit_char(rest));
    let mut i: usize = digits.len();
    while i > 0
        invariant
            i <= digits@.len(),
            done.len() == digits@.len(),
            forall|i: int| 0 <= i < done.len() ==> #[trigger] done[i] == digits@[done.len() - 1 - i],
            out@ == seq![digit(rest as nat)] + done.take(done.len() - i),
        decreases i,
    {
        i -= 1;
        out.push(digits[i]);
        proof {
            assert(done[done.len() - 1 - i] == digits@[i as int]);
            assert(out@ =~= seq![digit(rest as nat)] + done.take(done.len() - i));
        }
    }
    assert(done.take(done.len() as int) =~= done);
    out
}

/// A number in decimal.
pub fn write_decimal(n: u64) -> (r: String)
    ensures
        r@ == decimal(n as nat),
{
    write_numeral(n, 10)
}

/// Puts zeros in front of a text, up to a width.
fn pad(s: &str, width: usize) -> (r: String)
    ensures
        r@ == padded(s@, width as nat),
{
    let n = s.unicode_len();
    let mut out = String::new();
    let mut i: usize = n;
    while i < width
        invariant
            n == s@.len(),
            i == n + out@.len(),
            i <= n || i <= width,
            forall|k: int| 0 <= k < out@.len() ==> #[trigger] out@[k] == '0',
        decreases width - i,
    {
        out.push('0');
        i += 1;
    }
    let ghost zeros = out@;
    out.append(s);
    assert(out@ =~= padded(s@, width as nat));
    out
}

/// A number in decimal, at least two digits wide.
pub fn write_two(n: u64) -> (r: String)
    ensures
        r@ == padded(decimal(n as nat), 2),
{
    let s = write_decimal(n);
    pad(s.as_str(), 2)
}

/// A number, at least `width` digits wide.
pub fn write_padded(n: u64, width: usize) -> (r: String)
    ensures
        r@ == padded(decimal(n as nat), width as nat),
{
    let s = write_decimal(n);
    pad(s.as_str(), width)
}

/// A number in lower-case hexadecimal, at least `width` digits wide.
pub fn write_hex(n: u64, width: usize) -> (r: String)
    ensures
        r@ == padded(numeral(n as nat, 16), width as nat),
{
    let s = write_numeral(n, 16);
    pad(s.as_str(), width)
}

/// The characters that count as white space.
pub open spec fn white(c: char) -> bool {
    let n = c as u32;
    ||| 0x9 <= n <= 0xd
    ||| n == 0x20
    ||| n == 0x85
    ||| n == 0xa0
    ||| n == 0x1680
    ||| 0x2000 <= n <= 0x200a
    ||| n == 0x2028
    ||| n == 0x2029
    ||| n == 0x202f
    ||| n == 0x205f
    ||| n == 0x3000
}

/// Whether a character is white space.
pub fn is_white(c: char) -> (r: bool)
    ensures
        r == white(c),
{
    let n = c as u32;
    (0x9 <= n && n <= 0xd) || n == 0x20 || n == 0x85 || n == 0xa0 || n == 0x1680 || (0x2000 <= n
        && n <= 0x200a) || n == 0x2028 || n == 0x2029 || n == 0x202f || n == 0x205f || n == 0x3000
}

/// A text without the white space in front.
pub open spec fn trimmed_start(s: Seq<char>) -> Seq<char>
    decreases s.len(),
{
    if s.len() > 0 && white(s[0]) {
        trimmed_start(s.drop_first())
    } else {
        s
    }
}

/// A text without the white space behind.
pub open spec fn trimmed_end(s: Seq<char>) -> Seq<char>
    decreases s.len(),
{
    if s.len() > 0 && white(s.last()) {
        trimmed_end(s.drop_last())
    } else {
        s
    }
}

/// A text without the white space around it.
pub open spec fn trimmed(s: Seq<char>) -> Seq<char> {
    trimmed_end(trimmed_start(s))
}

/// The characters of a text.
pub fn chars_of(s: &str) -> (r: Vec<char>)
    ensures
        r@ == s@,
{
    let mut out: Vec<char> = Vec::new();
    for c in it: s.chars()
        invariant
            it.seq() == s@,
            out@ == s@.take(it.index()),
    {
        out.push(c);
        assert(s@.take(it.index() + 1) =~= s@.take(it.index()).push(c));
    }
    assert(s@.take(s@.len() as int) =~= s@);
    out
}

/// The text made of some characters.
pub fn text_of_chars(chars: &[char]) -> (r: String)
    ensures
        r@ == chars@,
{
    let mut out = String::new();
    let mut i: usize = 0;
    while i < chars.len()
        invariant
            i <= chars@.len(),
            out@ == chars@.take(i as int),
        decreases chars@.len() - i,
    {
        out.push(chars[i]);
        i += 1;
        assert(out@ =~= chars@.take(i as int));
    }
    assert(chars@.take(chars@.len() as int) =~= chars@);
    out
}

/// The text without the white space around it.
pub fn trim(s: &str) -> (r: &str)
    ensures
        r@ == trimmed(s@),
{
    let chars = chars_of(s);
    let n = chars.len();
    let mut i: usize = 0;
    assert(s@.subrange(0, n as int) =~= s@);
    while i < n && is_white(chars[i])
        invariant
            i <= n,
            n == chars@.len(),
            chars@ == s@,
            trimmed_start(s@) == trimmed_start(s@.subrange(i as int, n as int)),
        decreases n - i,
    {
        assert(s@.subrange(i as int, n as int).drop_first() =~= s@.subrange(i as int + 1, n as int));
        i += 1;
    }
    assert(trimmed_start(s@) == s@.subrange(i as int, n as int));
    let mut j: usize = n;
    while j > i && is_white(chars[j - 1])
        invariant
            i <= j <= n,
            n == chars@.len(),
            chars@ == s@,
            trimmed(s@) == trimmed_end(s@.subrange(i as int, j as int)),
        decreases j,
    {
        assert(s@.subrange(i as int, j as int).drop_last() =~= s@.subrange(i as int, j - 1));
        j -= 1;
    }
    assert(trimmed(s@) == s@.subrange(i as int, j as int));
    s.substring_char(i, j)
}

/// Whether a text runs over more than one line.
pub open spec fn breaks_line(s: Seq<char>) -> bool {
    s.contains('\n') || s.contains('\r')
}

/// Whether a character occurs in a text.
pub fn has_char(s: &str, c: char) -> (r: bool)
    ensures
        r == s@.contains(c),
{
    let chars = chars_of(s);
    let mut i: usize = 0;
    while i < chars.len()
        invariant
            i <= chars@.len(),
            chars@ == s@,
            forall|k: int| 0 <= k < i ==> s@[k] != c,
        decreases chars@.len() - i,
    {
        if chars[i] == c {
            assert(s@[i as int] == c);
            return true;
        }
        i += 1;
    }
    false
}

/// Whether a text runs over more than one line.
pub fn has_line_break(s: &str) -> (r: bool)
    ensures
        r == breaks_line(s@),
{
    has_char(s, '\n') || has_char(s, '\r')
}

/// Texts put one after another.
pub open spec fn joined(parts: Seq<Seq<char>>, separator: Seq<char>) -> Seq<char>
    decreases parts.len(),
{
    if parts.len() == 0 {
        Seq::empty()
    } else if parts.len() == 1 {
        parts[0]
    } else {
        joined(parts.drop_last(), separator) + separator + parts.last()
    }
}

/// The views of a list of strings.
pub open spec fn texts(v: Seq<String>) -> Seq<Seq<char>> {
    Seq::new(v.len(), |i: int| v[i]@)
}

/// Puts strings one after another, a separator between each two.
pub fn join(parts: &Vec<String>, separator: &str) -> (r: String)
    ensures
        r@ == joined(texts(parts@), separator@),
{
    let mut out = String::new();
    let mut i: usize = 0;
    while i < parts.len()
        invariant
            i <= parts@.len(),
            out@ == joined(texts(parts@).take(i as int), separator@),
        decreases parts@.len() - i,
    {
        proof {
            let s = texts(parts@).take(i as int + 1);
            assert(s.drop_last() =~= texts(parts@).take(i as int));
            if i == 0 {
                assert(s.len() == 1);
            }
        }
        if i > 0 {
            out.append(separator);
        }
        out.append(parts[i].as_str());
        i += 1;
        assert(out@ =~= joined(texts(parts@).take(i as int), separator@));
    }
    assert(texts(parts@).take(parts@.len() as int) =~= texts(parts@));
    out
}

/// One text directly behind another.
pub fn glue(a: &str, b: &str) -> (r: String)
    ensures
        r@ == a@ + b@,
{
    let mut out = a.to_owned();
    out.append(b);
    out
}

/// How many bytes a text takes.
pub fn byte_len(s: &str) -> (r: usize)
    ensures
        r == encode_utf8(s@).len(),
{
    s.as_bytes().len()
}

/// Whether a text holds nothing but ASCII.
pub open spec fn ascii(s: Seq<char>) -> bool {
    forall|i: int| 0 <= i < s.len() ==> (#[trigger] s[i] as u32) < 0x80
}

/// Whether a text holds nothing but ASCII.
pub fn is_ascii_text(s: &str) -> (r: bool)
    ensures
        r == ascii(s@),
{
    let chars = chars_of(s);
    let mut i: usize = 0;
    while i < chars.len()
        invariant
            i <= chars@.len(),
            chars@ == s@,
            forall|k: int| 0 <= k < i ==> (#[trigger] s@[k] as u32) < 0x80,
        decreases chars@.len() - i,
    {
        if chars[i] as u32 >= 0x80 {
            assert(s@[i as int] as u32 >= 0x80);
            return false;
        }
        i += 1;
    }
    true
}

/// A 16-bit unit as it is escaped in JSON.
pub open spec fn code_unit(n: nat) -> Seq<char> {
    seq!['\\', 'u'] + padded(numeral(n, 16), 4)
}

/// A character as it is written in ASCII within JSON: itself, or its one or two
/// UTF-16 units, escaped.
pub open spec fn escaped_char(c: char) -> Seq<char> {
    let n = c as u32;
    if n < 0x80 {
        seq![c]
    } else if n < 0x10000 {
        code_unit(n as nat)
    } else {
        code_unit((0xd800 + (n - 0x10000) / 0x400) as nat) + code_unit(
            (0xdc00 + (n - 0x10000) % 0x400) as nat,
        )
    }
}

/// A JSON text with every character outside ASCII escaped.
pub open spec fn escaped(s: Seq<char>) -> Seq<char>
    decreases s.len(),
{
    if s.len() == 0 {
        Seq::empty()
    } else {
        escaped(s.drop_last()) + escaped_char(s.last())
    }
}

/// Whether a text holds no control character below the space.
pub open spec fn no_control(s: Seq<char>) -> bool {
    forall|i: int| 0 <= i < s.len() ==> (#[trigger] s[i]) as u32 >= 0x20
}

proof fn lemma_digits_plain(n: nat)
    ensures
        ascii(numeral(n, 16)),
        no_control(numeral(n, 16)),
    decreases n,
{
    if n >= 16 {
        lemma_digits_plain(n / 16);
        assert(numeral(n, 16) == numeral(n / 16, 16).push(digit(n % 16)));
    }
}

proof fn lemma_unit_plain(n: nat)
    ensures
        ascii(code_unit(n)),
        no_control(code_unit(n)),
{
    lemma_digits_plain(n);
    let digits = padded(numeral(n, 16), 4);
    assert forall|i: int| 0 <= i < digits.len() implies 0x20 <= (#[trigger] digits[i]) as u32
        && (digits[i] as u32) < 0x80 by {
        if digits.len() > numeral(n, 16).len() {
            let zeros = digits.len() - numeral(n, 16).len();
            if i >= zeros {
                assert(digits[i] == numeral(n, 16)[i - zeros]);
            }
        } else {
            assert(digits[i] == numeral(n, 16)[i]);
        }
    }
    assert forall|i: int| 0 <= i < code_unit(n).len() implies 0x20 <= (#[trigger] code_unit(n)[i])
        as u32 && (code_unit(n)[i] as u32) < 0x80 by {
        if i >= 2 {
            assert(code_unit(n)[i] == digits[i - 2]);
        }
    }
}

fn write_unit(n: u32) -> (r: String)
    ensures
        r@ == code_unit(n as nat),
{
    let mut out = String::new();
    out.push('\\');
    out.push('u');
    out.append(write_hex(n as u64, 4).as_str());
    assert(out@ =~= code_unit(n as nat));
    out
}

fn escape_char(c: char) -> (r: String)
    ensures
        r@ == escaped_char(c),
        ascii(r@),
        c as u32 >= 0x20 ==> no_control(r@),
        r@.len() > 0,
{
    let n = c as u32;
    if n < 0x80 {
        let mut out = String::new();
        out.push(c);
        assert(out@ =~= seq![c]);
        return out;
    }
    if n < 0x10000 {
        proof {
            lemma_unit_plain(n as nat);
        }
        return write_unit(n);
    }
    let high: u32 = 0xd800 + (n - 0x10000) / 0x400;
    let low: u32 = 0xdc00 + (n - 0x10000) % 0x400;
    proof {
        lemma_unit_plain(high as nat);
        lemma_unit_plain(low as nat);
    }
    glue(write_unit(high).as_str(), write_unit(low).as_str())
}

/// Escapes every character outside ASCII in a JSON text.
pub fn escape_text(s: &str) -> (r: String)
    ensures
        r@ == escaped(s@),
        ascii(r@),
        no_control(s@) ==> no_control(r@),
        s@.len() > 0 ==> r@.len() > 0,
{
    let chars = chars_of(s);
    let mut out = String::new();
    let mut i: usize = 0;
    assert(s@.take(0) =~= Seq::empty());
    assert(out@ =~= Seq::empty());
    while i < chars.len()
        invariant
            i <= chars@.len(),
            chars@ == s@,
            out@ == escaped(s@.take(i as int)),
            ascii(out@),
            no_control(s@) ==> no_control(out@),
            i > 0 ==> out@.len() > 0,
        decreases chars@.len() - i,
    {
        assert(s@.take(i as int + 1).drop_last() =~= s@.take(i as int));
        assert(s@.take(i as int + 1).last() == s@[i as int]);
        out.append(escape_char(chars[i]).as_str());
        i += 1;
    }
    assert(s@.take(i as int) =~= s@);
    out
}

/// The beginning of a text, with a question mark for what is not ASCII.
pub open spec fn ascii_head(s: Seq<char>, length: nat) -> Seq<char> {
    Seq::new(
        if s.len() <= length {
            s.len()
        } else {
            length
        },
        |i: int|
            if (s[i] as u32) < 0x80 {
                s[i]
            } else {
                '?'
            },
    )
}

/// The beginning of a text, with a question mark for what is not ASCII.
pub fn ascii_label(s: &str, length: usize) -> (r: String)
    ensures
        r@ == ascii_head(s@, length as nat),
        ascii(r@),
        r@.len() <= length,
{
    let chars = chars_of(s);
    let mut out = String::new();
    let mut i: usize = 0;
    while i < chars.len() && i < length
        invariant
            i <= chars@.len(),
            i <= length,
            chars@ == s@,
            out@.len() == i,
            forall|k: int| 0 <= k < i ==> #[trigger] out@[k] == ascii_head(s@, length as nat)[k],
        decreases chars@.len() - i,
    {
        if (chars[i] as u32) < 0x80 {
            out.push(chars[i]);
        } else {
            out.push('?');
        }
        i += 1;
    }
    assert(out@ =~= ascii_head(s@, length as nat));
    assert forall|k: int| 0 <= k < out@.len() implies (#[trigger] out@[k] as u32) < 0x80 by {
        assert(out@[k] == ascii_head(s@, length as nat)[k]);
    }
    out
}

/// The characters up to the first white space.
pub open spec fn until_white(s: Seq<char>) -> Seq<char>
    decreases s.len(),
{
    if s.len() == 0 || white(s[0]) {
        Seq::empty()
    } else {
        seq![s[0]] + until_white(s.drop_first())
    }
}

/// The first word of a text, empty where there is none.
pub open spec fn first_word_of(s: Seq<char>) -> Seq<char> {
    until_white(trimmed_start(s))
}

/// The first word of a text, empty where there is none.
pub fn first_word(s: &str) -> (r: &str)
    ensures
        r@ == first_word_of(s@),
{
    let chars = chars_of(s);
    let n = chars.len();
    let mut i: usize = 0;
    assert(s@.skip(0) =~= s@);
    while i < n && is_white(chars[i])
        invariant
            i <= n,
            n == chars@.len(),
            chars@ == s@,
            trimmed_start(s@) == trimmed_start(s@.skip(i as int)),
        decreases n - i,
    {
        assert(s@.skip(i as int).drop_first() =~= s@.skip(i as int + 1));
        i += 1;
    }
    let mut j: usize = i;
    assert(s@.subrange(i as int, i as int) =~= Seq::empty());
    while j < n && !is_white(chars[j])
        invariant
            i <= j <= n,
            n == chars@.len(),
            chars@ == s@,
            first_word_of(s@) == s@.subrange(i as int, j as int) + until_white(s@.skip(j as int)),
        decreases n - j,
    {
        proof {
            let rest = s@.skip(j as int);
            assert(rest.drop_first() =~= s@.skip(j as int + 1));
            assert(s@.subrange(i as int, j as int) + (seq![rest[0]] + until_white(
                rest.drop_first(),
            )) =~= s@.subrange(i as int, j as int + 1) + until_white(rest.drop_first()));
        }
        j += 1;
    }
    assert(until_white(s@.skip(j as int)) =~= Seq::empty());
    assert(s@.subrange(i as int, j as int) + Seq::<char>::empty() =~= s@.subrange(
        i as int,
        j as int,
    ));
    s.substring_char(i, j)
}

/// The words of a text.
pub open spec fn words(s: Seq<char>) -> Seq<Seq<char>>
    decreases s.len(),
{
    let t = trimmed_start(s);
    if t.len() == 0 {
        Seq::empty()
    } else {
        proof {
            lemma_trim_start_shorter(s);
            lemma_until_white(t);
        }
        seq![until_white(t)] + words(t.skip(until_white(t).len() as int))
    }
}

pub proof fn lemma_trim_start_shorter(s: Seq<char>)
    ensures
        trimmed_start(s).len() <= s.len(),
        trimmed_start(s).len() > 0 ==> !white(trimmed_start(s)[0]),
        trimmed_start(s) == s.skip(s.len() - trimmed_start(s).len()),
    decreases s.len(),
{
    if s.len() > 0 && white(s[0]) {
        lemma_trim_start_shorter(s.drop_first());
        assert(s.drop_first().skip(s.len() - 1 - trimmed_start(s).len()) =~= s.skip(
            s.len() - trimmed_start(s).len(),
        ));
    } else {
        assert(s.skip(0) =~= s);
    }
}

pub proof fn lemma_until_white(s: Seq<char>)
    ensures
        until_white(s).len() <= s.len(),
        until_white(s) == s.take(until_white(s).len() as int),
        s.len() > 0 && !white(s[0]) ==> until_white(s).len() > 0,
    decreases s.len(),
{
    if s.len() > 0 && !white(s[0]) {
        lemma_until_white(s.drop_first());
        assert(until_white(s) =~= s.take(until_white(s).len() as int));
    } else {
        assert(until_white(s) =~= s.take(0));
    }
}

/// The words of a text, with one space between each two.
pub open spec fn spaced(s: Seq<char>) -> Seq<char> {
    joined(words(s), " "@)
}

/// The words of a text.
pub fn split_words(s: &str) -> (r: Vec<String>)
    ensures
        texts(r@) == words(s@),
{
    let chars = chars_of(s);
    let n = chars.len();
    let mut out: Vec<String> = Vec::new();
    let mut i: usize = 0;
    assert(s@.skip(0) =~= s@);
    assert(texts(out@) + words(s@) =~= words(s@));
    loop
        invariant
            i <= n,
            n == chars@.len(),
            chars@ == s@,
            texts(out@) + words(s@.skip(i as int)) == words(s@),
        decreases n - i,
    {
        let ghost rest = s@.skip(i as int);
        let ghost t = trimmed_start(rest);
        let mut j: usize = i;
        while j < n && is_white(chars[j])
            invariant
                i <= j <= n,
                n == chars@.len(),
                chars@ == s@,
                t == trimmed_start(s@.skip(j as int)),
            decreases n - j,
        {
            assert(s@.skip(j as int).drop_first() =~= s@.skip(j as int + 1));
            j += 1;
        }
        assert(t == s@.skip(j as int));
        if j == n {
            assert(words(rest) =~= Seq::empty());
            assert(texts(out@) + words(rest) =~= texts(out@));
            return out;
        }
        let mut k: usize = j;
        assert(s@.subrange(j as int, j as int) =~= Seq::empty());
        while k < n && !is_white(chars[k])
            invariant
                j <= k <= n,
                n == chars@.len(),
                chars@ == s@,
                t == s@.skip(j as int),
                until_white(t) == s@.subrange(j as int, k as int) + until_white(s@.skip(k as int)),
            decreases n - k,
        {
            proof {
                let after = s@.skip(k as int);
                assert(after.drop_first() =~= s@.skip(k as int + 1));
                assert(s@.subrange(j as int, k as int) + (seq![after[0]] + until_white(
                    after.drop_first(),
                )) =~= s@.subrange(j as int, k as int + 1) + until_white(after.drop_first()));
            }
            k += 1;
        }
        proof {
            assert(until_white(s@.skip(k as int)) =~= Seq::empty());
            assert(until_white(t) =~= s@.subrange(j as int, k as int));
            lemma_trim_start_shorter(rest);
            lemma_until_white(t);
            assert(t.skip(until_white(t).len() as int) =~= s@.skip(k as int));
        }
        let word = s.substring_char(j, k).to_owned();
        let ghost before = texts(out@);
        out.push(word);
        proof {
            assert(texts(out@) =~= before.push(word@));
            assert(before + (seq![until_white(t)] + words(s@.skip(k as int))) =~= before.push(
                until_white(t),
            ) + words(s@.skip(k as int)));
        }
        i = k;
    }
}

/// The words of a text, with one space between each two.
pub fn space_words(s: &str) -> (r: String)
    ensures
        r@ == spaced(s@),
{
    let list = split_words(s);
    join(&list, " ")
}

/// A text with every `c` replaced.
pub open spec fn with_replaced(s: Seq<char>, c: char, by: Seq<char>) -> Seq<char>
    decreases s.len(),
{
    if s.len() == 0 {
        Seq::empty()
    } else {
        with_replaced(s.drop_last(), c, by) + if s.last() == c {
            by
        } else {
            seq![s.last()]
        }
    }
}

/// The text with every `c` replaced.
pub fn replace_char(s: &str, c: char, by: &str) -> (r: String)
    ensures
        r@ == with_replaced(s@, c, by@),
{
    let chars = chars_of(s);
    let mut out = String::new();
    let mut i: usize = 0;
    assert(s@.take(0) =~= Seq::empty());
    while i < chars.len()
        invariant
            i <= chars@.len(),
            chars@ == s@,
            out@ == with_replaced(s@.take(i as int), c, by@),
        decreases chars@.len() - i,
    {
        proof {
            assert(s@.take(i as int + 1).drop_last() =~= s@.take(i as int));
        }
        let ghost before = out@;
        if chars[i] == c {
            out.append(by);
        } else {
            out.push(chars[i]);
            assert(out@ =~= before + seq![s@[i as int]]);
        }
        i += 1;
    }
    assert(s@.take(s@.len() as int) =~= s@);
    out
}

/// Whether a text is nothing but decimal digits, at least one.
pub open spec fn all_digits(s: Seq<char>) -> bool {
    s.len() > 0 && forall|i: int| 0 <= i < s.len() ==> '0' <= #[trigger] s[i] <= '9'
}

/// The number that decimal digits write.
pub open spec fn digits_value(s: Seq<char>) -> int
    decreases s.len(),
{
    if s.len() == 0 {
        0
    } else {
        digits_value(s.drop_last()) * 10 + (s.last() as int - '0' as int)
    }
}

/// The digits of a number behind its sign.
pub open spec fn unsigned(s: Seq<char>) -> Seq<char> {
    if s.len() > 0 && (s[0] == '-' || s[0] == '+') {
        s.drop_first()
    } else {
        s
    }
}

/// The number that a text is: an optional sign and digits, in the range of 64 bits.
pub open spec fn integer_of(s: Seq<char>) -> Option<i64> {
    let digits = unsigned(s);
    let value = if s.len() > 0 && s[0] == '-' {
        -digits_value(digits)
    } else {
        digits_value(digits)
    };
    if all_digits(digits) && i64::MIN <= value <= i64::MAX {
        Some(value as i64)
    } else {
        None
    }
}

proof fn lemma_digits_grow(s: Seq<char>, n: int)
    requires
        0 <= n <= s.len(),
        forall|i: int| 0 <= i < s.len() ==> '0' <= #[trigger] s[i] <= '9',
    ensures
        0 <= digits_value(s.take(n)) <= digits_value(s),
    decreases s.len() - n,
{
    if n < s.len() {
        lemma_digits_grow(s, n + 1);
        assert(s.take(n + 1).drop_last() =~= s.take(n));
        lemma_digits_positive(s.take(n));
    } else {
        assert(s.take(n) =~= s);
        lemma_digits_positive(s);
    }
}

proof fn lemma_digits_positive(s: Seq<char>)
    requires
        forall|i: int| 0 <= i < s.len() ==> '0' <= #[trigger] s[i] <= '9',
    ensures
        0 <= digits_value(s),
    decreases s.len(),
{
    if s.len() > 0 {
        lemma_digits_positive(s.drop_last());
    }
}

/// Reads a number: an optional sign and digits, in the range of 64 bits.
pub fn parse_integer(s: &str) -> (r: Option<i64>)
    ensures
        r == integer_of(s@),
{
    let chars = chars_of(s);
    let n = chars.len();
    let start: usize = if n > 0 && (chars[0] == '-' || chars[0] == '+') {
        1
    } else {
        0
    };
    let ghost digits = unsigned(s@);
    assert(digits =~= s@.skip(start as int));
    if start == n {
        return None;
    }
    let mut k: usize = start;
    while k < n
        invariant
            start <= k <= n,
            n == chars@.len(),
            chars@ == s@,
            digits == s@.skip(start as int),
            digits == unsigned(s@),
            forall|i: int| 0 <= i < k - start ==> '0' <= #[trigger] digits[i] <= '9',
        decreases n - k,
    {
        if !('0' <= chars[k] && chars[k] <= '9') {
            assert(digits[k - start] == s@[k as int]);
            return None;
        }
        k += 1;
    }
    let mut value: i128 = 0;
    let mut i: usize = start;
    assert(digits.take(0) =~= Seq::empty());
    while i < n
        invariant
            start <= i <= n,
            n == chars@.len(),
            chars@ == s@,
            digits == s@.skip(start as int),
            digits == unsigned(s@),
            all_digits(digits),
            value == digits_value(digits.take(i - start)),
            0 <= value <= 0x1_0000_0000_0000_0000,
        decreases n - i,
    {
        proof {
            assert(digits.take(i - start + 1).drop_last() =~= digits.take(i - start));
            assert(digits[i - start] == s@[i as int]);
            lemma_digits_grow(digits, i - start + 1);
        }
        value = value * 10 + (chars[i] as u32 - 48) as i128;
        if value > 0x1_0000_0000_0000_0000 {
            return None;
        }
        i += 1;
    }
    assert(digits.take(digits.len() as int) =~= digits);
    let signed: i128 = if chars[0] == '-' {
        -value
    } else {
        value
    };
    if -0x8000_0000_0000_0000 <= signed && signed <= 0x7fff_ffff_ffff_ffff {
        Some(signed as i64)
    } else {
        None
    }
}

/// Whether a text is made of the digits of hexadecimal numbers.
pub open spec fn hexadecimal(s: Seq<char>) -> bool {
    forall|i: int| 0 <= i < s.len() ==> hex_digit(#[trigger] s[i])
}

/// A digit of a hexadecimal number.
pub open spec fn hex_digit(c: char) -> bool {
    '0' <= c <= '9' || 'a' <= c <= 'f' || 'A' <= c <= 'F'
}

/// Whether a text is eight digits of a hexadecimal number.
pub fn is_short_sum(id: &str) -> (r: bool)
    ensures
        r == (id@.len() == 8 && hexadecimal(id@)),
{
    let chars = chars_of(id);
    if chars.len() != 8 {
        return false;
    }
    let mut i: usize = 0;
    while i < chars.len()
        invariant
            i <= chars@.len(),
            chars@ == id@,
            forall|k: int| 0 <= k < i ==> hex_digit(#[trigger] chars@[k]),
        decreases chars@.len() - i,
    {
        let c = chars[i];
        if !(('0' <= c && c <= '9') || ('a' <= c && c <= 'f') || ('A' <= c && c <= 'F')) {
            return false;
        }
        i += 1;
    }
    true
}

proof fn lemma_digit_is_hex(d: nat)
    requires
        d < 16,
    ensures
        hex_digit(digit(d)),
        d < 10 ==> '0' <= digit(d) <= '9' && digit(d) as int - '0' as int == d,
{
}

/// A number in decimal is made of digits, and reads as the number again.
pub proof fn law_decimal_reads_back(n: nat)
    ensures
        all_digits(decimal(n)),
        digits_value(decimal(n)) == n,
    decreases n,
{
    let s = decimal(n);
    if n < 10 {
        assert(s =~= seq![digit(n)]);
        assert(s.drop_last() =~= Seq::empty());
        assert(digits_value(s.drop_last()) == 0);
        lemma_digit_is_hex(n);
    } else {
        law_decimal_reads_back(n / 10);
        let head = decimal(n / 10);
        assert(s == head.push(digit(n % 10)));
        assert(s.drop_last() =~= head);
        assert(s.last() == digit(n % 10));
        assert(digits_value(s) == digits_value(head) * 10 + (s.last() as int - '0' as int));
        lemma_digit_is_hex(n % 10);
        assert forall|i: int| 0 <= i < s.len() implies '0' <= #[trigger] s[i] <= '9' by {
            if i < head.len() {
                assert(s[i] == head[i]);
            }
        }
    }
}

/// A number below a power of sixteen has no more hexadecimal digits than that
/// power, and at least one.
pub proof fn law_hexadecimal_width(n: nat, width: nat)
    requires
        width >= 1,
        n < vstd::arithmetic::power::pow(16, width),
    ensures
        1 <= numeral(n, 16).len() <= width,
        hexadecimal(numeral(n, 16)),
    decreases width,
{
    let s = numeral(n, 16);
    if n < 16 {
        assert(s =~= seq![digit(n)]);
        lemma_digit_is_hex(n);
    } else {
        if width == 1 {
            assert(vstd::arithmetic::power::pow(16, 1) == 16) by {
                reveal_with_fuel(vstd::arithmetic::power::pow, 3);
            }
        }
        let less = (width - 1) as nat;
        assert(vstd::arithmetic::power::pow(16, width) == 16 * vstd::arithmetic::power::pow(
            16,
            less,
        )) by {
            reveal(vstd::arithmetic::power::pow);
        }
        law_hexadecimal_width(n / 16, less);
        let head = numeral(n / 16, 16);
        assert(s == head.push(digit(n % 16)));
        lemma_digit_is_hex(n % 16);
        assert forall|i: int| 0 <= i < s.len() implies hex_digit(#[trigger] s[i]) by {
            if i < head.len() {
                assert(s[i] == head[i]);
            }
        }
    }
}

/// A text without the white space around it: what was taken away is white space on
/// either side, and what is left neither begins nor ends with any.
pub proof fn law_white_space_around_is_taken_away(s: Seq<char>)
    ensures
        exists|a: Seq<char>, b: Seq<char>|
            {
                &&& s == #[trigger] (a + trimmed(s) + b)
                &&& forall|i: int| 0 <= i < a.len() ==> white(#[trigger] a[i])
                &&& forall|i: int| 0 <= i < b.len() ==> white(#[trigger] b[i])
            },
        trimmed(s).len() > 0 ==> !white(trimmed(s)[0]) && !white(trimmed(s).last()),
{
    let t = trimmed_start(s);
    let a = lemma_start_taken(s);
    let b = lemma_end_taken(t);
    assert(s =~= a + trimmed(s) + b);
    if trimmed(s).len() > 0 {
        assert(trimmed(s)[0] == t[0]);
    }
}

proof fn lemma_start_taken(s: Seq<char>) -> (a: Seq<char>)
    ensures
        s == a + trimmed_start(s),
        forall|i: int| 0 <= i < a.len() ==> white(#[trigger] a[i]),
        trimmed_start(s).len() > 0 ==> !white(trimmed_start(s)[0]),
    decreases s.len(),
{
    if s.len() > 0 && white(s[0]) {
        let rest = lemma_start_taken(s.drop_first());
        let a = seq![s[0]] + rest;
        assert(s =~= seq![s[0]] + s.drop_first());
        assert(seq![s[0]] + (rest + trimmed_start(s)) =~= a + trimmed_start(s));
        a
    } else {
        assert(s =~= Seq::<char>::empty() + s);
        Seq::empty()
    }
}

proof fn lemma_end_taken(s: Seq<char>) -> (b: Seq<char>)
    ensures
        s == trimmed_end(s) + b,
        forall|i: int| 0 <= i < b.len() ==> white(#[trigger] b[i]),
        trimmed_end(s).len() > 0 ==> !white(trimmed_end(s).last()),
    decreases s.len(),
{
    if s.len() > 0 && white(s.last()) {
        let rest = lemma_end_taken(s.drop_last());
        let b = rest.push(s.last());
        assert(s =~= s.drop_last().push(s.last()));
        assert((trimmed_end(s) + rest).push(s.last()) =~= trimmed_end(s) + b);
        b
    } else {
        assert(s =~= s + Seq::<char>::empty());
        Seq::empty()
    }
}

/// Zeros in front of a number change neither that it is one nor what it is.
pub proof fn law_padding_keeps_the_number(n: nat, width: nat)
    ensures
        all_digits(padded(decimal(n), width)),
        digits_value(padded(decimal(n), width)) == n,
        padded(decimal(n), width).len() >= width,
        padded(decimal(n), width).len() == if decimal(n).len() >= width {
            decimal(n).len()
        } else {
            width
        },
{
    law_decimal_reads_back(n);
    let s = decimal(n);
    if s.len() < width {
        let zeros = Seq::new((width - s.len()) as nat, |i: int| '0');
        lemma_zeros_in_front(zeros, s);
        assert forall|i: int| 0 <= i < padded(s, width).len() implies '0' <= #[trigger] padded(
            s,
            width,
        )[i] <= '9' by {
            if i >= zeros.len() {
                assert(padded(s, width)[i] == s[i - zeros.len()]);
            }
        }
    }
}

proof fn lemma_zeros_in_front(zeros: Seq<char>, s: Seq<char>)
    requires
        forall|i: int| 0 <= i < zeros.len() ==> #[trigger] zeros[i] == '0',
    ensures
        digits_value(zeros + s) == digits_value(s),
    decreases zeros.len() + s.len(),
{
    if s.len() > 0 {
        lemma_zeros_in_front(zeros, s.drop_last());
        assert((zeros + s).drop_last() =~= zeros + s.drop_last());
    } else if zeros.len() > 0 {
        lemma_zeros_in_front(zeros.drop_last(), s);
        assert(zeros + s =~= zeros);
        assert(zeros.drop_last() + s =~= zeros.drop_last());
    } else {
        assert(zeros + s =~= s);
    }
}

/// Replacing a character works through a text from front to back: each one is replaced
/// by itself, and the others stay.
pub proof fn law_replacing_goes_letter_by_letter(a: Seq<char>, b: Seq<char>, c: char, by: Seq<char>)
    ensures
        with_replaced(a + b, c, by) == with_replaced(a, c, by) + with_replaced(b, c, by),
        with_replaced(seq![c], c, by) == by,
        forall|x: char| x != c ==> #[trigger] with_replaced(seq![x], c, by) == seq![x],
    decreases b.len(),
{
    assert forall|x: char| #![trigger with_replaced(seq![x], c, by)] true implies with_replaced(
        seq![x],
        c,
        by,
    ) == if x == c {
        by
    } else {
        seq![x]
    } by {
        let s = seq![x];
        assert(with_replaced(s.drop_last(), c, by) =~= Seq::empty());
        assert(s.last() == x);
        assert(with_replaced(s, c, by) =~= if x == c {
            by
        } else {
            seq![x]
        });
    }
    assert(with_replaced(seq![c], c, by) == by);
    if b.len() > 0 {
        law_replacing_goes_letter_by_letter(a, b.drop_last(), c, by);
        assert((a + b).drop_last() =~= a + b.drop_last());
        assert((a + b).last() == b.last());
        assert(with_replaced(a + b, c, by) =~= with_replaced(a, c, by) + with_replaced(b, c, by));
    } else {
        assert(a + b =~= a);
        assert(with_replaced(a, c, by) =~= with_replaced(a, c, by) + with_replaced(b, c, by));
    }
}

/// The characters of a text that are no white space, in order.
pub open spec fn blackened(s: Seq<char>) -> Seq<char>
    decreases s.len(),
{
    if s.len() == 0 {
        Seq::empty()
    } else if white(s[0]) {
        blackened(s.drop_first())
    } else {
        seq![s[0]] + blackened(s.drop_first())
    }
}

/// Words run together.
pub open spec fn run_together(words: Seq<Seq<char>>) -> Seq<char>
    decreases words.len(),
{
    if words.len() == 0 {
        Seq::empty()
    } else {
        words[0] + run_together(words.drop_first())
    }
}

proof fn lemma_start_black(s: Seq<char>)
    ensures
        blackened(trimmed_start(s)) == blackened(s),
    decreases s.len(),
{
    if s.len() > 0 && white(s[0]) {
        lemma_start_black(s.drop_first());
    }
}

proof fn lemma_word_black(s: Seq<char>)
    ensures
        until_white(s).len() <= s.len(),
        blackened(s) == until_white(s) + blackened(s.skip(until_white(s).len() as int)),
        forall|i: int| 0 <= i < until_white(s).len() ==> !white(#[trigger] until_white(s)[i]),
    decreases s.len(),
{
    if s.len() > 0 && !white(s[0]) {
        lemma_word_black(s.drop_first());
        let w = until_white(s);
        let v = until_white(s.drop_first());
        assert(s.skip(w.len() as int) =~= s.drop_first().skip(v.len() as int));
        assert(blackened(s) =~= w + blackened(s.skip(w.len() as int)));
    } else {
        assert(s.skip(0) =~= s);
        assert(blackened(s) =~= until_white(s) + blackened(s.skip(0)));
    }
}

/// The words of a text are all of it but the white space, in order; no word is empty,
/// and none has white space in it.
pub proof fn law_words_are_what_is_not_white(s: Seq<char>)
    ensures
        run_together(words(s)) == blackened(s),
        forall|i: int|
            #![trigger words(s)[i]]
            0 <= i < words(s).len() ==> words(s)[i].len() > 0 && forall|k: int|
                0 <= k < words(s)[i].len() ==> !white(#[trigger] words(s)[i][k]),
    decreases s.len(),
{
    let t = trimmed_start(s);
    lemma_start_black(s);
    if t.len() > 0 {
        lemma_trim_start_shorter(s);
        lemma_until_white(t);
        lemma_word_black(t);
        let first = until_white(t);
        let rest = t.skip(first.len() as int);
        law_words_are_what_is_not_white(rest);
        assert(words(s) == seq![first] + words(rest));
        assert(words(s).drop_first() =~= words(rest));
        assert(words(s)[0] == first);
        assert forall|i: int| #![trigger words(s)[i]] 0 <= i < words(s).len() implies words(
            s,
        )[i].len() > 0 && forall|k: int|
            0 <= k < words(s)[i].len() ==> !white(#[trigger] words(s)[i][k]) by {
            if i > 0 {
                assert(words(s)[i] == words(rest)[i - 1]);
            }
        }
    } else {
        assert(blackened(t) =~= Seq::empty());
    }
}

/// A label in ASCII is the beginning of the text, as far as there is room, with a
/// question mark for each character that is none.
pub proof fn law_label_is_the_beginning(s: Seq<char>, length: nat, i: int)
    requires
        0 <= i < s.len(),
        i < length,
    ensures
        ascii_head(s, length).len() == if s.len() < length {
            s.len()
        } else {
            length
        },
        (s[i] as u32) < 128 ==> ascii_head(s, length)[i] == s[i],
        (s[i] as u32) >= 128 ==> ascii_head(s, length)[i] == '?',
{
}

/// Escaping goes character by character, and what is ASCII already stays as it is.
pub proof fn law_escaping_goes_letter_by_letter(a: Seq<char>, b: Seq<char>)
    ensures
        escaped(a + b) == escaped(a) + escaped(b),
        ascii(a) ==> escaped(a) == a,
    decreases a.len() + b.len(),
{
    if b.len() > 0 {
        law_escaping_goes_letter_by_letter(a, b.drop_last());
        assert((a + b).drop_last() =~= a + b.drop_last());
        assert((a + b).last() == b.last());
        assert(escaped(a + b) =~= escaped(a) + escaped(b));
    } else {
        assert(a + b =~= a);
        assert(escaped(a) =~= escaped(a) + escaped(b));
        if a.len() > 0 && ascii(a) {
            let front = a.drop_last();
            assert forall|i: int| 0 <= i < front.len() implies (#[trigger] front[i] as u32) < 0x80 by {
                assert(front[i] == a[i]);
            }
            law_escaping_goes_letter_by_letter(front, b);
            assert((a[a.len() - 1] as u32) < 0x80);
            assert(a =~= front + seq![a.last()]);
        }
    }
}

/// An integer is read with or without a sign, where it is digits and fits.
pub proof fn law_integers_are_read(n: i64)
    ensures
        n >= 0 ==> integer_of(decimal(n as nat)) == Some(n),
        n >= 0 ==> integer_of("+"@ + decimal(n as nat)) == Some(n),
        n < 0 ==> integer_of("-"@ + decimal((-n) as nat)) == Some(n),
        integer_of(Seq::empty()) is None,
{
    reveal_strlit("+");
    reveal_strlit("-");
    let m = if n >= 0 {
        n as nat
    } else {
        (-n) as nat
    };
    let d = decimal(m);
    law_decimal_reads_back(m);
    assert(("+"@ + d).drop_first() =~= d);
    assert(("-"@ + d).drop_first() =~= d);
    assert(d[0] != '-' && d[0] != '+');
}

} // verus!
