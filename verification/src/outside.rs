//! Everything that is believed of other crates and of `std` without proof.

use serde::de::Unexpected;
use vstd::prelude::*;
use vstd::utf8::{decode_utf8, encode_utf8, valid_utf8};

use crate::codes::{b64_encoded, crc32_of};
use crate::dates::{day_exists, day_text, moment_exists, moment_text, weekday_of};
use crate::json::{fraction_text, i64_of, number_view, readable, u64_of, JsonView};
use crate::text::{escaped, hexadecimal, texts};
use crate::typed::{fits, Plain};

verus! {

/// `serde_json::Number`, carried through as it is.
#[verifier::external_type_specification]
#[verifier::external_body]
pub struct ExNumber(serde_json::Number);

/// `serde_json::Value`, read and built one node at a time.
#[verifier::external_type_specification]
#[verifier::external_body]
pub struct ExValue(serde_json::Value);

/// What a `serde_json::Value` holds.
pub uninterp spec fn value_model(v: serde_json::Value) -> JsonView;

/// The integer that a `serde_json::Number` is, where it is one.
pub uninterp spec fn number_int(n: serde_json::Number) -> Option<int>;

/// Whether `serde_json` takes two numbers for equal.
pub uninterp spec fn same_number(a: serde_json::Number, b: serde_json::Number) -> bool;

/// `Number::as_u64`: the integer, where the number is one from 0 to `u64::MAX`.
pub assume_specification[ serde_json::Number::as_u64 ](n: &serde_json::Number) -> (r: Option<u64>)
    ensures
        r == u64_of(Some(number_view(*n))),
;

/// `Number::as_i64`: the integer, where the number is one in the range of `i64`.
pub assume_specification[ serde_json::Number::as_i64 ](n: &serde_json::Number) -> (r: Option<i64>)
    ensures
        r == i64_of(Some(number_view(*n))),
;

/// `Number::clone`: the same number.
pub assume_specification[ <serde_json::Number as Clone>::clone ](
    n: &serde_json::Number,
) -> (r: serde_json::Number)
    ensures
        r == *n,
;

/// `Number::eq`: integers are equal by value, an integer is never equal to a
/// number that is not one, and of two others the comparison itself decides.
#[verifier::external_body]
pub(crate) fn numbers_equal(a: &serde_json::Number, b: &serde_json::Number) -> (r: bool)
    ensures
        r == match (number_int(*a), number_int(*b)) {
            (Some(x), Some(y)) => x == y,
            (None, None) => same_number(*a, *b),
            _ => false,
        },
{
    a == b
}

/// One level of a `serde_json::Value`: its variant with the fields moved out.
pub enum Node {
    Null,
    Bool(bool),
    Number(serde_json::Number),
    Str(String),
    Array(Vec<serde_json::Value>),
    Object(Vec<(String, serde_json::Value)>),
}

/// The map that the members of a node stand for.
pub open spec fn node_members(s: Seq<(String, serde_json::Value)>) -> Map<Seq<char>, JsonView>
    decreases s.len(),
{
    if s.len() == 0 {
        Map::empty()
    } else {
        node_members(s.drop_first()).insert(s[0].0@, value_model(s[0].1))
    }
}

/// No two members have the same key.
pub open spec fn distinct(s: Seq<(String, serde_json::Value)>) -> bool {
    forall|i: int, j: int| 0 <= i < j < s.len() ==> (#[trigger] s[i]).0@ != (#[trigger] s[j]).0@
}

impl Node {
    /// What a node stands for, its children by their models.
    pub open spec fn model(self) -> JsonView {
        match self {
            Node::Null => JsonView::Null,
            Node::Bool(b) => JsonView::Bool(b),
            Node::Number(n) => number_view(n),
            Node::Str(s) => JsonView::Str(s@),
            Node::Array(v) => JsonView::Array(Seq::new(v@.len(), |i: int| value_model(v@[i]))),
            Node::Object(v) => JsonView::Object(node_members(v@)),
        }
    }

    /// No key of an object occurs twice.
    pub open spec fn keys_distinct(self) -> bool {
        match self {
            Node::Object(v) => distinct(v@),
            _ => true,
        }
    }
}

/// Takes a `serde_json::Value` apart, one level deep.
///
/// Believed: the node has the variant of the value and holds its fields, the
/// members of an object as the pairs that `Map::into_iter` gives, each key once.
#[verifier::external_body]
pub(crate) fn split_value(v: serde_json::Value) -> (node: Node)
    ensures
        node.model() == value_model(v),
        node.keys_distinct(),
{
    match v {
        serde_json::Value::Null => Node::Null,
        serde_json::Value::Bool(b) => Node::Bool(b),
        serde_json::Value::Number(n) => Node::Number(n),
        serde_json::Value::String(s) => Node::Str(s),
        serde_json::Value::Array(a) => Node::Array(a),
        serde_json::Value::Object(m) => Node::Object(m.into_iter().collect()),
    }
}

/// Builds a `serde_json::Value` out of one level and finished children.
///
/// Believed: the value has the variant of the node and holds its fields, the
/// members of an object collected into a `serde_json::Map`.
#[verifier::external_body]
pub(crate) fn join_value(node: Node) -> (v: serde_json::Value)
    requires
        node.keys_distinct(),
    ensures
        value_model(v) == node.model(),
{
    match node {
        Node::Null => serde_json::Value::Null,
        Node::Bool(b) => serde_json::Value::Bool(b),
        Node::Number(n) => serde_json::Value::Number(n),
        Node::Str(s) => serde_json::Value::String(s),
        Node::Array(a) => serde_json::Value::Array(a),
        Node::Object(m) => serde_json::Value::Object(m.into_iter().collect()),
    }
}

/// `Number::from::<u64>`: the number of that integer.
#[verifier::external_body]
pub(crate) fn number_from_u64(n: u64) -> (r: serde_json::Number)
    ensures
        number_int(r) == Some(n as int),
{
    serde_json::Number::from(n)
}

/// `Number::from::<i64>`: the number of that integer.
#[verifier::external_body]
pub(crate) fn number_from_i64(n: i64) -> (r: serde_json::Number)
    ensures
        number_int(r) == Some(n as int),
{
    serde_json::Number::from(n)
}

/// What `serde_json` reads out of bytes: the value, or what is wrong with them.
pub uninterp spec fn json_read(bytes: Seq<u8>) -> Result<JsonView, Seq<char>>;

/// The compact text that `serde_json` writes for a value.
pub uninterp spec fn json_text(v: JsonView) -> Seq<char>;

/// `serde_json::from_slice::<Value>`: the value of a JSON text, or its error
/// as text. A whole number with a fraction of zero is read as a number that is no
/// integer.
#[verifier::external_body]
pub(crate) fn read_value(bytes: &[u8]) -> (r: Result<serde_json::Value, String>)
    ensures
        match r {
            Ok(v) => json_read(bytes@) == Ok::<JsonView, Seq<char>>(value_model(v)),
            Err(e) => json_read(bytes@) == Err::<JsonView, Seq<char>>(e@),
        },
        forall|n: int|
            i64::MIN <= n <= u64::MAX && bytes@ == #[trigger] encode_utf8(fraction_text(n))
                ==> match r {
                Ok(v) => value_model(v) is Float,
                Err(_) => false,
            },
{
    serde_json::from_slice::<serde_json::Value>(bytes).map_err(|e| e.to_string())
}

/// `serde_json::to_string` of a `Value`, which never fails.
///
/// Believed besides the name of the text: the compact form escapes every
/// control character and is not empty; and what was written is read back as the
/// same value, where no number in it is other than an integer and it is not
/// nested deeper than the reader goes. The same value is read back where the
/// characters outside ASCII, which stand in strings only, are escaped.
#[verifier::external_body]
pub(crate) fn value_text(v: &serde_json::Value) -> (t: String)
    ensures
        t@ == json_text(value_model(*v)),
        t@.len() > 0,
        forall|i: int| 0 <= i < t@.len() ==> (#[trigger] t@[i]) as u32 >= 0x20,
        readable(value_model(*v)) ==> match json_read(encode_utf8(t@)) {
            Ok(back) => back == value_model(*v),
            Err(_) => false,
        },
        readable(value_model(*v)) ==> match json_read(encode_utf8(escaped(t@))) {
            Ok(back) => back == value_model(*v),
            Err(_) => false,
        },
{
    serde_json::to_string(v).unwrap()
}

/// What `serde_json` says of a value that is not of a type.
pub uninterp spec fn misfit(kind: Plain, v: JsonView) -> Seq<char>;

/// `serde_json::from_value` for one of eight types: `None` where the value is of
/// the type, else the error as text.
#[verifier::external_body]
pub(crate) fn type_fault(kind: Plain, v: serde_json::Value) -> (r: Option<String>)
    ensures
        match r {
            None => fits(kind, value_model(v)),
            Some(t) => !fits(kind, value_model(v)) && t@ == misfit(kind, value_model(v)),
        },
{
    let fault = match kind {
        Plain::Flag => serde_json::from_value::<bool>(v).err(),
        Plain::Small => serde_json::from_value::<u32>(v).err(),
        Plain::Whole => serde_json::from_value::<u64>(v).err(),
        Plain::Short => serde_json::from_value::<i32>(v).err(),
        Plain::Long => serde_json::from_value::<i64>(v).err(),
        Plain::Text => serde_json::from_value::<String>(v).err(),
        Plain::Bytes => serde_json::from_value::<Vec<u8>>(v).err(),
        Plain::Hours => serde_json::from_value::<[u64; 24]>(v).err(),
    };
    fault.map(|e| e.to_string())
}

/// What `serde_json` says of a value where another kind of value was expected.
pub uninterp spec fn mistyped(v: JsonView, expected: Seq<char>) -> Seq<char>;

/// `serde::de::Error::invalid_type` of `serde_json::Error`: what is said of a
/// value where something else was expected, which is handed over in words.
#[verifier::external_body]
pub(crate) fn type_mismatch(v: &serde_json::Value, expected: &str) -> (r: String)
    ensures
        r@ == mistyped(value_model(*v), expected@),
{
    let number = |n: &serde_json::Number| match (n.as_u64(), n.as_i64()) {
        (Some(n), _) => Unexpected::Unsigned(n),
        (None, Some(n)) => Unexpected::Signed(n),
        (None, None) => Unexpected::Float(n.as_f64().unwrap_or_default()),
    };
    let found = match v {
        serde_json::Value::Null => Unexpected::Unit,
        serde_json::Value::Bool(b) => Unexpected::Bool(*b),
        serde_json::Value::Number(n) => number(n),
        serde_json::Value::String(s) => Unexpected::Str(s),
        serde_json::Value::Array(_) => Unexpected::Seq,
        serde_json::Value::Object(_) => Unexpected::Map,
    };
    <serde_json::Error as serde::de::Error>::invalid_type(found, &expected).to_string()
}

/// `String::push`: one more character at the end.
pub assume_specification[ String::push ](s: &mut String, c: char)
    ensures
        final(s)@ == old(s)@.push(c),
;

/// `crc32fast::hash`: the CRC32 of the bytes.
#[verifier::external_body]
pub(crate) fn crc32_hash(data: &[u8]) -> (r: u32)
    ensures
        r == crc32_of(data@),
{
    crc32fast::hash(data)
}

/// `base64::engine::general_purpose::STANDARD.encode`: the Base64 text. It
/// panics only where the length of the text would overflow, which the bound
/// excludes.
#[verifier::external_body]
pub(crate) fn b64_encode(data: &[u8]) -> (r: String)
    requires
        data@.len() <= 0x1000_0000,
    ensures
        r@ == b64_encoded(data@),
{
    base64::Engine::encode(&base64::engine::general_purpose::STANDARD, data)
}

/// `base64::engine::general_purpose::STANDARD.decode`: the bytes of a Base64
/// text, `None` for its error. A text is taken only in the form in which it is
/// written: padded, and without bits that stand for nothing.
#[verifier::external_body]
pub(crate) fn b64_decode(text: &str) -> (r: Option<Vec<u8>>)
    ensures
        match r {
            Some(data) => text@ == b64_encoded(data@),
            None => forall|data: Seq<u8>| text@ != #[trigger] b64_encoded(data),
        },
{
    base64::Engine::decode(&base64::engine::general_purpose::STANDARD, text).ok()
}

/// `std::str::from_utf8`: the text of bytes that are valid UTF-8.
#[verifier::external_body]
pub(crate) fn utf8_text(bytes: &[u8]) -> (r: Option<&str>)
    ensures
        match r {
            Some(s) => valid_utf8(bytes@) && s@ == decode_utf8(bytes@),
            None => !valid_utf8(bytes@),
        },
{
    std::str::from_utf8(bytes).ok()
}

/// `TimeZone::timestamp_opt` for a clock that is `ahead` by some seconds and
/// `DateTime::format`: the moment on that clock as one of three patterns writes it;
/// `None` for a moment that cannot be counted.
#[verifier::external_body]
pub(crate) fn local_time(seconds: i64, ahead: i32, pattern: &str) -> (r: Option<String>)
    requires
        -86400 < ahead < 86400,
        pattern@ == "%H:%M"@ || pattern@ == "%H:%M:%S"@ || pattern@ == "%m-%d %H:%M"@,
    ensures
        match r {
            Some(s) => moment_exists(seconds as int) && s@ == moment_text(seconds + ahead, pattern@),
            None => !moment_exists(seconds as int),
        },
{
    let zone = chrono::FixedOffset::east_opt(ahead)?;
    let moment = chrono::TimeZone::timestamp_opt(&zone, seconds, 0).single()?;
    Some(moment.format(pattern).to_string())
}

/// The moment that an RFC 3339 text names, in seconds since 1970.
pub uninterp spec fn rfc3339_moment(text: Seq<char>) -> Option<i64>;

/// `DateTime::parse_from_rfc3339` and `DateTime::timestamp`: the moment that
/// the text names, `None` for a text that names none.
#[verifier::external_body]
pub(crate) fn rfc3339_seconds(text: &str) -> (r: Option<i64>)
    ensures
        r == rfc3339_moment(text@),
{
    chrono::DateTime::parse_from_rfc3339(text).ok().map(|moment| moment.timestamp())
}

/// The moment that a text in a pattern of `chrono` names, in seconds since 1970.
pub uninterp spec fn offset_moment(text: Seq<char>, pattern: Seq<char>) -> Option<i64>;

/// `DateTime::parse_from_str` and `DateTime::timestamp`: the moment that the text
/// names by the pattern, `None` for a text that names none.
#[verifier::external_body]
pub(crate) fn offset_seconds(text: &str, pattern: &str) -> (r: Option<i64>)
    ensures
        r == offset_moment(text@, pattern@),
{
    chrono::DateTime::parse_from_str(text, pattern).ok().map(|moment| moment.timestamp())
}

/// What a group of a regular expression holds where it first matches a text.
pub uninterp spec fn captured(pattern: Seq<char>, text: Seq<char>, group: nat) -> Option<Seq<char>>;

/// `Regex::captures` and `Captures::get`: what a group holds at the first match
/// of the pattern; `None` without a match, where the group took no part in it,
/// and for a pattern that `Regex::new` refuses.
#[verifier::external_body]
pub(crate) fn capture(pattern: &str, text: &str, group: usize) -> (r: Option<String>)
    ensures
        match r {
            Some(s) => captured(pattern@, text@, group as nat) == Some(s@),
            None => captured(pattern@, text@, group as nat) is None,
        },
{
    let found = regex::Regex::new(pattern).ok()?.captures(text)?.get(group)?.as_str().to_owned();
    Some(found)
}

/// A text without the matches of a regular expression.
pub uninterp spec fn cleared(pattern: Seq<char>, text: Seq<char>) -> Option<Seq<char>>;

/// `Regex::replace_all` with nothing: the text without the matches of the
/// pattern; `None` for a pattern that `Regex::new` refuses.
#[verifier::external_body]
pub(crate) fn clear(pattern: &str, text: &str) -> (r: Option<String>)
    ensures
        match r {
            Some(s) => cleared(pattern@, text@) == Some(s@),
            None => cleared(pattern@, text@) is None,
        },
{
    Some(regex::Regex::new(pattern).ok()?.replace_all(text, "").into_owned())
}

/// What lies before, between and behind the matches of a regular expression.
pub uninterp spec fn between(pattern: Seq<char>, text: Seq<char>) -> Option<Seq<Seq<char>>>;

/// `Regex::split`: what lies before, between and behind the matches of the
/// pattern, in order; `None` for a pattern that `Regex::new` refuses.
#[verifier::external_body]
pub(crate) fn split_at_matches(pattern: &str, text: &str) -> (r: Option<Vec<String>>)
    ensures
        match r {
            Some(v) => between(pattern@, text@) == Some(texts(v@)),
            None => between(pattern@, text@) is None,
        },
{
    let found = regex::Regex::new(pattern).ok()?;
    Some(found.split(text).map(|s| s.to_owned()).collect())
}

/// What a group of a regular expression holds at each of its matches.
pub uninterp spec fn groups_of(pattern: Seq<char>, text: Seq<char>, group: nat) -> Option<Seq<Seq<char>>>;

/// `Regex::captures_iter` and `Captures::get`: what a group holds at each match
/// of the pattern, in order; `None` for a pattern that `Regex::new` refuses and
/// where the group took no part in one of the matches.
#[verifier::external_body]
pub(crate) fn capture_all(pattern: &str, text: &str, group: usize) -> (r: Option<Vec<String>>)
    ensures
        match r {
            Some(v) => groups_of(pattern@, text@, group as nat) == Some(texts(v@)),
            None => groups_of(pattern@, text@, group as nat) is None,
        },
{
    let found = regex::Regex::new(pattern).ok()?;
    found.captures_iter(text).map(|c| Some(c.get(group)?.as_str().to_owned())).collect()
}

/// A text with its HTML entities decoded.
pub uninterp spec fn html_decoded(text: Seq<char>) -> Seq<char>;

/// `html_escape::decode_html_entities`: the text with its entities decoded.
#[verifier::external_body]
pub(crate) fn html_decode(text: &str) -> (r: String)
    ensures
        r@ == html_decoded(text@),
{
    html_escape::decode_html_entities(text).into_owned()
}

/// The SHA-256 sum of some bytes in hexadecimal.
pub uninterp spec fn sha256_of(bytes: Seq<u8>) -> Seq<char>;

/// `Digest::digest` of `sha2::Sha256`: the sum in lower-case hexadecimal, which
/// is 64 digits.
#[verifier::external_body]
pub(crate) fn sha256_hex(bytes: &[u8]) -> (r: String)
    ensures
        r@ == sha256_of(bytes@),
        r@.len() == 64,
{
    format!("{:x}", <sha2::Sha256 as sha2::Digest>::digest(bytes))
}

/// `NaiveDate::from_ymd_opt` and `NaiveDate::format`: the day as one of two
/// patterns writes it; `None` where there is no such day.
#[verifier::external_body]
pub(crate) fn format_day(year: i32, month: u32, day: u32, pattern: &str) -> (r: Option<String>)
    requires
        pattern@ == "%Y-%m-%d"@ || pattern@ == "%Y%m%d"@,
    ensures
        match r {
            Some(s) => day_text(year as int, month as int, day as int, pattern@ == "%Y-%m-%d"@)
                == Some(s@),
            None => !day_exists(year as int, month as int, day as int),
        },
{
    let date = chrono::NaiveDate::from_ymd_opt(year, month, day)?;
    Some(date.format(pattern).to_string())
}

/// `Datelike::weekday` and `Weekday::num_days_from_monday`: the days that have
/// passed since the last Monday, from 0 to 6; `None` where there is no such day.
#[verifier::external_body]
pub(crate) fn weekday(year: i32, month: u32, day: u32) -> (r: Option<u32>)
    ensures
        match r {
            Some(n) => weekday_of(year as int, month as int, day as int) == Some(n as int),
            None => weekday_of(year as int, month as int, day as int) is None,
        },
{
    let date = chrono::NaiveDate::from_ymd_opt(year, month, day)?;
    Some(chrono::Datelike::weekday(&date).num_days_from_monday())
}

/// A picture as rows of red, green, blue and opacity.
#[derive(Debug)]
pub struct Rgba {
    pub width: u32,
    pub height: u32,
    pub pixels: Vec<u8>,
}

/// The picture that some bytes encode, as width, height and pixels, or what is
/// wrong with them.
pub uninterp spec fn picture_of(bytes: Seq<u8>) -> Result<(u32, u32, Seq<u8>), Seq<char>>;

/// `image::load_from_memory` and `DynamicImage::to_rgba8`: the picture in its
/// pixels, four bytes for each, or the error as text. The formats that are built
/// in, JPEG, PNG, BMP and WebP, are decoded in whole numbers.
#[verifier::external_body]
pub(crate) fn decode_rgba(bytes: &[u8]) -> (r: Result<Rgba, String>)
    ensures
        match r {
            Ok(p) => picture_of(bytes@) == Ok::<(u32, u32, Seq<u8>), Seq<char>>(
                (p.width, p.height, p.pixels@),
            ),
            Err(e) => picture_of(bytes@) == Err::<(u32, u32, Seq<u8>), Seq<char>>(e@),
        },
        r matches Ok(p) ==> p.pixels@.len() == 4 * (p.width * p.height),
{
    let picture = image::load_from_memory(bytes).map_err(|e| e.to_string())?.to_rgba8();
    let (width, height) = picture.dimensions();
    Ok(Rgba { width, height, pixels: picture.into_raw() })
}

/// The JPEG bytes of a picture, or what went wrong.
pub uninterp spec fn jpeg_of(width: int, height: int, pixels: Seq<u8>, quality: u8) -> Result<Seq<u8>, Seq<char>>;

/// `JpegEncoder::new_with_quality` and `ImageEncoder::write_image` into memory: the
/// bytes of the picture, or the error as text. There are three bytes for each
/// point. Nothing goes wrong with a picture of at most 65535 points either way.
#[verifier::external_body]
pub(crate) fn jpeg_bytes(width: u32, height: u32, pixels: &[u8], quality: u8) -> (r: Result<
    Vec<u8>,
    String,
>)
    requires
        pixels@.len() == 3 * (width * height),
        1 <= quality <= 100,
    ensures
        match r {
            Ok(v) => jpeg_of(width as int, height as int, pixels@, quality) == Ok::<
                Seq<u8>,
                Seq<char>,
            >(v@),
            Err(e) => jpeg_of(width as int, height as int, pixels@, quality) == Err::<
                Seq<u8>,
                Seq<char>,
            >(e@),
        },
        1 <= width <= 65535 && 1 <= height <= 65535 ==> r is Ok,
{
    let mut out = std::io::Cursor::new(Vec::new());
    let encoder = image::codecs::jpeg::JpegEncoder::new_with_quality(&mut out, quality);
    let kind = image::ExtendedColorType::Rgb8;
    let done = image::ImageEncoder::write_image(encoder, pixels, width, height, kind);
    done.map_err(|e| e.to_string())?;
    Ok(out.into_inner())
}

/// A picture with opacity laid over one colour.
pub uninterp spec fn flattened(width: int, height: int, pixels: Seq<u8>, color: (u8, u8, u8)) -> Seq<u8>;

/// `imageops::overlay` on a picture in one colour: the picture with what was
/// transparent filled in, four bytes for each point as before. A point without
/// any transparency is kept, and one that cannot be seen is in that colour.
#[verifier::external_body]
pub(crate) fn flatten(picture: &Rgba, color: (u8, u8, u8)) -> (r: Vec<u8>)
    requires
        picture.pixels@.len() == 4 * (picture.width * picture.height),
    ensures
        r@ == flattened(picture.width as int, picture.height as int, picture.pixels@, color),
        r@.len() == picture.pixels@.len(),
        forall|i: int|
            #![trigger r@[4 * i]]
            0 <= i < picture.width * picture.height && picture.pixels@[4 * i + 3] == 255 ==> r@[4 * i]
                == picture.pixels@[4 * i] && r@[4 * i + 1] == picture.pixels@[4 * i + 1] && r@[4 * i + 2]
                == picture.pixels@[4 * i + 2],
        forall|i: int|
            #![trigger r@[4 * i]]
            0 <= i < picture.width * picture.height && picture.pixels@[4 * i + 3] == 0 ==> r@[4 * i]
                == color.0 && r@[4 * i + 1] == color.1 && r@[4 * i + 2] == color.2,
{
    let (width, height) = (picture.width, picture.height);
    let below = image::Rgba([color.0, color.1, color.2, 255]);
    let mut base = image::RgbaImage::from_pixel(width, height, below);
    let above = image::RgbaImage::from_raw(width, height, picture.pixels.clone());
    image::imageops::overlay(&mut base, &above.unwrap_or_default(), 0, 0);
    base.into_raw()
}

/// Whether `n` is the whole number next to `a / b`, and at least one.
pub open spec fn next_to(n: int, a: int, b: int) -> bool {
    -b <= 2 * b * n - 2 * a <= b || (n == 1 && 2 * a <= b)
}

/// Whether a picture of `wide` by `high` points is one of `width` by `height`
/// points, made as large as `room.0` by `room.1` points allow with its proportions
/// kept.
pub open spec fn fills_room(width: int, height: int, room: (int, int), wide: int, high: int) -> bool {
    &&& 1 <= wide <= room.0
    &&& 1 <= high <= room.1
    &&& (wide == room.0 && next_to(high, room.0 * height, width)) || (high == room.1 && next_to(
        wide,
        room.1 * width,
        height,
    ))
}

/// `DynamicImage::resize` with `FilterType::Lanczos3`: the picture as large as there
/// is room for it, with its proportions kept, three bytes for each point; one that
/// has that size already is kept as it is.
///
/// Left unsaid: the colours of a picture that is scaled. They rest on the sine of
/// floating-point numbers, which differs from machine to machine.
#[verifier::external_body]
pub(crate) fn shrink(width: u32, height: u32, pixels: Vec<u8>, room: (u32, u32)) -> (r: Option<
    (u32, u32, Vec<u8>),
>)
    requires
        width >= 1,
        height >= 1,
        pixels@.len() == 3 * (width * height),
        1 <= room.0 <= 65535,
        1 <= room.1 <= 65535,
    ensures
        match r {
            Some(p) => {
                &&& fills_room(
                    width as int,
                    height as int,
                    (room.0 as int, room.1 as int),
                    p.0 as int,
                    p.1 as int,
                )
                &&& p.2@.len() == 3 * (p.0 * p.1)
                &&& p.0 == width && p.1 == height ==> p.2@ == pixels@
            },
            None => false,
        },
{
    let picture = image::DynamicImage::ImageRgb8(image::RgbImage::from_raw(width, height, pixels)?);
    let filter = image::imageops::FilterType::Lanczos3;
    let fitted = picture.resize(room.0, room.1, filter).to_rgb8();
    let (wide, high) = fitted.dimensions();
    Some((wide, high, fitted.into_raw()))
}

/// `Uuid::new_v4` and `Uuid::simple`: 32 hexadecimal digits. Which ones is left
/// to chance.
#[verifier::external_body]
pub(crate) fn fresh_id() -> (r: String)
    ensures
        r@.len() == 32,
        hexadecimal(r@),
{
    uuid::Uuid::new_v4().simple().to_string()
}

} // verus!
