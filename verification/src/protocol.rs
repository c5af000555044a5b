//! `@HCUSB/1` framing: prefix, compact ASCII JSON and a newline, with CRC32 sums
//! written as eight lower-case hexadecimal digits.

use vstd::prelude::*;
use vstd::utf8::{encode_scalar, encode_utf8, valid_utf8};

use crate::codes::{b64_decoded, b64_encoded, crc32_of, law_base64_reads_back, read_base64};
use crate::json::{
    at, dump_ascii, json_of_bytes, parse_bytes, readable, same_text, text_of, u64_of, Json, JsonView,
};
use crate::outside::{
    b64_encode, crc32_hash, json_text, utf8_text,
};
use crate::text::{
    ascii, byte_len, chars_of, escaped, hex_digit, hexadecimal, law_hexadecimal_width, no_control,
    numeral, padded, write_hex,
};

verus! {

/// What every line to and from the device starts with, the space included.
pub const PROTOCOL_PREFIX: [u8; 9] = [0x40, 0x48, 0x43, 0x55, 0x53, 0x42, 0x2f, 0x31, 0x20];

/// Bytes in one part of a JPEG upload or of a long response.
pub const CHUNK_SIZE: usize = 96;

/// Bytes in one part of what is read back from the device.
pub const READBACK_CHUNK: usize = 192;

pub const USB_VID: u16 = 0x303A;

pub const USB_PID: u16 = 0x1001;

/// An error of the host side, as the text that is shown.
#[derive(Debug)]
pub struct ProtocolError(pub String);

impl Clone for ProtocolError {
    fn clone(&self) -> (r: Self)
        ensures
            r == *self,
    {
        ProtocolError(self.0.clone())
    }
}

/// An error with a fixed message.
pub fn err(message: &str) -> (e: ProtocolError)
    ensures
        e.0@ == message@,
{
    ProtocolError(message.to_owned())
}

/// The sum of some bytes as eight hexadecimal digits.
pub open spec fn crc_hex(data: Seq<u8>) -> Seq<char> {
    padded(numeral(crc32_of(data) as nat, 16), 8)
}

/// The CRC32 of some bytes as eight lower-case hexadecimal digits.
pub fn crc32_hex(data: &[u8]) -> (r: String)
    ensures
        r@ == crc_hex(data@),
{
    write_hex(crc32_hash(data) as u64, 8)
}

/// The line that carries a value: prefix, compact ASCII JSON, newline.
pub open spec fn frame(v: JsonView) -> Seq<u8> {
    PROTOCOL_PREFIX@ + encode_utf8(escaped(json_text(v))) + seq![10u8]
}

/// A line without the newline and the carriage return at its end.
pub open spec fn stripped(line: Seq<u8>) -> Seq<u8> {
    let body = if line.len() > 0 && line.last() == 10 {
        line.drop_last()
    } else {
        line
    };
    if body.len() > 0 && body.last() == 13 {
        body.drop_last()
    } else {
        body
    }
}

/// The value that a line carries; `None` for a line of any other kind.
pub open spec fn decoded(line: Seq<u8>) -> Option<JsonView> {
    let body = stripped(line);
    if PROTOCOL_PREFIX@.is_prefix_of(body) && valid_utf8(body.skip(9)) {
        json_of_bytes(body.skip(9))
    } else {
        None
    }
}

/// A text in ASCII without control characters has one byte for each character,
/// and none of them is a control character.
proof fn lemma_plain_bytes(chars: Seq<char>)
    requires
        ascii(chars),
        no_control(chars),
    ensures
        encode_utf8(chars).len() == chars.len(),
        forall|i: int|
            0 <= i < encode_utf8(chars).len() ==> 0x20 <= #[trigger] encode_utf8(chars)[i] < 0x80,
    decreases chars.len(),
{
    if chars.len() > 0 {
        let rest = chars.drop_first();
        assert forall|i: int| 0 <= i < rest.len() implies 0x20 <= (#[trigger] rest[i]) as u32
            && (rest[i] as u32) < 0x80 by {
            assert(rest[i] == chars[i + 1]);
        }
        lemma_plain_bytes(rest);
        let s = chars[0] as u32;
        assert(s <= 0x7f ==> (s & 0x7F) as u8 == s) by (bit_vector);
        assert(encode_scalar(s) =~= seq![s as u8]);
        assert(encode_utf8(chars) == encode_scalar(s) + encode_utf8(rest));
    }
}

/// One command as a line: prefix, compact ASCII JSON, newline.
///
/// Every byte of the line is ASCII, the newline is the only one in it, and
/// reading the line gives the command back.
pub fn encode_frame(command: &Json) -> (r: Result<Vec<u8>, ProtocolError>)
    ensures
        match r {
            Ok(line) => {
                &&& line@ == frame(command@)
                &&& forall|i: int| 0 <= i < line@.len() ==> (#[trigger] line@[i]) < 0x80
                &&& forall|i: int| 0 <= i < line@.len() - 1 ==> (#[trigger] line@[i]) >= 0x20
                &&& readable(command@) ==> decoded(line@) == Some(command@)
            },
            Err(_) => false,
        },
{
    let body = dump_ascii(command);
    let bytes = body.as_str().as_bytes();
    let mut out: Vec<u8> = Vec::new();
    let mut i: usize = 0;
    while i < 9
        invariant
            i <= 9,
            out@ == PROTOCOL_PREFIX@.take(i as int),
        decreases 9 - i,
    {
        out.push(PROTOCOL_PREFIX[i]);
        i += 1;
        assert(out@ =~= PROTOCOL_PREFIX@.take(i as int));
    }
    out.extend_from_slice(bytes);
    out.push(10u8);
    proof {
        let text = escaped(json_text(command@));
        assert(PROTOCOL_PREFIX@.take(9) =~= PROTOCOL_PREFIX@);
        assert(out@ =~= frame(command@));
        lemma_plain_bytes(text);
        vstd::utf8::encode_utf8_valid_utf8(text);
        let inner = PROTOCOL_PREFIX@ + encode_utf8(text);
        assert(out@.drop_last() =~= inner);
        assert(inner.last() == encode_utf8(text).last());
        assert(stripped(out@) == inner);
        assert(inner.skip(9) =~= encode_utf8(text));
        assert(inner.take(9) =~= PROTOCOL_PREFIX@);
    }
    Ok(out)
}

/// The value that one complete line carries; `None` for a line without the
/// prefix and for one that is not JSON behind it.
pub fn decode_line(line: &[u8]) -> (r: Result<Option<Json>, ProtocolError>)
    ensures
        match r {
            Ok(Some(v)) => decoded(line@) == Some(v@),
            Ok(None) => decoded(line@) is None,
            Err(_) => false,
        },
{
    let mut end: usize = line.len();
    if end > 0 && line[end - 1] == 10 {
        end -= 1;
    }
    if end > 0 && line[end - 1] == 13 {
        end -= 1;
    }
    assert(stripped(line@) =~= line@.take(end as int));
    if end < 9 {
        return Ok(None);
    }
    let mut i: usize = 0;
    while i < 9
        invariant
            i <= 9 <= end <= line@.len(),
            stripped(line@) == line@.take(end as int),
            forall|k: int| 0 <= k < i ==> line@[k] == #[trigger] PROTOCOL_PREFIX@[k],
        decreases 9 - i,
    {
        if line[i] != PROTOCOL_PREFIX[i] {
            proof {
                if PROTOCOL_PREFIX@.is_prefix_of(stripped(line@)) {
                    assert(stripped(line@).take(9)[i as int] == PROTOCOL_PREFIX@[i as int]);
                }
            }
            return Ok(None);
        }
        i += 1;
    }
    assert(stripped(line@).take(9) =~= PROTOCOL_PREFIX@);
    assert(stripped(line@).skip(9) =~= line@.subrange(9, end as int));
    let payload = vstd::slice::slice_subrange(line, 9, end);
    match utf8_text(payload) {
        Some(_) => Ok(parse_bytes(payload)),
        None => Ok(None),
    }
}

/// How many parts some bytes make.
pub open spec fn chunk_count(len: nat) -> nat {
    (len + 95) / 96
}

/// One part of some bytes.
pub open spec fn chunk(data: Seq<u8>, i: int) -> Seq<u8> {
    data.subrange(
        96 * i,
        if 96 * (i + 1) <= data.len() {
            96 * (i + 1)
        } else {
            data.len() as int
        },
    )
}

/// The bytes as numbered Base64 parts of at most `CHUNK_SIZE` bytes.
pub fn jpeg_chunks(data: &[u8]) -> (r: Vec<(usize, String)>)
    ensures
        r@.len() == chunk_count(data@.len()),
        forall|i: int|
            #![trigger r@[i]]
            0 <= i < r@.len() ==> r@[i].0 == i && r@[i].1@ == b64_encoded(chunk(data@, i))
                && b64_decoded(r@[i].1@) == Some(chunk(data@, i)),
{
    let mut out: Vec<(usize, String)> = Vec::new();
    let mut at: usize = 0;
    let mut seq: usize = 0;
    while at < data.len()
        invariant
            at <= data@.len(),
            seq == out@.len(),
            at == 96 * seq || (at == data@.len() && seq == chunk_count(data@.len())),
            at < data@.len() ==> at == 96 * seq,
            seq <= at,
            forall|i: int|
                #![trigger out@[i]]
                0 <= i < out@.len() ==> out@[i].0 == i && out@[i].1@ == b64_encoded(chunk(data@, i))
                    && b64_decoded(out@[i].1@) == Some(chunk(data@, i)),
        decreases data@.len() - at,
    {
        let end: usize = if data.len() - at > CHUNK_SIZE {
            at + CHUNK_SIZE
        } else {
            data.len()
        };
        let part = vstd::slice::slice_subrange(data, at, end);
        assert(part@ =~= chunk(data@, seq as int));
        proof {
            law_base64_reads_back(part@);
        }
        out.push((seq, b64_encode(part)));
        seq += 1;
        at = end;
    }
    out
}

/// The bytes of the first parts, one after another.
pub open spec fn chunks_joined(data: Seq<u8>, n: nat) -> Seq<u8>
    decreases n,
{
    if n == 0 {
        Seq::empty()
    } else {
        chunks_joined(data, (n - 1) as nat) + chunk(data, n - 1)
    }
}

/// The parts of some bytes, one after another, are those bytes: none is
/// empty and none holds more than `CHUNK_SIZE`.
pub proof fn law_chunks_whole(data: Seq<u8>)
    ensures
        chunks_joined(data, chunk_count(data.len())) == data,
        forall|i: int|
            0 <= i < chunk_count(data.len()) ==> 1 <= (#[trigger] chunk(data, i)).len()
                <= CHUNK_SIZE,
{
    let n = chunk_count(data.len());
    if n > 0 {
        lemma_chunks_prefix(data, (n - 1) as nat);
        assert(data =~= data.take(96 * (n - 1)) + chunk(data, n - 1));
    }
}

proof fn lemma_chunks_prefix(data: Seq<u8>, n: nat)
    requires
        96 * n <= data.len(),
    ensures
        chunks_joined(data, n) == data.take(96 * n as int),
    decreases n,
{
    if n > 0 {
        lemma_chunks_prefix(data, (n - 1) as nat);
        assert(data.take(96 * (n - 1)) + chunk(data, n - 1) =~= data.take(96 * n as int));
    } else {
        assert(data.take(0) =~= Seq::empty());
    }
}

/// Size and sum in the header of a response that comes in parts.
pub open spec fn multipart_meta(response: JsonView) -> Result<(int, Seq<char>), Seq<char>> {
    match (u64_of(at(response, "size"@)), text_of(at(response, "crc32"@))) {
        (Some(size), Some(sum)) => if 1 <= size <= 16384 && encode_utf8(sum).len() == 8 {
            Ok((size as int, sum))
        } else {
            Err("USB 分块回执元数据无效。"@)
        },
        _ => Err("USB 分块回执元数据无效。"@),
    }
}

/// Size and sum in the header of a response that comes in parts.
pub fn validate_multipart_meta(response: &Json) -> (r: Result<(usize, String), ProtocolError>)
    ensures
        match r {
            Ok((size, sum)) => multipart_meta(response@) == Ok::<(int, Seq<char>), Seq<char>>(
                (size as int, sum@),
            ),
            Err(e) => multipart_meta(response@) == Err::<(int, Seq<char>), Seq<char>>(e.0@),
        },
{
    match (response.get_u64("size"), response.get_str("crc32")) {
        (Some(size), Some(sum)) => if 1 <= size && size <= 16384 && byte_len(sum) == 8 {
            Ok((size as usize, sum.to_owned()))
        } else {
            Err(err("USB 分块回执元数据无效。"))
        },
        _ => Err(err("USB 分块回执元数据无效。")),
    }
}

/// The bytes of one part of a response.
pub open spec fn response_part(part: JsonView, offset: int, remaining: int) -> Option<Seq<u8>> {
    if text_of(at(part, "status"@)) == Some("part"@) && u64_of(at(part, "offset"@)) == Some(
        offset as u64,
    ) {
        match text_of(at(part, "data"@)) {
            Some(text) => match b64_decoded(text) {
                Some(data) => if 1 <= data.len() <= CHUNK_SIZE && data.len() <= remaining {
                    Some(data)
                } else {
                    None
                },
                None => None,
            },
            None => None,
        }
    } else {
        None
    }
}

/// Decodes one part of a response, which must start at `expected_offset` and
/// fit into what remains.
pub fn decode_response_part(part: &Json, expected_offset: usize, remaining: usize) -> (r: Result<
    Vec<u8>,
    ProtocolError,
>)
    ensures
        match r {
            Ok(data) => response_part(part@, expected_offset as int, remaining as int) == Some(
                data@,
            ),
            Err(e) => response_part(part@, expected_offset as int, remaining as int) is None
                && e.0@ == "USB 分块回执顺序或长度不匹配。"@,
        },
{
    if !part.is_str("status", "part") || part.get_u64("offset") != Some(expected_offset as u64) {
        return Err(err("USB 分块回执顺序或长度不匹配。"));
    }
    let decoded = match part.get_str("data") {
        Some(text) => read_base64(text),
        None => None,
    };
    match decoded {
        Some(data) => if data.len() >= 1 && data.len() <= CHUNK_SIZE && data.len() <= remaining {
            Ok(data)
        } else {
            Err(err("USB 分块回执顺序或长度不匹配。"))
        },
        None => Err(err("USB 分块回执顺序或长度不匹配。")),
    }
}

/// The response that the parts make together.
pub open spec fn multipart_body(
    data: Seq<u8>,
    checksum: Seq<char>,
    request_id: Seq<char>,
) -> Result<JsonView, Seq<char>> {
    if crc_hex(data) != checksum {
        Err("USB 分块回执 CRC32 不匹配。"@)
    } else {
        match json_of_bytes(data) {
            None => Err("USB 分块回执不是合法 JSON。"@),
            Some(v) => if text_of(at(v, "id"@)) == Some(request_id) {
                Ok(v)
            } else {
                Err("USB 分块回执身份不匹配。"@)
            },
        }
    }
}

/// Checks the sum of the collected parts and reads the response out of them.
pub fn assemble_multipart_body(data: &[u8], checksum: &str, request_id: &str) -> (r: Result<
    Json,
    ProtocolError,
>)
    ensures
        match r {
            Ok(v) => multipart_body(data@, checksum@, request_id@) == Ok::<JsonView, Seq<char>>(v@)
                && v@ is Object,
            Err(e) => multipart_body(data@, checksum@, request_id@) == Err::<JsonView, Seq<char>>(
                e.0@,
            ),
        },
{
    if !same_text(crc32_hex(data).as_str(), checksum) {
        return Err(err("USB 分块回执 CRC32 不匹配。"));
    }
    match parse_bytes(data) {
        None => Err(err("USB 分块回执不是合法 JSON。")),
        Some(v) => if v.is_str("id", request_id) {
            Ok(v)
        } else {
            Err(err("USB 分块回执身份不匹配。"))
        },
    }
}

/// The number that two decimal digits are in a slot name; 0 for anything else.
pub open spec fn slot_number(a: char, b: char) -> int {
    if '0' <= a <= '9' && '0' <= b <= '9' {
        (a as int - '0' as int) * 10 + (b as int - '0' as int)
    } else {
        0
    }
}

/// The name of a calendar slot: bank `a` or `b` and a page from 1 to 32.
pub open spec fn calendar_target(t: Seq<char>) -> bool {
    &&& t.len() == 13
    &&& t.take(9) == "calendar_"@
    &&& t[9] == 'a' || t[9] == 'b'
    &&& t[10] == '_'
    &&& 1 <= slot_number(t[11], t[12]) <= 32
}

/// A destination that pictures can be uploaded to.
pub open spec fn image_target(t: Seq<char>) -> bool {
    t == "frame"@ || t == "task_labels"@ || t == "home_text"@ || t == "home_image"@
        || calendar_target(t)
}

/// Whether pictures can be uploaded to `target`.
pub fn is_valid_image_target(target: &str) -> (r: bool)
    ensures
        r == image_target(target@),
{
    same_text(target, "frame") || same_text(target, "task_labels") || same_text(target, "home_text")
        || same_text(target, "home_image") || is_calendar_target(target)
}

/// Whether `target` names a calendar slot.
pub fn is_calendar_target(target: &str) -> (r: bool)
    ensures
        r == calendar_target(target@),
{
    let t = chars_of(target);
    if t.len() != 13 {
        return false;
    }
    let head = target.substring_char(0, 9);
    assert(head@ =~= target@.take(9));
    if !same_text(head, "calendar_") || (t[9] != 'a' && t[9] != 'b') || t[10] != '_' {
        return false;
    }
    let a = t[11];
    let b = t[12];
    if !('0' <= a && a <= '9' && '0' <= b && b <= '9') {
        return false;
    }
    let n: u32 = (a as u32 - 48) * 10 + (b as u32 - 48);
    1 <= n && n <= 32
}

/// A sum is eight hexadecimal digits, whatever the bytes.
pub proof fn law_sum_is_eight_digits(data: Seq<u8>)
    ensures
        crc_hex(data).len() == 8,
        hexadecimal(crc_hex(data)),
{
    assert(vstd::arithmetic::power::pow(16, 8) == 0x1_0000_0000) by {
        reveal_with_fuel(vstd::arithmetic::power::pow, 9);
    }
    let s = numeral(crc32_of(data) as nat, 16);
    law_hexadecimal_width(crc32_of(data) as nat, 8);
    let p = crc_hex(data);
    assert forall|i: int| 0 <= i < p.len() implies hex_digit(#[trigger] p[i]) by {
        if i >= 8 - s.len() {
            assert(p[i] == s[i - (8 - s.len())]);
        } else {
            assert(p[i] == '0');
        }
    }
}

/// A line to the device starts with its prefix and ends with a newline, and nothing
/// but the JSON in ASCII stands between.
pub proof fn law_lines_have_prefix_and_newline(v: JsonView)
    ensures
        ({
            let line = frame(v);
            let text = encode_utf8(escaped(json_text(v)));
            &&& line.len() == 9 + text.len() + 1
            &&& forall|i: int| 0 <= i < 9 ==> (#[trigger] line[i]) as char == "@HCUSB/1 "@[i]
            &&& line.last() == '\n' as u8
            &&& line.subrange(9, line.len() - 1) == text
        }),
{
    reveal_strlit("@HCUSB/1 ");
    let line = frame(v);
    let text = encode_utf8(escaped(json_text(v)));
    assert(line.subrange(9, line.len() - 1) =~= text);
    assert(PROTOCOL_PREFIX@ =~= seq![0x40u8, 0x48, 0x43, 0x55, 0x53, 0x42, 0x2f, 0x31, 0x20]);
}

/// How a line ends makes no difference to what it carries, and what has no prefix
/// carries nothing.
pub proof fn law_line_ends_do_not_matter(body: Seq<u8>)
    requires
        body.len() > 0,
        body.last() != 10,
        body.last() != 13,
    ensures
        decoded(body + seq![10u8]) == decoded(body),
        decoded(body + seq![13u8, 10u8]) == decoded(body),
        decoded(body) is Some ==> body.len() >= 9 && forall|i: int|
            0 <= i < 9 ==> (#[trigger] body[i]) as char == "@HCUSB/1 "@[i],
        decoded(body) is Some ==> json_of_bytes(body.skip(9)) == decoded(body),
        body.len() >= 9 && (forall|i: int|
            0 <= i < 9 ==> (#[trigger] body[i]) as char == "@HCUSB/1 "@[i]) && valid_utf8(
            body.skip(9),
        ) ==> decoded(body) == json_of_bytes(body.skip(9)),
{
    reveal_strlit("@HCUSB/1 ");
    assert(PROTOCOL_PREFIX@ =~= seq![0x40u8, 0x48, 0x43, 0x55, 0x53, 0x42, 0x2f, 0x31, 0x20]);
    assert((body + seq![10u8]).drop_last() =~= body);
    assert((body + seq![13u8, 10u8]).drop_last() =~= body + seq![13u8]);
    assert((body + seq![13u8]).drop_last() =~= body);
    if PROTOCOL_PREFIX@.is_prefix_of(body) {
        assert forall|i: int| 0 <= i < 9 implies (#[trigger] body[i]) as char == "@HCUSB/1 "@[i] by {
            assert(body.take(9)[i] == PROTOCOL_PREFIX@[i]);
        }
    }
    if body.len() >= 9 && (forall|i: int|
        0 <= i < 9 ==> (#[trigger] body[i]) as char == "@HCUSB/1 "@[i]) {
        assert forall|i: int| 0 <= i < 9 implies body.take(9)[i] == PROTOCOL_PREFIX@[i] by {
            assert(body[i] as char == "@HCUSB/1 "@[i]);
        }
        assert(body.take(9) =~= PROTOCOL_PREFIX@);
    }
}

/// Every part holds the bytes of its place.
pub proof fn law_parts_hold_their_bytes(data: Seq<u8>, i: int, k: int)
    requires
        0 <= i < chunk_count(data.len()),
        0 <= k < chunk(data, i).len(),
    ensures
        chunk(data, i)[k] == data[96 * i + k],
        i + 1 < chunk_count(data.len()) ==> chunk(data, i).len() == 96,
{
}

/// The header of a response in parts is good where it gives a size of up to 16 KiB and
/// a sum of eight characters.
pub proof fn law_headers_are_checked(response: JsonView)
    ensures
        ({
            let size = u64_of(at(response, "size"@));
            let sum = text_of(at(response, "crc32"@));
            &&& multipart_meta(response) is Ok <==> size is Some && sum is Some && 1 <= size->0
                <= 16 * 1024 && encode_utf8(sum->0).len() == 8
            &&& multipart_meta(response) matches Ok(m) ==> m.0 == size->0 && m.1 == sum->0
        }),
{
}

/// A part of a response is good where it calls itself one, starts where the last one
/// ended and holds one to 96 bytes of what remains.
pub proof fn law_parts_are_checked(part: JsonView, offset: int, remaining: int)
    requires
        0 <= offset <= u64::MAX,
    ensures
        ({
            let text = text_of(at(part, "data"@));
            let good = at(part, "status"@) == Some(JsonView::Str("part"@)) && u64_of(
                at(part, "offset"@),
            ) == Some(offset as u64) && text is Some && b64_decoded(text->0) is Some && 1
                <= b64_decoded(text->0)->0.len() <= 96 && b64_decoded(text->0)->0.len()
                <= remaining;
            response_part(part, offset, remaining) == if good {
                b64_decoded(text->0)
            } else {
                None
            }
        }),
{
}

/// The parts make a response where they have the sum that was announced, are JSON and
/// name the request; it is then what they say.
pub proof fn law_bodies_are_checked(data: Seq<u8>, checksum: Seq<char>, id: Seq<char>)
    ensures
        multipart_body(data, checksum, id) is Ok <==> crc_hex(data) == checksum && json_of_bytes(
            data,
        ) is Some && at(json_of_bytes(data)->0, "id"@) == Some(JsonView::Str(id)),
        multipart_body(data, checksum, id) matches Ok(v) ==> Some(v) == json_of_bytes(data),
{
}

/// A calendar slot is a bank and a page from 01 to 32, and besides the slots there are
/// four places for pictures.
pub proof fn law_targets_are_slots_and_places(t: Seq<char>)
    ensures
        calendar_target(t) <==> {
            &&& t.len() == 13
            &&& t.take(9) == "calendar_"@
            &&& t[9] == 'a' || t[9] == 'b'
            &&& t[10] == '_'
            &&& '0' <= t[11] <= '9' && '0' <= t[12] <= '9'
            &&& 1 <= 10 * (t[11] as int - 48) + (t[12] as int - 48) <= 32
        },
        image_target(t) <==> calendar_target(t) || t == "frame"@ || t == "task_labels"@ || t
            == "home_text"@ || t == "home_image"@,
{
}

} // verus!
