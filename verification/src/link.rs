//! One request on the line: framing the command, finding its response among
//! the bytes that arrive, collecting a response that comes in parts, and
//! repeating the handshake until the device is there.

use vstd::prelude::*;

use crate::codes::b64_decoded;
use crate::json::{at, json_of_bytes, put, readable, text_of, u64_of, Json, JsonView};
use crate::protocol::{
    assemble_multipart_body, chunk, chunk_count, crc_hex, decode_line, decode_response_part,
    decoded, encode_frame, err, frame, multipart_body, multipart_meta, response_part,
    validate_multipart_meta, ProtocolError,
};
use crate::script::{reported, value_turn, AskView, Turn};
use crate::text::{decimal, glue, law_decimal_reads_back, write_decimal};
use crate::usb::{command, plain_command, HoloCubicUsb};

verus! {

/// The most bytes that may wait for a newline.
pub const PENDING_LIMIT: usize = 65536;

/// The name of a request: the time it is made at and its number.
pub open spec fn request_name(now_ms: nat, number: nat) -> Seq<char> {
    decimal(now_ms) + "-"@ + decimal(number)
}

/// The name of a request.
pub fn request_id(now_ms: u64, number: u64) -> (r: String)
    ensures
        r@ == request_name(now_ms as nat, number as nat),
{
    let head = glue(write_decimal(now_ms).as_str(), "-");
    glue(head.as_str(), write_decimal(number).as_str())
}

/// A command as a line, with the name of the request put in.
///
/// Reading the line gives the named command back.
pub fn frame_command(command: Json, id: &str) -> (r: Result<Vec<u8>, ProtocolError>)
    ensures
        match r {
            Ok(line) => {
                let named = put(command@, "id"@, JsonView::Str(id@));
                &&& command@ is Object
                &&& line@ == frame(named)
                &&& forall|i: int| 0 <= i < line@.len() ==> (#[trigger] line@[i]) < 0x80
                &&& readable(named) ==> decoded(line@) == Some(named)
            },
            Err(e) => !(command@ is Object) && e.0@ == "命令必须是 JSON 对象。"@,
        },
{
    if !command.is_object() {
        return Err(err("命令必须是 JSON 对象。"));
    }
    let named = command.with("id", Json::text(id));
    encode_frame(&named)
}

/// Whether some bytes hold a whole line.
pub open spec fn has_line(bytes: Seq<u8>) -> bool {
    bytes.contains(10u8)
}

/// How long the first line is, its newline included.
pub open spec fn line_len(bytes: Seq<u8>) -> int {
    bytes.index_of_first(10u8)->0 + 1
}

/// The first response to a request among some bytes, and the bytes behind it;
/// without one, the bytes behind the last newline.
pub open spec fn scan(bytes: Seq<u8>, id: Seq<char>) -> (Option<JsonView>, Seq<u8>)
    decreases bytes.len(),
{
    if !has_line(bytes) {
        (None, bytes)
    } else {
        proof {
            bytes.index_of_first_ensures(10u8);
        }
        let n = line_len(bytes);
        match decoded(bytes.take(n)) {
            Some(v) => if text_of(at(v, "id"@)) == Some(id) {
                (Some(v), bytes.skip(n))
            } else {
                scan(bytes.skip(n), id)
            },
            None => scan(bytes.skip(n), id),
        }
    }
}

/// The bytes of one request that arrived and are not read yet.
pub struct Receiver {
    id: String,
    pending: Vec<u8>,
}

impl Receiver {
    pub closed spec fn id(&self) -> Seq<char> {
        self.id@
    }

    pub closed spec fn pending(&self) -> Seq<u8> {
        self.pending@
    }

    /// Waits for the response to a request.
    pub fn new(id: &str) -> (r: Self)
        ensures
            r.id() == id@,
            r.pending() == Seq::<u8>::empty(),
    {
        Receiver { id: id.to_owned(), pending: Vec::new() }
    }

    /// Takes what arrived, a part of a line or several, and gives the response
    /// once it is there. Noise and responses to other requests are passed over.
    pub fn feed(&mut self, bytes: &[u8]) -> (r: Result<Option<Json>, ProtocolError>)
        ensures
            final(self).id() == old(self).id(),
            ({
                let all = old(self).pending() + bytes@;
                match r {
                    Err(e) => all.len() > PENDING_LIMIT && e.0@ == "USB 回执超过 64KB 上限。"@
                        && final(self).pending() == all,
                    Ok(found) => all.len() <= PENDING_LIMIT && (match found {
                        Some(v) => Some(v@),
                        None => None,
                    }, final(self).pending()) == scan(all, old(self).id()),
                }
            }),
    {
        let ghost all = self.pending@ + bytes@;
        self.pending.extend_from_slice(bytes);
        assert(self.pending@ =~= all);
        if self.pending.len() > PENDING_LIMIT {
            return Err(err("USB 回执超过 64KB 上限。"));
        }
        loop
            invariant
                self.id@ == old(self).id(),
                all.len() <= PENDING_LIMIT,
                all == old(self).pending() + bytes@,
                scan(self.pending@, self.id@) == scan(all, self.id@),
            decreases self.pending@.len(),
        {
            let n = match first_line(self.pending.as_slice()) {
                Some(n) => n,
                None => {
                    return Ok(None);
                },
            };
            let line = vstd::slice::slice_subrange(self.pending.as_slice(), 0, n);
            assert(line@ =~= self.pending@.take(n as int));
            let response = match decode_line(line) {
                Ok(v) => v,
                Err(e) => None,
            };
            let rest = self.pending.split_off(n);
            self.pending = rest;
            match response {
                Some(v) => {
                    if v.is_str("id", self.id.as_str()) {
                        return Ok(Some(v));
                    }
                },
                None => {},
            }
        }
    }
}

/// How long the first line is, its newline included.
fn first_line(bytes: &[u8]) -> (r: Option<usize>)
    ensures
        match r {
            Some(n) => has_line(bytes@) && n == line_len(bytes@) && 1 <= n <= bytes@.len(),
            None => !has_line(bytes@),
        },
{
    let mut i: usize = 0;
    while i < bytes.len()
        invariant
            i <= bytes@.len(),
            forall|k: int| 0 <= k < i ==> bytes@[k] != 10,
        decreases bytes@.len() - i,
    {
        if bytes[i] == 10 {
            proof {
                assert(bytes@[i as int] == 10u8);
                bytes@.index_of_first_ensures(10u8);
            }
            return Some(i + 1);
        }
        i += 1;
    }
    None
}

proof fn lemma_first_line(bytes: Seq<u8>, n: int)
    requires
        0 < n <= bytes.len(),
        bytes[n - 1] == 10,
        forall|k: int| 0 <= k < n - 1 ==> bytes[k] != 10,
    ensures
        has_line(bytes),
        line_len(bytes) == n,
{
    bytes.index_of_first_ensures(10u8);
}

/// It does not matter in which pieces bytes arrive: what is found in the first
/// piece stays found, and what is left of it is read together with the next.
pub proof fn law_scan_in_pieces(first: Seq<u8>, second: Seq<u8>, id: Seq<char>)
    ensures
        match scan(first, id).0 {
            Some(v) => scan(first + second, id).0 == Some(v),
            None => scan(first + second, id) == scan(scan(first, id).1 + second, id),
        },
    decreases first.len(),
{
    if has_line(first) {
        first.index_of_first_ensures(10u8);
        let n = line_len(first);
        let all = first + second;
        lemma_first_line(all, n);
        assert(all.take(n) =~= first.take(n));
        assert(all.skip(n) =~= first.skip(n) + second);
        law_scan_in_pieces(first.skip(n), second, id);
    }
}

/// A response is found at once when its line has arrived, and nothing behind
/// it is touched.
pub proof fn law_response_found(line: Seq<u8>, rest: Seq<u8>, v: JsonView, id: Seq<char>)
    requires
        line.len() > 0,
        line.last() == 10,
        forall|k: int| 0 <= k < line.len() - 1 ==> line[k] != 10,
        decoded(line) == Some(v),
        text_of(at(v, "id"@)) == Some(id),
    ensures
        scan(line + rest, id) == (Some(v), rest),
{
    let all = line + rest;
    lemma_first_line(all, line.len() as int);
    assert(all.take(line.len() as int) =~= line);
    assert(all.skip(line.len() as int) =~= rest);
}

/// A line that is no response to the request changes nothing.
pub proof fn law_noise_passed_over(line: Seq<u8>, rest: Seq<u8>, id: Seq<char>)
    requires
        line.len() > 0,
        line.last() == 10,
        forall|k: int| 0 <= k < line.len() - 1 ==> line[k] != 10,
        decoded(line) is None || text_of(at(decoded(line)->0, "id"@)) != Some(id),
    ensures
        scan(line + rest, id) == scan(rest, id),
{
    let all = line + rest;
    lemma_first_line(all, line.len() as int);
    assert(all.take(line.len() as int) =~= line);
    assert(all.skip(line.len() as int) =~= rest);
}

/// Whether a line is a response to a request.
pub open spec fn replies(line: Seq<u8>, id: Seq<char>) -> bool {
    match decoded(line) {
        Some(v) => text_of(at(v, "id"@)) == Some(id),
        None => false,
    }
}

/// Whether some bytes are one line with its newline at the end.
pub open spec fn one_line(line: Seq<u8>) -> bool {
    &&& line.len() > 0
    &&& line.last() == 10
    &&& forall|k: int| 0 <= k < line.len() - 1 ==> line[k] != 10
}

/// Some bytes behind one another.
pub open spec fn flat(blocks: Seq<Seq<u8>>) -> Seq<u8>
    decreases blocks.len(),
{
    if blocks.len() == 0 {
        Seq::empty()
    } else {
        blocks[0] + flat(blocks.drop_first())
    }
}

/// The response that is found while blocks arrive one after another, with what
/// was pending before the first; an error where too much waits for a newline.
pub open spec fn received(pending: Seq<u8>, blocks: Seq<Seq<u8>>, id: Seq<char>) -> Result<
    Option<JsonView>,
    Seq<char>,
>
    decreases blocks.len(),
{
    if blocks.len() == 0 {
        Ok(None)
    } else {
        let all = pending + blocks[0];
        if all.len() > PENDING_LIMIT {
            Err("USB 回执超过 64KB 上限。"@)
        } else {
            match scan(all, id) {
                (Some(v), _) => Ok(Some(v)),
                (None, rest) => received(rest, blocks.drop_first(), id),
            }
        }
    }
}

proof fn lemma_rest_is_shorter(bytes: Seq<u8>, id: Seq<char>)
    ensures
        scan(bytes, id).1.len() <= bytes.len(),
        scan(bytes, id).0 is None ==> scan(scan(bytes, id).1, id) == scan(bytes, id),
    decreases bytes.len(),
{
    if has_line(bytes) {
        bytes.index_of_first_ensures(10u8);
        lemma_rest_is_shorter(bytes.skip(line_len(bytes)), id);
    }
}

proof fn lemma_received(pending: Seq<u8>, blocks: Seq<Seq<u8>>, id: Seq<char>)
    requires
        pending.len() + flat(blocks).len() <= PENDING_LIMIT,
        scan(pending, id).0 is None,
    ensures
        received(pending, blocks, id) == Ok::<Option<JsonView>, Seq<char>>(
            scan(pending + flat(blocks), id).0,
        ),
    decreases blocks.len(),
{
    if blocks.len() == 0 {
        assert(pending + flat(blocks) =~= pending);
    } else {
        let all = pending + blocks[0];
        let later = blocks.drop_first();
        assert(pending + flat(blocks) =~= all + flat(later));
        law_scan_in_pieces(all, flat(later), id);
        lemma_rest_is_shorter(all, id);
        if scan(all, id).0 is None {
            lemma_received(scan(all, id).1, later, id);
        }
    }
}

/// However the same bytes are cut into blocks, also in the middle of a line, the
/// same response is found: the one that all of them hold together.
pub proof fn law_cuts_do_not_matter(blocks: Seq<Seq<u8>>, others: Seq<Seq<u8>>, id: Seq<char>)
    requires
        flat(blocks) == flat(others),
        flat(blocks).len() <= PENDING_LIMIT,
    ensures
        received(Seq::empty(), blocks, id) == Ok::<Option<JsonView>, Seq<char>>(
            scan(flat(blocks), id).0,
        ),
        received(Seq::empty(), others, id) == received(Seq::empty(), blocks, id),
{
    lemma_received(Seq::empty(), blocks, id);
    lemma_received(Seq::empty(), others, id);
    assert(Seq::<u8>::empty() + flat(blocks) =~= flat(blocks));
}

/// The first line that names the request decides: every line before it, without
/// the prefix, not JSON or of another request, is skipped, and so is a half line
/// at the end.
pub proof fn law_first_reply_decides(lines: Seq<Seq<u8>>, half: Seq<u8>, id: Seq<char>)
    requires
        forall|i: int| 0 <= i < lines.len() ==> one_line(#[trigger] lines[i]),
        !has_line(half),
    ensures
        match scan(flat(lines) + half, id).0 {
            Some(v) => exists|i: int|
                {
                    &&& 0 <= i < lines.len()
                    &&& decoded(#[trigger] lines[i]) == Some(v)
                    &&& replies(lines[i], id)
                    &&& forall|j: int| 0 <= j < i ==> !replies(#[trigger] lines[j], id)
                },
            None => forall|i: int| 0 <= i < lines.len() ==> !replies(#[trigger] lines[i], id),
        },
    decreases lines.len(),
{
    if lines.len() == 0 {
        assert(flat(lines) + half =~= half);
    } else {
        let line = lines[0];
        let later = lines.drop_first();
        let rest = flat(later) + half;
        assert(flat(lines) + half =~= line + rest);
        if replies(line, id) {
            law_response_found(line, rest, decoded(line)->0, id);
        } else {
            law_noise_passed_over(line, rest, id);
            assert forall|i: int| 0 <= i < later.len() implies one_line(#[trigger] later[i]) by {
                assert(later[i] == lines[i + 1]);
            }
            law_first_reply_decides(later, half, id);
            match scan(rest, id).0 {
                Some(v) => {
                    let i = choose|i: int|
                        {
                            &&& 0 <= i < later.len()
                            &&& decoded(#[trigger] later[i]) == Some(v)
                            &&& replies(later[i], id)
                            &&& forall|j: int| 0 <= j < i ==> !replies(#[trigger] later[j], id)
                        };
                    assert(lines[i + 1] == later[i]);
                    assert forall|j: int| 0 <= j < i + 1 implies !replies(
                        #[trigger] lines[j],
                        id,
                    ) by {
                        if j > 0 {
                            assert(lines[j] == later[j - 1]);
                        }
                    }
                },
                None => {
                    assert forall|j: int| 0 <= j < lines.len() implies !replies(
                        #[trigger] lines[j],
                        id,
                    ) by {
                        if j > 0 {
                            assert(lines[j] == later[j - 1]);
                        }
                    }
                },
            }
        }
    }
}

/// Whether a response announces that it comes in parts.
pub fn is_multipart(response: &Json) -> (r: bool)
    ensures
        r == (text_of(at(response@, "status"@)) == Some("multipart"@)),
{
    response.is_str("status", "multipart")
}

/// What a response comes to: itself, or the error that it reports.
pub open spec fn settled(response: JsonView) -> Result<JsonView, Seq<char>> {
    if text_of(at(response, "status"@)) == Some("error"@) {
        match text_of(at(response, "message"@)) {
            Some(m) => Err(m),
            None => Err("设备返回未知错误"@),
        }
    } else {
        Ok(response)
    }
}

/// What a response comes to: itself, or the error that it reports.
pub fn settle(response: Json) -> (r: Result<Json, ProtocolError>)
    ensures
        match r {
            Ok(v) => settled(response@) == Ok::<JsonView, Seq<char>>(v@),
            Err(e) => settled(response@) == Err::<JsonView, Seq<char>>(e.0@),
        },
{
    if response.is_str("status", "error") {
        match response.get_str("message") {
            Some(m) => Err(err(m)),
            None => Err(err("设备返回未知错误")),
        }
    } else {
        Ok(response)
    }
}

/// What a command comes to that no response came to.
pub open spec fn no_response() -> Seq<char> {
    "设备未响应：请先在 HoloCubic Launcher 中启动“USB直连显示”应用。"@
}

/// The error of a command that no response came to.
pub fn unanswered() -> (r: ProtocolError)
    ensures
        r.0@ == no_response(),
{
    err("设备未响应：请先在 HoloCubic Launcher 中启动“USB直连显示”应用。")
}

/// What the response to a request turned out to be.
pub enum Reply {
    /// All of it.
    Whole(Json),
    /// The announcement of parts that are to be asked for.
    Parts(Multipart),
}

#[verifier::ext_equal]
pub enum ReplyView {
    Whole(JsonView),
    Parts { size: int, checksum: Seq<char> },
}

/// What a response turns out to be, or why it is none.
pub open spec fn opened(response: JsonView) -> Result<ReplyView, Seq<char>> {
    if text_of(at(response, "status"@)) == Some("multipart"@) {
        match multipart_meta(response) {
            Ok((size, checksum)) => Ok(ReplyView::Parts { size, checksum }),
            Err(e) => Err(e),
        }
    } else {
        match settled(response) {
            Ok(v) => Ok(ReplyView::Whole(v)),
            Err(e) => Err(e),
        }
    }
}

/// Whether a reply is the one that a response turns out to be. Its parts, where it
/// has any, are those of the request, and none of them is there yet.
pub open spec fn is_reply(r: Reply, response: JsonView, id: Seq<char>) -> bool {
    match r {
        Reply::Whole(v) => opened(response) == Ok::<ReplyView, Seq<char>>(ReplyView::Whole(v@)),
        Reply::Parts(m) => {
            &&& m.wf()
            &&& m.token() == id
            &&& m.data() == Seq::<u8>::empty()
            &&& opened(response) == Ok::<ReplyView, Seq<char>>(
                ReplyView::Parts { size: m.size(), checksum: m.checksum() },
            )
        },
    }
}

/// What a response turns out to be, or why it is none.
fn open_response(response: Json, id: &str) -> (r: Result<Reply, ProtocolError>)
    ensures
        match r {
            Ok(reply) => is_reply(reply, response@, id@),
            Err(e) => opened(response@) == Err::<ReplyView, Seq<char>>(e.0@),
        },
{
    if is_multipart(&response) {
        match Multipart::start(&response, id) {
            Ok(m) => Ok(Reply::Parts(m)),
            Err(e) => Err(e),
        }
    } else {
        match settle(response) {
            Ok(v) => Ok(Reply::Whole(v)),
            Err(e) => Err(e),
        }
    }
}

impl Receiver {
    /// Takes what arrived, a part of a line or several, and gives what the response
    /// turns out to be once it is there.
    pub fn reply(&mut self, bytes: &[u8]) -> (r: Result<Option<Reply>, ProtocolError>)
        ensures
            final(self).id() == old(self).id(),
            ({
                let all = old(self).pending() + bytes@;
                if all.len() > PENDING_LIMIT {
                    r matches Err(e) && e.0@ == "USB 回执超过 64KB 上限。"@
                } else {
                    let (found, rest) = scan(all, old(self).id());
                    &&& final(self).pending() == rest
                    &&& match found {
                        None => r matches Ok(None),
                        Some(v) => match r {
                            Ok(Some(reply)) => is_reply(reply, v, old(self).id()),
                            Ok(None) => false,
                            Err(e) => opened(v) == Err::<ReplyView, Seq<char>>(e.0@),
                        },
                    }
                }
            }),
    {
        match self.feed(bytes) {
            Ok(Some(v)) => match open_response(v, self.id.as_str()) {
                Ok(reply) => Ok(Some(reply)),
                Err(e) => Err(e),
            },
            Ok(None) => Ok(None),
            Err(e) => Err(e),
        }
    }
}

/// What a request comes to when blocks arrive one after another until its time is
/// over.
pub open spec fn outcome(blocks: Seq<Seq<u8>>, id: Seq<char>) -> Result<ReplyView, Seq<char>> {
    match received(Seq::empty(), blocks, id) {
        Ok(Some(v)) => opened(v),
        Ok(None) => Err(no_response()),
        Err(e) => Err(e),
    }
}

/// What parts come to, where each is the result of a request of its own, behind
/// those that are there already: the response that they make up, or the first
/// thing that goes wrong.
pub open spec fn gathered(
    data: Seq<u8>,
    size: int,
    checksum: Seq<char>,
    token: Seq<char>,
    parts: Seq<Result<JsonView, Seq<char>>>,
    elapsed_ms: int,
) -> Result<JsonView, Seq<char>>
    decreases parts.len(),
{
    if data.len() >= size {
        match multipart_body(data, checksum, token) {
            Ok(v) => settled(put(v, "_transport_ms"@, JsonView::Int(elapsed_ms))),
            Err(e) => Err(e),
        }
    } else if parts.len() == 0 {
        Err("USB 分块回执超时。"@)
    } else {
        match parts[0] {
            Err(e) => Err(e),
            Ok(part) => match response_part(part, data.len() as int, size - data.len()) {
                None => Err("USB 分块回执顺序或长度不匹配。"@),
                Some(bytes) => gathered(
                    data + bytes,
                    size,
                    checksum,
                    token,
                    parts.drop_first(),
                    elapsed_ms,
                ),
            },
        }
    }
}

/// What a request comes to: the response among the blocks that arrive, or the one
/// that is made up of the parts that it announces.
pub open spec fn request_result(
    blocks: Seq<Seq<u8>>,
    id: Seq<char>,
    parts: Seq<Result<JsonView, Seq<char>>>,
    elapsed_ms: int,
) -> Result<JsonView, Seq<char>> {
    match outcome(blocks, id) {
        Ok(ReplyView::Whole(v)) => Ok(v),
        Ok(ReplyView::Parts { size, checksum }) => gathered(
            Seq::empty(),
            size,
            checksum,
            id,
            parts,
            elapsed_ms,
        ),
        Err(e) => Err(e),
    }
}

/// The first line that names a request decides what it comes to, however the bytes
/// are cut into blocks: what its status calls an error is the error of the request,
/// with its message, and any other response but the announcement of parts is its
/// result.
pub proof fn law_first_reply_is_the_result(
    device: HoloCubicUsb,
    ask: AskView,
    blocks: Seq<Seq<u8>>,
    lines: Seq<Seq<u8>>,
    half: Seq<u8>,
    i: int,
    id: Seq<char>,
    parts: Seq<Result<JsonView, Seq<char>>>,
    elapsed_ms: int,
)
    requires
        forall|j: int| 0 <= j < lines.len() ==> one_line(#[trigger] lines[j]),
        !has_line(half),
        flat(blocks) == flat(lines) + half,
        flat(blocks).len() <= PENDING_LIMIT,
        0 <= i < lines.len(),
        replies(lines[i], id),
        forall|j: int| 0 <= j < i ==> !replies(#[trigger] lines[j], id),
        text_of(at(decoded(lines[i])->0, "status"@)) != Some("multipart"@),
        0 <= device.pos() < device.log().len(),
        device.log()[device.pos()] == reported(request_result(blocks, id, parts, elapsed_ms)),
    ensures
        request_result(blocks, id, parts, elapsed_ms) == settled(decoded(lines[i])->0),
        value_turn(device.log(), device.pos(), ask) == match settled(decoded(lines[i])->0) {
            Ok(v) => Turn::Done(v, device.pos() + 1),
            Err(m) => Turn::Failed(m, device.pos() + 1),
        },
{
    law_cuts_do_not_matter(blocks, blocks, id);
    law_first_reply_decides(lines, half, id);
    let k = choose|k: int|
        {
            &&& 0 <= k < lines.len()
            &&& decoded(#[trigger] lines[k]) == scan(flat(lines) + half, id).0
            &&& replies(lines[k], id)
            &&& forall|j: int| 0 <= j < k ==> !replies(#[trigger] lines[j], id)
        };
    assert(k == i);
}

/// A request to which no line is a response comes to an error that says so.
pub proof fn law_silence_is_an_error(
    blocks: Seq<Seq<u8>>,
    lines: Seq<Seq<u8>>,
    half: Seq<u8>,
    id: Seq<char>,
    parts: Seq<Result<JsonView, Seq<char>>>,
    elapsed_ms: int,
)
    requires
        forall|j: int| 0 <= j < lines.len() ==> one_line(#[trigger] lines[j]),
        !has_line(half),
        flat(blocks) == flat(lines) + half,
        flat(blocks).len() <= PENDING_LIMIT,
        forall|j: int| 0 <= j < lines.len() ==> !replies(#[trigger] lines[j], id),
    ensures
        request_result(blocks, id, parts, elapsed_ms) == Err::<JsonView, Seq<char>>(no_response()),
{
    law_cuts_do_not_matter(blocks, blocks, id);
    law_first_reply_decides(lines, half, id);
}

/// A response that comes in parts, as far as it has come.
pub struct Multipart {
    token: String,
    size: usize,
    checksum: String,
    data: Vec<u8>,
}

impl Multipart {
    pub closed spec fn token(&self) -> Seq<char> {
        self.token@
    }

    pub closed spec fn size(&self) -> int {
        self.size as int
    }

    pub closed spec fn checksum(&self) -> Seq<char> {
        self.checksum@
    }

    pub closed spec fn data(&self) -> Seq<u8> {
        self.data@
    }

    /// No more bytes than were announced.
    pub open spec fn wf(&self) -> bool {
        1 <= self.size() <= 16384 && self.data().len() <= self.size()
    }

    /// The header of a response to the request `token`.
    pub fn start(header: &Json, token: &str) -> (r: Result<Self, ProtocolError>)
        ensures
            match r {
                Ok(m) => m.wf() && m.token() == token@ && m.data() == Seq::<u8>::empty()
                    && multipart_meta(header@) == Ok::<(int, Seq<char>), Seq<char>>(
                    (m.size(), m.checksum()),
                ),
                Err(e) => multipart_meta(header@) == Err::<(int, Seq<char>), Seq<char>>(e.0@),
            },
    {
        match validate_multipart_meta(header) {
            Ok((size, checksum)) => Ok(
                Multipart { token: token.to_owned(), size, checksum, data: Vec::new() },
            ),
            Err(e) => Err(e),
        }
    }

    /// The command for the next part; `None` when all parts are there.
    pub fn next(&self, remaining_ms: u64) -> (r: Result<Option<Json>, ProtocolError>)
        requires
            self.wf(),
        ensures
            match r {
                Ok(Some(ask)) => self.data().len() < self.size() && remaining_ms > 0 && ask@ == put(
                    put(
                        plain_command("response_read"@),
                        "token"@,
                        JsonView::Str(self.token()),
                    ),
                    "offset"@,
                    JsonView::Int(self.data().len() as int),
                ),
                Ok(None) => self.data().len() == self.size(),
                Err(e) => self.data().len() < self.size() && remaining_ms == 0 && e.0@
                    == "USB 分块回执超时。"@,
            },
    {
        if self.data.len() >= self.size {
            return Ok(None);
        }
        if remaining_ms == 0 {
            return Err(err("USB 分块回执超时。"));
        }
        Ok(
            Some(
                command("response_read").with("token", Json::text(self.token.as_str())).with(
                    "offset",
                    Json::Uint(self.data.len() as u64),
                ),
            ),
        )
    }

    /// Takes the next part: each one that is accepted brings the response
    /// nearer to its end and never beyond it.
    pub fn accept(&mut self, part: &Json) -> (r: Result<(), ProtocolError>)
        requires
            old(self).wf(),
        ensures
            final(self).wf(),
            final(self).token() == old(self).token(),
            final(self).size() == old(self).size(),
            final(self).checksum() == old(self).checksum(),
            ({
                let got = response_part(
                    part@,
                    old(self).data().len() as int,
                    old(self).size() - old(self).data().len(),
                );
                match r {
                    Ok(_) => got is Some && final(self).data() == old(self).data() + got->0
                        && final(self).data().len() > old(self).data().len(),
                    Err(e) => got is None && final(self).data() == old(self).data() && e.0@
                        == "USB 分块回执顺序或长度不匹配。"@,
                }
            }),
    {
        match decode_response_part(part, self.data.len(), self.size - self.data.len()) {
            Ok(bytes) => {
                let ghost before = self.data@;
                self.data.extend_from_slice(bytes.as_slice());
                assert(self.data@ =~= before + bytes@);
                Ok(())
            },
            Err(e) => Err(e),
        }
    }

    /// The whole response, with the time that the parts took.
    pub fn finish(&self, elapsed_ms: u64) -> (r: Result<Json, ProtocolError>)
        ensures
            match r {
                Ok(v) => {
                    let body = multipart_body(self.data(), self.checksum(), self.token());
                    body is Ok && v@ == put(
                        body->Ok_0,
                        "_transport_ms"@,
                        JsonView::Int(elapsed_ms as int),
                    )
                },
                Err(e) => multipart_body(self.data(), self.checksum(), self.token()) == Err::<
                    JsonView,
                    Seq<char>,
                >(e.0@),
            },
    {
        match assemble_multipart_body(
            self.data.as_slice(),
            self.checksum.as_str(),
            self.token.as_str(),
        ) {
            Ok(body) => Ok(body.with("_transport_ms", Json::Uint(elapsed_ms))),
            Err(e) => Err(e),
        }
    }

    /// What the whole response comes to: itself, or the error that it reports.
    pub fn end(&self, elapsed_ms: u64) -> (r: Result<Json, ProtocolError>)
        requires
            self.wf(),
            self.data().len() == self.size(),
        ensures
            ({
                let all = gathered(
                    self.data(),
                    self.size(),
                    self.checksum(),
                    self.token(),
                    Seq::empty(),
                    elapsed_ms as int,
                );
                match r {
                    Ok(v) => all == Ok::<JsonView, Seq<char>>(v@),
                    Err(e) => all == Err::<JsonView, Seq<char>>(e.0@),
                }
            }),
    {
        match self.finish(elapsed_ms) {
            Ok(v) => settle(v),
            Err(e) => Err(e),
        }
    }
}

/// A body that the device hands out in parts is accepted part by part, and the
/// parts that were accepted are always the beginning of the body.
pub proof fn law_parts_make_the_body(part: JsonView, body: Seq<u8>, i: int)
    requires
        0 <= i < chunk_count(body.len()),
        body.len() <= 16384,
        text_of(at(part, "status"@)) == Some("part"@),
        u64_of(at(part, "offset"@)) == Some((96 * i) as u64),
        text_of(at(part, "data"@)) is Some,
        b64_decoded(text_of(at(part, "data"@))->0) == Some(chunk(body, i)),
    ensures
        response_part(part, 96 * i, body.len() - 96 * i) == Some(chunk(body, i)),
        body.take(96 * i) + chunk(body, i) == body.take(96 * i + chunk(body, i).len()),
        i + 1 == chunk_count(body.len()) ==> 96 * i + chunk(body, i).len() == body.len(),
{
    assert(body.take(96 * i) + chunk(body, i) =~= body.take(96 * i + chunk(body, i).len()));
}

/// Whether a part is the one with a number among those of a body.
pub open spec fn is_part(part: JsonView, body: Seq<u8>, i: int) -> bool {
    &&& text_of(at(part, "status"@)) == Some("part"@)
    &&& u64_of(at(part, "offset"@)) == Some((96 * i) as u64)
    &&& text_of(at(part, "data"@)) is Some
    &&& b64_decoded(text_of(at(part, "data"@))->0) == Some(chunk(body, i))
}

proof fn lemma_gathered(
    body: Seq<u8>,
    n: int,
    checksum: Seq<char>,
    token: Seq<char>,
    parts: Seq<Result<JsonView, Seq<char>>>,
    elapsed_ms: int,
)
    requires
        1 <= body.len() <= 16384,
        0 <= n <= chunk_count(body.len()),
        parts.len() == chunk_count(body.len()) - n,
        forall|i: int|
            0 <= i < parts.len() ==> (#[trigger] parts[i]) is Ok && is_part(
                parts[i]->Ok_0,
                body,
                n + i,
            ),
    ensures
        gathered(
            if n == chunk_count(body.len()) {
                body
            } else {
                body.take(96 * n)
            },
            body.len() as int,
            checksum,
            token,
            parts,
            elapsed_ms,
        ) == match multipart_body(body, checksum, token) {
            Ok(v) => settled(put(v, "_transport_ms"@, JsonView::Int(elapsed_ms))),
            Err(e) => Err(e),
        },
    decreases parts.len(),
{
    if parts.len() > 0 {
        let part = parts[0]->Ok_0;
        assert(is_part(part, body, n + 0));
        law_parts_make_the_body(part, body, n);
        let later = parts.drop_first();
        assert forall|i: int| 0 <= i < later.len() implies (#[trigger] later[i]) is Ok && is_part(
            later[i]->Ok_0,
            body,
            n + 1 + i,
        ) by {
            assert(later[i] == parts[i + 1]);
        }
        lemma_gathered(body, n + 1, checksum, token, later, elapsed_ms);
        let so_far = body.take(96 * n) + chunk(body, n);
        if n + 1 == chunk_count(body.len()) {
            assert(so_far =~= body);
        } else {
            assert(so_far =~= body.take(96 * (n + 1)));
        }
    }
}

/// A response that is handed out in parts, each in its turn, comes to what it says
/// as a whole.
pub proof fn law_parts_are_the_result(
    body: Seq<u8>,
    token: Seq<char>,
    parts: Seq<Result<JsonView, Seq<char>>>,
    elapsed_ms: int,
    v: JsonView,
)
    requires
        1 <= body.len() <= 16384,
        parts.len() == chunk_count(body.len()),
        forall|i: int|
            0 <= i < parts.len() ==> (#[trigger] parts[i]) is Ok && is_part(
                parts[i]->Ok_0,
                body,
                i,
            ),
        json_of_bytes(body) == Some(v),
        text_of(at(v, "id"@)) == Some(token),
    ensures
        gathered(Seq::empty(), body.len() as int, crc_hex(body), token, parts, elapsed_ms)
            == settled(put(v, "_transport_ms"@, JsonView::Int(elapsed_ms))),
{
    assert(body.take(0) =~= Seq::<u8>::empty());
    lemma_gathered(body, 0, crc_hex(body), token, parts, elapsed_ms);
}

/// Repeating the handshake: how long to go on, and what to report in the end.
pub struct Readiness {
    timeout_ms: u64,
    last_error: Option<ProtocolError>,
}

/// What to do about the handshake next.
pub enum ReadyStep {
    /// Send hello and wait this long for the response.
    Hello { command: Json, timeout_ms: u64 },
    /// Stop with this error.
    GiveUp(ProtocolError),
}

/// The pause after a handshake that failed.
pub const READY_PAUSE_MS: u64 = 200;

impl Readiness {
    pub closed spec fn timeout(&self) -> u64 {
        self.timeout_ms
    }

    pub closed spec fn error(&self) -> Option<Seq<char>> {
        match self.last_error {
            Some(e) => Some(e.0@),
            None => None,
        }
    }

    /// No handshake was tried yet.
    pub fn new(timeout_ms: u64) -> (r: Self)
        ensures
            r.timeout() == timeout_ms,
            r.error() is None,
    {
        Readiness { timeout_ms, last_error: None }
    }

    /// Tries again as long as there is time, then reports the last error.
    pub fn next(&self, elapsed_ms: u64) -> (r: ReadyStep)
        ensures
            match r {
                ReadyStep::Hello { command, timeout_ms } => elapsed_ms < self.timeout() && command@
                    == plain_command("hello"@) && timeout_ms == 1500,
                ReadyStep::GiveUp(e) => elapsed_ms >= self.timeout() && e.0@ == match self.error() {
                    Some(m) => m,
                    None => "设备未就绪。"@,
                },
            },
    {
        if elapsed_ms < self.timeout_ms {
            return ReadyStep::Hello { command: command("hello"), timeout_ms: 1500 };
        }
        match &self.last_error {
            Some(e) => ReadyStep::GiveUp(e.clone()),
            None => ReadyStep::GiveUp(err("设备未就绪。")),
        }
    }

    /// Notes why a handshake failed.
    pub fn failed(&mut self, error: ProtocolError)
        ensures
            final(self).timeout() == old(self).timeout(),
            final(self).error() == Some(error.0@),
    {
        self.last_error = Some(error);
    }
}

/// Two requests that are made at different times, or that have different
/// numbers, have different names: no response is taken for that of another.
pub proof fn law_requests_have_names_of_their_own(t1: nat, n1: nat, t2: nat, n2: nat)
    requires
        request_name(t1, n1) == request_name(t2, n2),
    ensures
        t1 == t2,
        n1 == n2,
{
    law_decimal_reads_back(t1);
    law_decimal_reads_back(t2);
    law_decimal_reads_back(n1);
    law_decimal_reads_back(n2);
    reveal_strlit("-");
    let a = decimal(t1);
    let b = decimal(t2);
    let s = request_name(t1, n1);
    assert(s[a.len() as int] == '-');
    assert(request_name(t2, n2)[b.len() as int] == '-');
    if a.len() < b.len() {
        assert(s[a.len() as int] == b[a.len() as int]);
        assert(false);
    }
    if b.len() < a.len() {
        assert(s[b.len() as int] == a[b.len() as int]);
        assert(false);
    }
    assert(s.take(a.len() as int) =~= a);
    assert(s.take(b.len() as int) =~= b);
    assert(s.skip(a.len() as int + 1) =~= decimal(n1));
    assert(s.skip(b.len() as int + 1) =~= decimal(n2));
}

/// A response that calls itself an error is the error that it tells, and any other one
/// is the result as it stands.
pub proof fn law_responses_are_settled(response: JsonView)
    ensures
        at(response, "status"@) != Some(JsonView::Str("error"@)) ==> settled(response) == Ok::<
            JsonView,
            Seq<char>,
        >(response),
        at(response, "status"@) == Some(JsonView::Str("error"@)) ==> settled(response) is Err,
        at(response, "status"@) == Some(JsonView::Str("error"@)) && text_of(
            at(response, "message"@),
        ) is Some ==> settled(response)->Err_0 == text_of(at(response, "message"@))->0,
{
}

/// The name of a request is the time and the number, in decimal, with a dash between.
pub proof fn law_request_names_time_and_number(now_ms: nat, number: nat)
    ensures
        ({
            let name = request_name(now_ms, number);
            let n = decimal(now_ms).len() as int;
            &&& name.take(n) == decimal(now_ms)
            &&& name[n] == '-'
            &&& name.skip(n + 1) == decimal(number)
        }),
{
    reveal_strlit("-");
    let name = request_name(now_ms, number);
    let n = decimal(now_ms).len() as int;
    assert(name.take(n) =~= decimal(now_ms));
    assert(name.skip(n + 1) =~= decimal(number));
}

/// A response in parts says how long its transport took, in milliseconds; the rest of
/// it is what the parts say.
pub proof fn law_transport_time_is_told(
    data: Seq<u8>,
    size: int,
    checksum: Seq<char>,
    token: Seq<char>,
    parts: Seq<Result<JsonView, Seq<char>>>,
    elapsed_ms: int,
)
    requires
        data.len() >= size,
    ensures
        gathered(data, size, checksum, token, parts, elapsed_ms) matches Ok(v) ==> {
            &&& crc_hex(data) == checksum
            &&& json_of_bytes(data) matches Some(said)
            &&& at(said, "id"@) == Some(JsonView::Str(token))
            &&& at(v, "_transport_ms"@) == Some(JsonView::Int(elapsed_ms))
            &&& forall|k: Seq<char>| k != "_transport_ms"@ ==> #[trigger] at(v, k) == at(said, k)
        },
{
}

} // verus!
