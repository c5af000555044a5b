//! Which model and effort a task used last: reading the log of the task,
//! forward from where the last reading ended or backward from its end.

use vstd::prelude::*;
use vstd::utf8::encode_utf8;

use crate::json::{at, empty_object, put, read, text_of, u64_of, Json, JsonView};
use crate::outside::json_read;

verus! {

/// Whether `needle` stands at `i` in `bytes`.
pub open spec fn stands_at(bytes: Seq<u8>, needle: Seq<u8>, i: int) -> bool {
    0 <= i && i + needle.len() <= bytes.len() && bytes.subrange(i, i + needle.len()) == needle
}

/// Whether `needle` occurs in `bytes`.
pub open spec fn occurs(bytes: Seq<u8>, needle: Seq<u8>) -> bool {
    exists|i: int| stands_at(bytes, needle, i)
}

fn found(bytes: &[u8], needle: &[u8]) -> (r: bool)
    ensures
        r == occurs(bytes@, needle@),
{
    let n = bytes.len();
    if needle.len() > n {
        return false;
    }
    let places: usize = n - needle.len();
    let mut i: usize = 0;
    loop
        invariant
            n == bytes@.len(),
            places + needle@.len() == n,
            i <= places,
            forall|k: int| 0 <= k < i ==> !stands_at(bytes@, needle@, k),
        decreases places - i,
    {
        let mut j: usize = 0;
        while j < needle.len() && bytes[i + j] == needle[j]
            invariant
                n == bytes@.len(),
                i + needle@.len() <= n,
                j <= needle@.len(),
                forall|k: int| 0 <= k < j ==> bytes@[i + k] == needle@[k],
            decreases needle@.len() - j,
        {
            j += 1;
        }
        if j == needle.len() {
            assert(bytes@.subrange(i as int, i + needle@.len()) =~= needle@);
            assert(stands_at(bytes@, needle@, i as int));
            return true;
        }
        proof {
            if stands_at(bytes@, needle@, i as int) {
                assert(bytes@.subrange(i as int, i + needle@.len())[j as int] == bytes@[i + j]);
            }
        }
        if i == places {
            return false;
        }
        i += 1;
    }
}

/// The bytes in which the type of a record is looked for.
pub open spec fn head(line: Seq<u8>) -> Seq<u8> {
    line.take(
        if line.len() < 180 {
            line.len() as int
        } else {
            180
        },
    )
}

/// Whether a line looks like a record of the model in use.
pub open spec fn looks_like_context(line: Seq<u8>) -> bool {
    occurs(head(line), encode_utf8("\"type\":\"turn_context\""@)) || occurs(
        head(line),
        encode_utf8("\"type\": \"turn_context\""@),
    )
}

/// The model and effort that a record names.
pub open spec fn named_context(item: JsonView) -> Result<Option<JsonView>, Seq<char>> {
    if text_of(at(item, "type"@)) != Some("turn_context"@) {
        Ok(None)
    } else {
        match at(item, "payload"@) {
            None => Err("模型/强度字段无效"@),
            Some(payload) => match text_of(at(payload, "model"@)) {
                None => Err("模型/强度字段无效"@),
                Some(model) => if model.len() == 0 {
                    Err("模型/强度字段无效"@)
                } else {
                    match at(payload, "effort"@) {
                        None => Ok(Some(context(model, "unknown"@))),
                        Some(JsonView::Null) => Ok(Some(context(model, "unknown"@))),
                        Some(JsonView::Str(effort)) => Ok(Some(context(model, effort))),
                        Some(_) => Err("模型/强度字段无效"@),
                    }
                },
            },
        }
    }
}

/// A model with its effort.
pub open spec fn context(model: Seq<char>, effort: Seq<char>) -> JsonView {
    put(
        put(empty_object(), "model"@, JsonView::Str(model)),
        "effort"@,
        JsonView::Str(effort),
    )
}

/// The model and effort that a line names, `None` for a line of another kind.
pub open spec fn line_context(line: Seq<u8>) -> Result<Option<JsonView>, Seq<char>> {
    if !looks_like_context(line) {
        Ok(None)
    } else {
        match json_read(line) {
            Ok(item) => named_context(item),
            Err(e) => Err(e),
        }
    }
}

/// The model and effort that a record names.
pub fn context_of(item: &Json) -> (r: Result<Option<Json>, String>)
    ensures
        match r {
            Ok(Some(v)) => named_context(item@) == Ok::<Option<JsonView>, Seq<char>>(Some(v@)),
            Ok(None) => named_context(item@) == Ok::<Option<JsonView>, Seq<char>>(None),
            Err(e) => named_context(item@) == Err::<Option<JsonView>, Seq<char>>(e@),
        },
{
    if !item.is_str("type", "turn_context") {
        return Ok(None);
    }
    let payload = match item.get("payload") {
        Some(p) => p,
        None => {
            return Err("模型/强度字段无效".to_owned());
        },
    };
    let model = match payload.get_str("model") {
        Some(m) => m,
        None => {
            return Err("模型/强度字段无效".to_owned());
        },
    };
    if model.is_empty() {
        return Err("模型/强度字段无效".to_owned());
    }
    let effort = match payload.get("effort") {
        None => "unknown",
        Some(v) => match v.as_str() {
            Some(s) => s,
            None => {
                if !v.is_null() {
                    return Err("模型/强度字段无效".to_owned());
                }
                "unknown"
            },
        },
    };
    Ok(Some(Json::object().with("model", Json::text(model)).with("effort", Json::text(effort))))
}

/// The model and effort that a line names, `None` for a line of another kind.
pub fn context_line(line: &[u8]) -> (r: Result<Option<Json>, String>)
    ensures
        match r {
            Ok(Some(v)) => line_context(line@) == Ok::<Option<JsonView>, Seq<char>>(Some(v@)),
            Ok(None) => line_context(line@) == Ok::<Option<JsonView>, Seq<char>>(None),
            Err(e) => line_context(line@) == Err::<Option<JsonView>, Seq<char>>(e@),
        },
{
    let n: usize = if line.len() < 180 {
        line.len()
    } else {
        180
    };
    let start = vstd::slice::slice_subrange(line, 0, n);
    assert(start@ =~= head(line@));
    if !found(start, "\"type\":\"turn_context\"".as_bytes()) && !found(
        start,
        "\"type\": \"turn_context\"".as_bytes(),
    ) {
        return Ok(None);
    }
    match read(line) {
        Ok(item) => context_of(&item),
        Err(e) => Err(e),
    }
}

/// The pieces between newlines, one more than there are newlines.
pub open spec fn pieces(bytes: Seq<u8>) -> Seq<Seq<u8>>
    decreases bytes.len(),
{
    if bytes.len() == 0 {
        seq![Seq::empty()]
    } else {
        let rest = pieces(bytes.drop_last());
        if bytes.last() == 10 {
            rest.push(Seq::empty())
        } else {
            rest.update(rest.len() - 1, rest.last().push(bytes.last()))
        }
    }
}

/// How many bytes come before the end of the last line that is complete.
pub open spec fn complete_len(bytes: Seq<u8>) -> int
    decreases bytes.len(),
{
    if bytes.len() == 0 {
        0
    } else if bytes.last() == 10 {
        bytes.len() as int
    } else {
        complete_len(bytes.drop_last())
    }
}

/// The latest context in some lines, read in order: an earlier one, which may
/// be none, until a line names another. The first bad line is an error.
pub open spec fn forward(lines: Seq<Seq<u8>>, earlier: JsonView) -> Result<JsonView, Seq<char>>
    decreases lines.len(),
{
    if lines.len() == 0 {
        Ok(earlier)
    } else {
        match forward(lines.drop_last(), earlier) {
            Err(e) => Err(e),
            Ok(latest) => if lines.last().len() == 0 {
                Ok(latest)
            } else {
                match line_context(lines.last()) {
                    Err(e) => Err(e),
                    Ok(Some(v)) => Ok(v),
                    Ok(None) => Ok(latest),
                }
            },
        }
    }
}

/// The latest context in some lines, read from the last one back.
pub open spec fn backward(lines: Seq<Seq<u8>>) -> Result<Option<JsonView>, Seq<char>>
    decreases lines.len(),
{
    if lines.len() == 0 {
        Ok(None)
    } else if lines.last().len() == 0 {
        backward(lines.drop_last())
    } else {
        match line_context(lines.last()) {
            Err(e) => Err(e),
            Ok(Some(v)) => Ok(Some(v)),
            Ok(None) => backward(lines.drop_last()),
        }
    }
}

/// The contents of a list of lines.
pub open spec fn line_views(v: Seq<Vec<u8>>) -> Seq<Seq<u8>> {
    Seq::new(v.len(), |i: int| v[i]@)
}

proof fn lemma_pieces_some(bytes: Seq<u8>)
    ensures
        pieces(bytes).len() >= 1,
    decreases bytes.len(),
{
    if bytes.len() > 0 {
        lemma_pieces_some(bytes.drop_last());
    }
}

/// Splits bytes at the newlines.
pub fn split_lines(bytes: &[u8]) -> (r: Vec<Vec<u8>>)
    ensures
        line_views(r@) == pieces(bytes@),
        r@.len() >= 1,
{
    let mut done: Vec<Vec<u8>> = Vec::new();
    let mut current: Vec<u8> = Vec::new();
    let mut i: usize = 0;
    proof {
        assert(bytes@.take(0) =~= Seq::empty());
        assert(line_views(done@).push(current@) =~= seq![Seq::<u8>::empty()]);
    }
    while i < bytes.len()
        invariant
            i <= bytes@.len(),
            line_views(done@).push(current@) == pieces(bytes@.take(i as int)),
        decreases bytes@.len() - i,
    {
        let ghost before = line_views(done@);
        let ghost last = current@;
        proof {
            assert(bytes@.take(i as int + 1).drop_last() =~= bytes@.take(i as int));
            assert(bytes@.take(i as int + 1).last() == bytes@[i as int]);
        }
        if bytes[i] == 10 {
            let mut full: Vec<u8> = Vec::new();
            full.append(&mut current);
            done.push(full);
            proof {
                assert(full@ =~= last);
                assert(line_views(done@) =~= before.push(last));
                assert(line_views(done@).push(current@) =~= before.push(last).push(
                    Seq::<u8>::empty(),
                ));
            }
        } else {
            current.push(bytes[i]);
            proof {
                let rest = before.push(last);
                assert(rest.update(rest.len() - 1, rest.last().push(bytes@[i as int]))
                    =~= before.push(current@));
            }
        }
        i += 1;
    }
    let ghost before = line_views(done@);
    done.push(current);
    proof {
        assert(bytes@.take(bytes@.len() as int) =~= bytes@);
        assert(line_views(done@) =~= before.push(current@));
    }
    done
}

fn complete_bytes(bytes: &[u8]) -> (r: usize)
    ensures
        r == complete_len(bytes@),
        r <= bytes@.len(),
{
    let mut i: usize = bytes.len();
    assert(bytes@.take(i as int) =~= bytes@);
    while i > 0
        invariant
            i <= bytes@.len(),
            complete_len(bytes@) == complete_len(bytes@.take(i as int)),
        decreases i,
    {
        assert(bytes@.take(i as int).drop_last() =~= bytes@.take(i - 1));
        if bytes[i - 1] == 10 {
            return i;
        }
        i -= 1;
    }
    0
}

proof fn lemma_forward_fail(lines: Seq<Seq<u8>>, earlier: JsonView, n: int)
    requires
        0 <= n <= lines.len(),
        forward(lines.take(n), earlier) is Err,
    ensures
        forward(lines, earlier) == forward(lines.take(n), earlier),
    decreases lines.len() - n,
{
    if n < lines.len() {
        assert(lines.take(n + 1).drop_last() =~= lines.take(n));
        lemma_forward_fail(lines, earlier, n + 1);
    } else {
        assert(lines.take(n) =~= lines);
    }
}

/// What was added to a log since it was last read: the latest context, and how
/// many bytes of it were complete lines.
pub fn scan_forward(block: &[u8], earlier: Json) -> (r: Result<(Json, usize), String>)
    ensures
        match r {
            Ok((latest, complete)) => complete == complete_len(block@) && forward(
                pieces(block@.take(complete_len(block@))),
                earlier@,
            ) == Ok::<JsonView, Seq<char>>(latest@),
            Err(e) => forward(pieces(block@.take(complete_len(block@))), earlier@) == Err::<
                JsonView,
                Seq<char>,
            >(e@),
        },
{
    let complete = complete_bytes(block);
    let part = vstd::slice::slice_subrange(block, 0, complete);
    assert(part@ =~= block@.take(complete as int));
    let lines = split_lines(part);
    let ghost all = line_views(lines@);
    let ghost start = earlier@;
    let mut latest = earlier;
    let mut i: usize = 0;
    assert(all.take(0) =~= Seq::empty());
    while i < lines.len()
        invariant
            i <= lines@.len(),
            all == line_views(lines@),
            all == pieces(block@.take(complete_len(block@))),
            start == earlier@,
            forward(all.take(i as int), start) == Ok::<JsonView, Seq<char>>(latest@),
        decreases lines@.len() - i,
    {
        proof {
            assert(all.take(i as int + 1).drop_last() =~= all.take(i as int));
            assert(all.take(i as int + 1).last() == lines@[i as int]@);
        }
        if lines[i].len() > 0 {
            match context_line(lines[i].as_slice()) {
                Ok(Some(v)) => {
                    latest = v;
                },
                Ok(None) => {},
                Err(e) => {
                    proof {
                        lemma_forward_fail(all, start, i as int + 1);
                    }
                    return Err(e);
                },
            }
        }
        i += 1;
    }
    assert(all.take(all.len() as int) =~= all);
    Ok((latest, complete))
}

/// The latest context in the lines from `from` on.
fn search_back(lines: &Vec<Vec<u8>>, from: usize) -> (r: Result<Option<Json>, String>)
    requires
        from <= lines@.len(),
    ensures
        match r {
            Ok(Some(v)) => backward(line_views(lines@).skip(from as int)) == Ok::<
                Option<JsonView>,
                Seq<char>,
            >(Some(v@)),
            Ok(None) => backward(line_views(lines@).skip(from as int)) == Ok::<
                Option<JsonView>,
                Seq<char>,
            >(None),
            Err(e) => backward(line_views(lines@).skip(from as int)) == Err::<
                Option<JsonView>,
                Seq<char>,
            >(e@),
        },
{
    let ghost all = line_views(lines@).skip(from as int);
    let mut i: usize = lines.len();
    assert(all.take(i - from) =~= all);
    while i > from
        invariant
            from <= i <= lines@.len(),
            all == line_views(lines@).skip(from as int),
            backward(all) == backward(all.take(i - from)),
        decreases i,
    {
        proof {
            assert(all.take(i - from).drop_last() =~= all.take(i - 1 - from));
            assert(all.take(i - from).last() == lines@[i - 1]@);
        }
        i -= 1;
        if lines[i].len() > 0 {
            match context_line(lines[i].as_slice()) {
                Ok(Some(v)) => {
                    return Ok(Some(v));
                },
                Ok(None) => {},
                Err(e) => {
                    return Err(e);
                },
            }
        }
    }
    assert(all.take(0) =~= Seq::empty());
    Ok(None)
}

/// How much of a log is read at once.
pub const BLOCK_SIZE: u64 = 1048576;

/// Reading a log backward, block by block, until a context is found.
pub struct BackwardScan {
    position: u64,
    tail: Vec<u8>,
    latest: Option<Json>,
    offset: u64,
    first: bool,
}

/// How far a backward reading has come: where the next block ends, the start
/// of a line that the next block completes, the context once it is found, where
/// the complete lines end, and whether no line has ended yet. Until one has,
/// everything that was read belongs to a line that is not complete.
#[verifier::ext_equal]
pub struct ScanView {
    pub position: int,
    pub tail: Seq<u8>,
    pub latest: Option<JsonView>,
    pub offset: int,
    pub first: bool,
}

impl View for BackwardScan {
    type V = ScanView;

    closed spec fn view(&self) -> ScanView {
        ScanView {
            position: self.position as int,
            tail: self.tail@,
            latest: match self.latest {
                Some(v) => Some(v@),
                None => None,
            },
            offset: self.offset as int,
            first: self.first,
        }
    }
}

/// What is split into lines of a block: until a line has ended, the bytes up to
/// the last newline of the block; then the block together with what it completes.
pub open spec fn block_bytes(s: ScanView, block: Seq<u8>) -> Seq<u8> {
    if s.first {
        block.take(complete_len(block))
    } else {
        block + s.tail
    }
}

/// A reading at the end of a log of `size` bytes.
pub open spec fn scan_start(size: int) -> ScanView {
    ScanView { position: size, tail: Seq::empty(), latest: None, offset: size, first: true }
}

/// A reading with one more block: unless the block is the beginning of the
/// log, its first line may be incomplete and waits for the next one.
pub open spec fn fed(s: ScanView, block: Seq<u8>) -> Result<ScanView, Seq<char>> {
    let position = s.position - block.len();
    let lines = pieces(block_bytes(s, block));
    match backward(
        if position > 0 {
            lines.drop_first()
        } else {
            lines
        },
    ) {
        Err(e) => Err(e),
        Ok(latest) => Ok(
            ScanView {
                position,
                tail: if position > 0 {
                    lines[0]
                } else {
                    Seq::empty()
                },
                latest,
                offset: if s.first {
                    position + complete_len(block)
                } else {
                    s.offset
                },
                first: s.first && complete_len(block) == 0,
            },
        ),
    }
}

impl BackwardScan {
    /// Starts at the end of a log.
    pub fn new(size: u64) -> (r: Self)
        ensures
            r@ == scan_start(size as int),
    {
        let r = BackwardScan {
            position: size,
            tail: Vec::new(),
            latest: None,
            offset: size,
            first: true,
        };
        assert(r@.tail =~= Seq::empty());
        r
    }

    /// The block to read next, as its start and length; `None` when a context
    /// was found or the log is read to its beginning.
    pub fn wanted(&self) -> (r: Option<(u64, u64)>)
        ensures
            match r {
                Some((start, len)) => self@.position > 0 && self@.latest is None && len > 0 && len
                    <= BLOCK_SIZE && start + len == self@.position && (len == BLOCK_SIZE || start
                    == 0),
                None => self@.position == 0 || self@.latest is Some,
            },
    {
        if self.position == 0 || self.latest.is_some() {
            return None;
        }
        let len: u64 = if self.position < BLOCK_SIZE {
            self.position
        } else {
            BLOCK_SIZE
        };
        Some((self.position - len, len))
    }

    /// Takes the block that was asked for.
    pub fn feed(&mut self, block: &[u8]) -> (r: Result<(), String>)
        requires
            block@.len() <= old(self)@.position,
        ensures
            match r {
                Ok(_) => fed(old(self)@, block@) == Ok::<ScanView, Seq<char>>(final(self)@),
                Err(e) => fed(old(self)@, block@) == Err::<ScanView, Seq<char>>(e@),
            },
    {
        let ghost start = self@;
        let position: u64 = self.position - block.len() as u64;
        let complete = complete_bytes(block);
        let bytes: Vec<u8> = if self.first {
            vstd::slice::slice_to_vec(vstd::slice::slice_subrange(block, 0, complete))
        } else {
            let mut both = vstd::slice::slice_to_vec(block);
            both.append(&mut self.tail);
            both
        };
        assert(bytes@ =~= block_bytes(start, block@));
        let lines = split_lines(bytes.as_slice());
        let from: usize = if position > 0 {
            1
        } else {
            0
        };
        proof {
            assert(line_views(lines@).skip(0) =~= line_views(lines@));
            assert(line_views(lines@).skip(1) =~= line_views(lines@).drop_first());
        }
        let latest = search_back(&lines, from)?;
        let tail: Vec<u8> = if position > 0 {
            vstd::slice::slice_to_vec(lines[0].as_slice())
        } else {
            Vec::new()
        };
        assert(position > 0 ==> tail@ == line_views(lines@)[0]);
        if self.first {
            self.offset = position + complete as u64;
            self.first = complete == 0;
        }
        self.position = position;
        self.tail = tail;
        self.latest = latest;
        Ok(())
    }

    /// The context that was found, and where the complete lines end.
    pub fn finish(self) -> (r: Result<(Json, u64), String>)
        ensures
            match r {
                Ok((v, offset)) => self@.latest == Some(v@) && offset == self@.offset,
                Err(e) => self@.latest is None && e@ == "任务尚无模型记录"@,
            },
    {
        match self.latest {
            Some(v) => Ok((v, self.offset)),
            None => Err("任务尚无模型记录".to_owned()),
        }
    }
}

/// How to read a log: on from where complete lines ended the last time, or
/// backward from its end.
#[derive(Debug, Clone, Copy, PartialEq, Eq, Structural)]
pub enum ScanPlan {
    Forward { offset: u64 },
    Backward,
}

/// How a log is read, given what is remembered of it: on from where its complete lines
/// ended, where it is the same file and not shorter, else from its end.
pub open spec fn plan_of(previous: JsonView, inode: u64, size: u64) -> ScanPlan {
    match (u64_of(at(previous, "inode"@)), u64_of(at(previous, "offset"@))) {
        (Some(known), Some(offset)) => if known == inode && offset <= size {
            ScanPlan::Forward { offset }
        } else {
            ScanPlan::Backward
        },
        _ => ScanPlan::Backward,
    }
}

/// The context that was known before, null without one.
pub open spec fn context_known(previous: JsonView) -> JsonView {
    match at(previous, "context"@) {
        Some(v) => v,
        None => JsonView::Null,
    }
}

/// What is remembered of a log: which file it is, where its complete lines end and the
/// latest context.
pub open spec fn record_of(inode: u64, offset: u64, latest: JsonView) -> JsonView {
    put(
        put(
            put(empty_object(), "inode"@, JsonView::Int(inode as int)),
            "offset"@,
            JsonView::Int(offset as int),
        ),
        "context"@,
        latest,
    )
}

/// Chooses how to read a log of `size` bytes: forward where it is still the
/// file that was read before and has not become shorter.
pub fn plan_scan(previous: &Json, inode: u64, size: u64) -> (r: ScanPlan)
    ensures
        r == plan_of(previous@, inode, size),
{
    match (previous.get_u64("inode"), previous.get_u64("offset")) {
        (Some(known), Some(offset)) => if known == inode && offset <= size {
            ScanPlan::Forward { offset }
        } else {
            ScanPlan::Backward
        },
        _ => ScanPlan::Backward,
    }
}

/// The context that was known before, null without one.
pub fn earlier_context(previous: &Json) -> (r: Json)
    ensures
        r@ == context_known(previous@),
{
    match previous.get("context") {
        Some(v) => v.clone(),
        None => Json::Null,
    }
}

/// What is remembered of a log: which file it is, where its complete lines end
/// and the latest context. A log without one is an error.
pub fn context_record(inode: u64, offset: u64, latest: Json) -> (r: Result<Json, String>)
    ensures
        match r {
            Ok(v) => !(latest@ is Null) && v@ == record_of(inode, offset, latest@),
            Err(e) => latest@ is Null && e@ == "任务尚无模型记录"@,
        },
{
    if latest.is_null() {
        return Err("任务尚无模型记录".to_owned());
    }
    Ok(
        Json::object().with("inode", Json::Uint(inode)).with("offset", Json::Uint(offset)).with(
            "context",
            latest,
        ),
    )
}

proof fn lemma_pieces_concat(a: Seq<u8>, b: Seq<u8>)
    ensures
        pieces(a).len() >= 1,
        pieces(b).len() >= 1,
        pieces(a + b) == pieces(a).drop_last().push(pieces(a).last() + pieces(b)[0]) + pieces(
            b,
        ).drop_first(),
    decreases b.len(),
{
    lemma_pieces_some(a);
    lemma_pieces_some(b);
    let pa = pieces(a);
    if b.len() == 0 {
        assert(a + b =~= a);
        assert(pa.last() + pieces(b)[0] =~= pa.last());
        assert(pa =~= pa.drop_last().push(pa.last() + pieces(b)[0]) + pieces(b).drop_first());
    } else {
        let c = b.drop_last();
        lemma_pieces_concat(a, c);
        assert((a + b).drop_last() =~= a + c);
        assert((a + b).last() == b.last());
        let pc = pieces(c);
        let before = pieces(a + c);
        let head_part = pa.drop_last().push(pa.last() + pc[0]);
        assert(before == head_part + pc.drop_first());
        let x = b.last();
        if x == 10 {
            assert(pieces(b) == pc.push(Seq::empty()));
            assert(pieces(a + b) =~= pa.drop_last().push(pa.last() + pieces(b)[0]) + pieces(
                b,
            ).drop_first());
        } else {
            assert(pieces(b) == pc.update(pc.len() - 1, pc.last().push(x)));
            if pc.len() == 1 {
                assert(before.last() == pa.last() + pc[0]);
                assert((pa.last() + pc[0]).push(x) =~= pa.last() + pc[0].push(x));
            } else {
                assert(before.last() == pc.last());
            }
            assert(pieces(a + b) =~= pa.drop_last().push(pa.last() + pieces(b)[0]) + pieces(
                b,
            ).drop_first());
        }
    }
}

proof fn lemma_first_piece_plain(b: Seq<u8>)
    ensures
        pieces(b).len() >= 1,
        pieces(pieces(b)[0]) == seq![pieces(b)[0]],
    decreases b.len(),
{
    lemma_pieces_some(b);
    if b.len() == 0 {
        assert(pieces(b)[0] =~= Seq::empty());
        assert(pieces(Seq::<u8>::empty()) =~= seq![Seq::<u8>::empty()]);
    } else {
        let c = b.drop_last();
        lemma_first_piece_plain(c);
        lemma_pieces_some(c);
        if b.last() == 10 {
            assert(pieces(b)[0] == pieces(c)[0]);
        } else if pieces(c).len() == 1 {
            let line = pieces(c)[0].push(b.last());
            assert(pieces(b)[0] == line);
            assert(line.drop_last() =~= pieces(c)[0]);
            assert(pieces(line) =~= seq![line]);
        } else {
            assert(pieces(b)[0] == pieces(c)[0]);
        }
    }
}

proof fn lemma_backward_concat(x: Seq<Seq<u8>>, y: Seq<Seq<u8>>)
    ensures
        backward(x + y) == match backward(y) {
            Ok(None) => backward(x),
            other => other,
        },
    decreases y.len(),
{
    if y.len() == 0 {
        assert(x + y =~= x);
    } else {
        lemma_backward_concat(x, y.drop_last());
        assert((x + y).drop_last() =~= x + y.drop_last());
        assert((x + y).last() == y.last());
    }
}

/// The lines of the later of two blocks decide, and only where they name no
/// context is the earlier block read, with the line that the two share put
/// together.
proof fn lemma_two_blocks(earlier: Seq<u8>, later: Seq<u8>)
    ensures
        pieces(later).len() >= 1,
        backward(pieces(earlier + later)) == match backward(pieces(later).drop_first()) {
            Ok(None) => backward(pieces(earlier + pieces(later)[0])),
            other => other,
        },
{
    lemma_pieces_concat(earlier, later);
    lemma_first_piece_plain(later);
    let shared = pieces(later)[0];
    lemma_pieces_concat(earlier, shared);
    assert(pieces(shared)[0] == shared);
    assert(pieces(shared).drop_first() =~= Seq::empty());
    assert(pieces(earlier + shared) =~= pieces(earlier).drop_last().push(
        pieces(earlier).last() + shared,
    ));
    lemma_backward_concat(pieces(earlier + shared), pieces(later).drop_first());
    assert(pieces(earlier + later) =~= pieces(earlier + shared) + pieces(later).drop_first());
}

proof fn lemma_complete_concat(a: Seq<u8>, b: Seq<u8>)
    ensures
        0 <= complete_len(b) <= b.len(),
        complete_len(a + b) == if complete_len(b) > 0 {
            a.len() + complete_len(b)
        } else {
            complete_len(a)
        },
    decreases b.len(),
{
    if b.len() == 0 {
        assert(a + b =~= a);
    } else {
        assert((a + b).drop_last() =~= a + b.drop_last());
        assert((a + b).last() == b.last());
        lemma_complete_concat(a, b.drop_last());
    }
}

proof fn lemma_nothing_said()
    ensures
        pieces(Seq::<u8>::empty()) == seq![Seq::<u8>::empty()],
        backward(pieces(Seq::<u8>::empty())) == Ok::<Option<JsonView>, Seq<char>>(None),
        backward(pieces(Seq::<u8>::empty()).drop_first()) == Ok::<Option<JsonView>, Seq<char>>(
            None,
        ),
{
    reveal_with_fuel(backward, 2);
    assert(pieces(Seq::<u8>::empty()).drop_first() =~= Seq::empty());
    assert(pieces(Seq::<u8>::empty()).drop_last() =~= Seq::empty());
}

/// A reading with some blocks, the last one of the log first, until a context
/// is found.
pub open spec fn read_blocks(s: ScanView, blocks: Seq<Seq<u8>>) -> Result<ScanView, Seq<char>>
    decreases blocks.len(),
{
    if blocks.len() == 0 || s.latest is Some {
        Ok(s)
    } else {
        match fed(s, blocks[0]) {
            Ok(next) => read_blocks(next, blocks.drop_first()),
            Err(e) => Err(e),
        }
    }
}

/// The bytes that blocks make, the last one of the log first.
pub open spec fn joined(blocks: Seq<Seq<u8>>) -> Seq<u8>
    decreases blocks.len(),
{
    if blocks.len() == 0 {
        Seq::empty()
    } else {
        joined(blocks.drop_first()) + blocks[0]
    }
}

/// What the complete lines of a log say, read from the last one back.
pub open spec fn log_context(log: Seq<u8>) -> Result<Option<JsonView>, Seq<char>> {
    backward(pieces(log.take(complete_len(log))))
}

/// Whether a reading has come as far in a log as it says, with no line decided
/// wrongly and none forgotten.
spec fn keeps_up(s: ScanView, log: Seq<u8>) -> bool {
    let rest = log.skip(s.position);
    let said = backward(pieces(log.take(s.offset)));
    &&& 0 <= s.position <= s.offset <= log.len()
    &&& s.offset == s.position + complete_len(rest)
    &&& s.first == (complete_len(rest) == 0)
    &&& s.first ==> s.latest is None
    &&& s.position == 0 ==> s.tail.len() == 0
    &&& s.latest is Some ==> said == Ok::<Option<JsonView>, Seq<char>>(s.latest)
    &&& s.latest is None ==> said == backward(
        pieces(
            log.take(s.position) + if s.first {
                Seq::empty()
            } else {
                s.tail
            },
        ),
    )
}

proof fn lemma_fed_keeps_up(s: ScanView, log: Seq<u8>, block: Seq<u8>)
    requires
        keeps_up(s, log),
        s.latest is None,
        block.len() <= s.position,
        block == log.subrange(s.position - block.len(), s.position),
    ensures
        match fed(s, block) {
            Ok(next) => keeps_up(next, log) && next.position == s.position - block.len(),
            Err(e) => log_context(log) == Err::<Option<JsonView>, Seq<char>>(e),
        },
{
    let position = s.position - block.len();
    let before = log.take(position);
    let rest = log.skip(s.position);
    assert(log.skip(position) =~= block + rest);
    lemma_complete_concat(block, rest);
    lemma_complete_concat(Seq::empty(), block);
    lemma_complete_concat(before, block + rest);
    assert(before + (block + rest) =~= log);
    let later = block_bytes(s, block);
    let offset = position + complete_len(block + rest);
    if s.first {
        assert(log.take(offset) =~= before + later);
    } else {
        assert(log.take(s.position) + s.tail =~= before + later);
    }
    lemma_two_blocks(before, later);
    assert(backward(pieces(log.take(offset))) == backward(pieces(before + later)));
    if position == 0 {
        assert(before + later =~= later);
    }
    lemma_nothing_said();
    if s.first && complete_len(block) == 0 {
        assert(later =~= Seq::empty());
    }
    assert(before + Seq::<u8>::empty() =~= before);
    if position == 0 {
        assert(before =~= Seq::empty());
    }
}

proof fn lemma_blocks_keep_up(s: ScanView, log: Seq<u8>, blocks: Seq<Seq<u8>>)
    requires
        keeps_up(s, log),
        joined(blocks) == log.take(s.position),
    ensures
        match read_blocks(s, blocks) {
            Ok(end) => keeps_up(end, log) && (end.latest is Some || end.position == 0),
            Err(e) => log_context(log) == Err::<Option<JsonView>, Seq<char>>(e),
        },
    decreases blocks.len(),
{
    if s.latest is None {
        if blocks.len() == 0 {
            assert(log.take(s.position).len() == 0);
        } else {
            let head_blocks = blocks.drop_first();
            let block = blocks[0];
            let part = log.take(s.position);
            assert(part == joined(head_blocks) + block);
            assert(block =~= part.skip(joined(head_blocks).len() as int));
            assert(block =~= log.subrange(s.position - block.len(), s.position));
            assert(joined(head_blocks) =~= part.take(joined(head_blocks).len() as int));
            assert(joined(head_blocks) =~= log.take(s.position - block.len()));
            lemma_fed_keeps_up(s, log, block);
            if let Ok(next) = fed(s, block) {
                lemma_blocks_keep_up(next, log, head_blocks);
            }
        }
    }
}

/// Reading a log backward block by block finds what its complete lines say,
/// however it is cut into blocks: a line at the end that is not complete is
/// never read, however long it is, and what is found is kept with the place
/// where the complete lines end.
pub proof fn law_blocks_read_as_one(log: Seq<u8>, blocks: Seq<Seq<u8>>)
    requires
        joined(blocks) == log,
    ensures
        match read_blocks(scan_start(log.len() as int), blocks) {
            Ok(end) => {
                &&& log_context(log) == Ok::<Option<JsonView>, Seq<char>>(end.latest)
                &&& end.offset == complete_len(log)
            },
            Err(e) => log_context(log) == Err::<Option<JsonView>, Seq<char>>(e),
        },
{
    let s = scan_start(log.len() as int);
    assert(log.skip(s.position) =~= Seq::empty());
    assert(log.take(s.position) =~= log);
    assert(log + Seq::<u8>::empty() =~= log);
    lemma_blocks_keep_up(s, log, blocks);
    if let Ok(end) = read_blocks(s, blocks) {
        let rest = log.skip(end.position);
        assert(log.take(end.position) + rest =~= log);
        lemma_complete_concat(log.take(end.position), rest);
        lemma_nothing_said();
        if end.position == 0 {
            assert(rest =~= log);
            assert(log.take(0) + end.tail =~= Seq::empty());
            assert(log.take(0) + Seq::<u8>::empty() =~= Seq::empty());
        }
    }
}

proof fn lemma_forward_concat(x: Seq<Seq<u8>>, y: Seq<Seq<u8>>, start: JsonView)
    ensures
        forward(x + y, start) == match forward(x, start) {
            Ok(v) => forward(y, v),
            Err(e) => Err(e),
        },
    decreases y.len(),
{
    if y.len() == 0 {
        assert(x + y =~= x);
    } else {
        lemma_forward_concat(x, y.drop_last(), start);
        assert((x + y).drop_last() =~= x + y.drop_last());
        assert((x + y).last() == y.last());
    }
}

/// Reading a log in two goes, the second one on from the end of a complete
/// line, finds what reading it in one go finds.
pub proof fn law_reading_can_be_resumed(first: Seq<u8>, second: Seq<u8>, start: JsonView)
    requires
        first.len() > 0,
        first.last() == 10,
    ensures
        forward(pieces(first + second), start) == match forward(pieces(first), start) {
            Ok(v) => forward(pieces(second), v),
            Err(e) => Err(e),
        },
{
    lemma_pieces_concat(first, second);
    let pa = pieces(first);
    lemma_pieces_some(first.drop_last());
    assert(pa.last() =~= Seq::empty());
    assert(pa.last() + pieces(second)[0] =~= pieces(second)[0]);
    assert(pieces(first + second) =~= pa.drop_last() + pieces(second));
    lemma_forward_concat(pa.drop_last(), pieces(second), start);
}

/// Where no line is bad, reading forward and reading backward agree.
pub proof fn law_directions_agree(lines: Seq<Seq<u8>>, start: JsonView)
    requires
        forward(lines, start) is Ok,
    ensures
        match backward(lines) {
            Ok(Some(v)) => forward(lines, start) == Ok::<JsonView, Seq<char>>(v),
            Ok(None) => forward(lines, start) == Ok::<JsonView, Seq<char>>(start),
            Err(_) => false,
        },
    decreases lines.len(),
{
    if lines.len() > 0 {
        law_directions_agree(lines.drop_last(), start);
    }
}

proof fn lemma_context_names()
    ensures
        "model"@.len() == 5,
        "effort"@.len() == 6,
        "type"@.len() == 4,
        "payload"@.len() == 7,
{
    reveal_strlit("model");
    reveal_strlit("effort");
    reveal_strlit("type");
    reveal_strlit("payload");
}

/// What a record says is what is kept of it: a record of the right type that names
/// a model gives a context with that model and with the effort that it names, or
/// with an unknown one where it names none; a record of another type gives nothing,
/// and one that names no model, or an effort that is no text, is an error.
pub proof fn law_context_is_what_the_record_says(item: JsonView)
    ensures
        text_of(at(item, "type"@)) != Some("turn_context"@) ==> named_context(item) == Ok::<
            Option<JsonView>,
            Seq<char>,
        >(None),
        text_of(at(item, "type"@)) == Some("turn_context"@) ==> {
            let model = match at(item, "payload"@) {
                Some(p) => text_of(at(p, "model"@)),
                None => None,
            };
            let effort = match at(item, "payload"@) {
                Some(p) => match at(p, "effort"@) {
                    None => Some("unknown"@),
                    Some(JsonView::Null) => Some("unknown"@),
                    Some(v) => text_of(Some(v)),
                },
                None => None,
            };
            match named_context(item) {
                Ok(Some(v)) => {
                    &&& v is Object
                    &&& model is Some && model->0.len() > 0
                    &&& text_of(at(v, "model"@)) == model
                    &&& effort is Some
                    &&& text_of(at(v, "effort"@)) == effort
                    &&& forall|key: Seq<char>| #[trigger]
                        at(v, key) is Some <==> key == "model"@ || key == "effort"@
                },
                Ok(None) => false,
                Err(_) => model is None || model->0.len() == 0 || effort is None,
            }
        },
{
    lemma_context_names();
}

/// A line is read as a record exactly where the mark of the type, with a space
/// behind the colon or without one, stands within its first 180 bytes; what it then
/// says is what the record in it says.
pub proof fn law_marked_lines_are_read(line: Seq<u8>)
    ensures
        (exists|a: Seq<u8>, mark: Seq<u8>, b: Seq<u8>|
            {
                &&& line == #[trigger] (a + mark + b)
                &&& a.len() + mark.len() <= 180
                &&& mark == encode_utf8("\"type\":\"turn_context\""@) || mark == encode_utf8(
                    "\"type\": \"turn_context\""@,
                )
            }) ==> line_context(line) == match json_read(line) {
            Ok(item) => named_context(item),
            Err(e) => Err(e),
        },
        !(line_context(line) == Ok::<Option<JsonView>, Seq<char>>(None)) ==> exists|
            a: Seq<u8>,
            mark: Seq<u8>,
            b: Seq<u8>,
        |
            {
                &&& line == #[trigger] (a + mark + b)
                &&& a.len() + mark.len() <= 180
                &&& mark == encode_utf8("\"type\":\"turn_context\""@) || mark == encode_utf8(
                    "\"type\": \"turn_context\""@,
                )
            },
{
    let one = encode_utf8("\"type\":\"turn_context\""@);
    let two = encode_utf8("\"type\": \"turn_context\""@);
    if exists|a: Seq<u8>, mark: Seq<u8>, b: Seq<u8>|
        {
            &&& line == #[trigger] (a + mark + b)
            &&& a.len() + mark.len() <= 180
            &&& mark == one || mark == two
        } {
        let (a, mark, b) = choose|a: Seq<u8>, mark: Seq<u8>, b: Seq<u8>|
            {
                &&& line == #[trigger] (a + mark + b)
                &&& a.len() + mark.len() <= 180
                &&& mark == one || mark == two
            };
        assert(head(line).subrange(a.len() as int, a.len() as int + mark.len()) =~= mark);
        assert(stands_at(head(line), mark, a.len() as int));
    }
    if looks_like_context(line) {
        let mark = if occurs(head(line), one) {
            one
        } else {
            two
        };
        let i = choose|i: int| stands_at(head(line), mark, i);
        let a = line.take(i);
        let b = line.skip(i + mark.len());
        assert(head(line).subrange(i, i + mark.len()) =~= line.subrange(i, i + mark.len()));
        assert(line =~= a + mark + b);
    }
}

/// The last line that says which model is in use decides: reading lines forward
/// gives what the last such line says, and what was known before where no line says
/// anything. Empty lines say nothing.
pub proof fn law_last_line_decides(lines: Seq<Seq<u8>>, earlier: JsonView)
    ensures
        match forward(lines, earlier) {
            Ok(v) => (v == earlier && forall|i: int|
                0 <= i < lines.len() ==> (#[trigger] lines[i]).len() == 0 || line_context(lines[i])
                    == Ok::<Option<JsonView>, Seq<char>>(None)) || exists|i: int|
                {
                    &&& 0 <= i < lines.len()
                    &&& (#[trigger] lines[i]).len() > 0
                    &&& line_context(lines[i]) == Ok::<Option<JsonView>, Seq<char>>(Some(v))
                    &&& forall|j: int|
                        i < j < lines.len() ==> (#[trigger] lines[j]).len() == 0 || line_context(
                            lines[j],
                        ) == Ok::<Option<JsonView>, Seq<char>>(None)
                },
            Err(e) => exists|i: int|
                0 <= i < lines.len() && line_context(#[trigger] lines[i]) == Err::<
                    Option<JsonView>,
                    Seq<char>,
                >(e),
        },
    decreases lines.len(),
{
    if lines.len() > 0 {
        let front = lines.drop_last();
        let n = lines.len() - 1;
        law_last_line_decides(front, earlier);
        assert forall|i: int| 0 <= i < n implies #[trigger] lines[i] == front[i] by {}
        let says = lines[n].len() > 0 && line_context(lines[n]) is Ok && line_context(lines[n])->Ok_0
            is Some;
        match forward(front, earlier) {
            Err(e) => {
                let i = choose|i: int|
                    0 <= i < front.len() && line_context(#[trigger] front[i]) == Err::<
                        Option<JsonView>,
                        Seq<char>,
                    >(e);
                assert(line_context(lines[i]) == Err::<Option<JsonView>, Seq<char>>(e));
            },
            Ok(v) => {
                if !says && forward(lines, earlier) is Ok && !(v == earlier && forall|i: int|
                    0 <= i < front.len() ==> (#[trigger] front[i]).len() == 0 || line_context(
                        front[i],
                    ) == Ok::<Option<JsonView>, Seq<char>>(None)) {
                    let i = choose|i: int|
                        {
                            &&& 0 <= i < front.len()
                            &&& (#[trigger] front[i]).len() > 0
                            &&& line_context(front[i]) == Ok::<Option<JsonView>, Seq<char>>(Some(v))
                            &&& forall|j: int|
                                i < j < front.len() ==> (#[trigger] front[j]).len() == 0
                                    || line_context(front[j]) == Ok::<Option<JsonView>, Seq<char>>(
                                    None,
                                )
                        };
                    assert(lines[i].len() > 0);
                    assert forall|j: int| i < j < lines.len() implies (
                    #[trigger] lines[j]).len() == 0 || line_context(lines[j]) == Ok::<
                        Option<JsonView>,
                        Seq<char>,
                    >(None) by {
                        if j < n {
                            assert(lines[j] == front[j]);
                        }
                    }
                }
            },
        }
    }
}

/// The lines of some bytes are what stands between its newlines: put together with
/// newlines between them they are the bytes again, and no line holds one.
pub proof fn law_pieces_make_the_bytes(bytes: Seq<u8>)
    ensures
        pieces(bytes).len() >= 1,
        forall|i: int| 0 <= i < pieces(bytes).len() ==> !(#[trigger] pieces(bytes)[i]).contains(10u8),
        glued(pieces(bytes)) == bytes,
    decreases bytes.len(),
{
    lemma_pieces_some(bytes);
    let all = pieces(bytes);
    if bytes.len() > 0 {
        let front = bytes.drop_last();
        law_pieces_make_the_bytes(front);
        let rest = pieces(front);
        let x = bytes.last();
        if x == 10 {
            assert(all.drop_last() =~= rest);
            assert(glued(all) =~= bytes);
        } else {
            let line = rest.last().push(x);
            assert(all.drop_last() =~= rest.drop_last());
            assert(all.last() == line);
            assert(!line.contains(10u8)) by {
                if line.contains(10u8) {
                    let k = choose|k: int| 0 <= k < line.len() && line[k] == 10u8;
                    assert(rest.last()[k] == 10u8);
                    assert(rest[rest.len() - 1].contains(10u8));
                }
            }
            if rest.len() == 1 {
                assert(all[0] == line);
            } else {
                let body = glued(rest.drop_last()).push(10u8);
                assert(body + line =~= (body + rest.last()).push(x));
            }
            assert(front.push(x) =~= bytes);
        }
    } else {
        assert(all =~= seq![Seq::<u8>::empty()]);
        assert(glued(all) =~= bytes);
    }
}

/// Lines put together, with a newline between each two.
pub open spec fn glued(lines: Seq<Seq<u8>>) -> Seq<u8>
    decreases lines.len(),
{
    if lines.len() == 0 {
        Seq::empty()
    } else if lines.len() == 1 {
        lines[0]
    } else {
        glued(lines.drop_last()).push(10u8) + lines.last()
    }
}

/// What counts as complete is everything up to the last newline and nothing behind
/// it.
pub proof fn law_complete_up_to_the_last_newline(bytes: Seq<u8>)
    ensures
        0 <= complete_len(bytes) <= bytes.len(),
        complete_len(bytes) > 0 ==> bytes[complete_len(bytes) - 1] == 10,
        forall|i: int| complete_len(bytes) <= i < bytes.len() ==> #[trigger] bytes[i] != 10,
    decreases bytes.len(),
{
    if bytes.len() > 0 && bytes.last() != 10 {
        law_complete_up_to_the_last_newline(bytes.drop_last());
        let n = complete_len(bytes);
        if n > 0 {
            assert(bytes.drop_last()[n - 1] == bytes[n - 1]);
        }
        assert forall|i: int| n <= i < bytes.len() implies #[trigger] bytes[i] != 10 by {
            if i < bytes.len() - 1 {
                assert(bytes.drop_last()[i] == bytes[i]);
            }
        }
    }
}

proof fn lemma_record_members()
    ensures
        "inode"@.len() == 5,
        "offset"@.len() == 6,
        "context"@.len() == 7,
{
    reveal_strlit("inode");
    reveal_strlit("offset");
    reveal_strlit("context");
}

/// What is remembered of a log serves to go on with it: the same file is read on from
/// where its complete lines ended, with the context that was known; another file, or one
/// that is shorter by now, is read anew.
pub proof fn law_remembered_log_is_read_on(
    inode: u64,
    offset: u64,
    latest: JsonView,
    other: u64,
    size: u64,
)
    ensures
        context_known(record_of(inode, offset, latest)) == latest,
        size >= offset ==> plan_of(record_of(inode, offset, latest), inode, size)
            == (ScanPlan::Forward { offset }),
        size < offset ==> plan_of(record_of(inode, offset, latest), inode, size)
            == ScanPlan::Backward,
        other != inode ==> plan_of(record_of(inode, offset, latest), other, size)
            == ScanPlan::Backward,
        plan_of(JsonView::Null, inode, size) == ScanPlan::Backward,
        at(record_of(inode, offset, latest), "inode"@) == Some(JsonView::Int(inode as int)),
        at(record_of(inode, offset, latest), "offset"@) == Some(JsonView::Int(offset as int)),
        at(record_of(inode, offset, latest), "context"@) == Some(latest),
{
    lemma_record_members();
}

} // verus!
