//! What goes over the line: the questions that a run asks, one after another, and
//! what they hold.
//!
//! A run is a function of the answers that it has got. What it asks after `k` answers
//! is what it ends with when it is given just the first `k` of them.

use vstd::prelude::*;
use vstd::utf8::encode_utf8;

use crate::actions::{
    calendar_added, calendar_loaded, calendar_sent, home_apply, labels_added, pages_uploaded,
    picture_added, picture_uploaded, playlist_filled, playlist_loaded, playlist_started,
    radar_added, radar_begin, radar_chunk, radar_end, radar_loaded, radar_parts, radar_sent,
    scene_member, slot_name, task_loaded,
};
use crate::codes::b64_encoded;
use crate::json::{at, at_in, items_of, text_of, u64_of, JsonView};
use crate::outside::json_text;
use crate::preload::PreparedView;
use crate::protocol::{chunk, chunk_count, crc_hex};
use crate::radar_data::{compacted_json, Scaled};
use crate::readback::{bytes_view, pages_filled, scene_of};
use crate::script::{AnswerView, AskView, Turn};
use crate::text::{decimal, padded};
use crate::usb::{exchange, image_begin, image_chunk, image_end, upload, upload_asks};

verus! {

/// The command that a run asks for, where it asks for one of a name and waits for
/// just that long.
pub open spec fn command_in<T>(t: Turn<T>, name: Seq<char>, wait_ms: u64) -> Option<JsonView> {
    match t {
        Turn::Ask(AskView::Request { command, timeout_ms }) => if timeout_ms == wait_ms && at(
            command,
            "cmd"@,
        ) == Some(JsonView::Str(name)) {
            Some(command)
        } else {
            None
        },
        _ => None,
    }
}

/// The value that an answer is.
pub open spec fn reply_in(a: AnswerView) -> Option<JsonView> {
    match a {
        AnswerView::Value(v) => Some(v),
        _ => None,
    }
}

/// How many questions the upload of some bytes takes.
pub open spec fn upload_len(data: Seq<u8>) -> int {
    (data.len() as int + 95) / 96 + 2
}

/// Whether a run uploads some bytes from its `k`-th question on: they are announced
/// with size, sum and target, then come in numbered parts of 96 bytes, the last one
/// as long as it is, and are completed; and the device confirmed them.
#[verifier::opaque]
pub open spec fn sends_picture<T>(
    run: spec_fn(Seq<AnswerView>) -> Turn<T>,
    log: Seq<AnswerView>,
    k: int,
    data: Seq<u8>,
    target: Seq<char>,
) -> bool {
    let parts = (data.len() as int + 95) / 96;
    let begin = command_in(run(log.take(k)), "image_begin"@, 4000);
    let reply = reply_in(log[k + 1 + parts]);
    &&& 0 <= k && k + upload_len(data) <= log.len()
    &&& begin is Some
    &&& at(begin->0, "size"@) == Some(JsonView::Int(data.len() as int))
    &&& at(begin->0, "crc32"@) == Some(JsonView::Str(crc_hex(data)))
    &&& at(begin->0, "target"@) == Some(JsonView::Str(target))
    &&& forall|j: int|
        #![trigger log.take(j)]
        k < j <= k + parts ==> {
            let part = command_in(run(log.take(j)), "image_chunk"@, 3000);
            let from = 96 * (j - k - 1);
            &&& part is Some
            &&& at(part->0, "seq"@) == Some(JsonView::Int(j - k - 1))
            &&& at(part->0, "data"@) == Some(
                JsonView::Str(
                    b64_encoded(
                        data.subrange(
                            from,
                            if from + 96 <= data.len() {
                                from + 96
                            } else {
                                data.len() as int
                            },
                        ),
                    ),
                ),
            )
        }
    &&& command_in(run(log.take(k + 1 + parts)), "image_end"@, 5000) is Some
    &&& reply is Some
    &&& text_of(at(reply->0, "status"@)) == Some(
        if target == "frame"@ {
            "displayed"@
        } else {
            "stored"@
        },
    )
    &&& u64_of(at(reply->0, "bytes"@)) == Some(data.len() as u64)
    &&& text_of(at(reply->0, "crc32"@)) == Some(crc_hex(data))
}

proof fn lemma_upload_names()
    ensures
        "cmd"@.len() == 3,
        "size"@.len() == 4,
        "crc32"@.len() == 5,
        "target"@.len() == 6,
        "seq"@.len() == 3,
        "data"@.len() == 4,
        "image_begin"@.len() == 11,
        "image_chunk"@.len() == 11,
        "image_end"@.len() == 9,
        "cmd"@[0] == 'c',
        "seq"@[0] == 's',
        "size"@[0] == 's',
        "data"@[0] == 'd',
        "image_begin"@[6] == 'b',
        "image_chunk"@[6] == 'c',
{
    reveal_strlit("cmd");
    reveal_strlit("size");
    reveal_strlit("crc32");
    reveal_strlit("target");
    reveal_strlit("seq");
    reveal_strlit("data");
    reveal_strlit("image_begin");
    reveal_strlit("image_chunk");
    reveal_strlit("image_end");
}

proof fn lemma_exchange_cut(log: Seq<AnswerView>, pos: int, asks: Seq<AskView>, k: int)
    requires
        0 <= pos <= k <= log.len(),
        exchange(log, pos, asks) is Done,
    ensures
        exchange(log, pos, asks)->Done_1 == pos + asks.len() <= log.len(),
        exchange(log, pos, asks)->Done_0.len() == asks.len(),
        k >= pos + asks.len() ==> exchange(log.take(k), pos, asks) == exchange(log, pos, asks),
        k < pos + asks.len() ==> exchange(log.take(k), pos, asks) == Turn::<Seq<JsonView>>::Ask(
            asks[k - pos],
        ),
        asks.len() > 0 ==> reply_in(log[pos + asks.len() - 1]) == Some(
            exchange(log, pos, asks)->Done_0.last(),
        ),
    decreases asks.len(),
{
    if asks.len() > 0 {
        lemma_exchange_cut(log, pos, asks.drop_last(), k);
    }
}

/// What an upload asks for, cut off anywhere.
pub(crate) proof fn lemma_upload_cut(log: Seq<AnswerView>, pos: int, data: Seq<u8>, target: Seq<char>)
    requires
        0 <= pos <= log.len(),
        upload(log, pos, data, target) is Done,
    ensures
        upload(log, pos, data, target)->Done_1 == pos + upload_len(data) <= log.len(),
        forall|j: int|
            #![trigger log.take(j)]
            pos + upload_len(data) <= j <= log.len() ==> upload(log.take(j), pos, data, target)
                == upload(log, pos, data, target),
        forall|j: int|
            #![trigger log.take(j)]
            pos <= j < pos + upload_len(data) ==> upload(log.take(j), pos, data, target) is Ask,
        sends_picture(|l: Seq<AnswerView>| upload(l, pos, data, target), log, pos, data, target),
{
    reveal(sends_picture);
    let asks = upload_asks(data, target);
    let parts = (data.len() as int + 95) / 96;
    assert(asks.len() == upload_len(data));
    lemma_exchange_cut(log, pos, asks, pos);
    assert forall|j: int|
        #![trigger log.take(j)]
        pos <= j <= log.len() implies (j >= pos + upload_len(data) ==> upload(
        log.take(j),
        pos,
        data,
        target,
    ) == upload(log, pos, data, target)) && (j < pos + upload_len(data) ==> upload(
        log.take(j),
        pos,
        data,
        target,
    ) == Turn::<JsonView>::Ask(asks[j - pos])) by {
        lemma_exchange_cut(log, pos, asks, j);
    }
    lemma_upload_names();
    let run = |l: Seq<AnswerView>| upload(l, pos, data, target);
    assert(asks[0] == image_begin(data, target));
    assert(run(log.take(pos)) == Turn::<JsonView>::Ask(image_begin(data, target)));
    assert forall|j: int| #![trigger log.take(j)] pos < j <= pos + parts implies {
        let part = command_in(run(log.take(j)), "image_chunk"@, 3000);
        let from = 96 * (j - pos - 1);
        &&& part is Some
        &&& at(part->0, "seq"@) == Some(JsonView::Int(j - pos - 1))
        &&& at(part->0, "data"@) == Some(
            JsonView::Str(
                b64_encoded(
                    data.subrange(
                        from,
                        if from + 96 <= data.len() {
                            from + 96
                        } else {
                            data.len() as int
                        },
                    ),
                ),
            ),
        )
    } by {
        assert(asks[j - pos] == image_chunk(data, j - pos - 1));
        assert(run(log.take(j)) == Turn::<JsonView>::Ask(image_chunk(data, j - pos - 1)));
    }
    let last = pos + 1 + parts;
    assert(asks[last - pos] == image_end());
    assert(run(log.take(last)) == Turn::<JsonView>::Ask(image_end()));
    assert(reply_in(log[pos + asks.len() - 1]) == reply_in(log[last]));
}

/// Whether two runs ask for the same.
pub open spec fn same_ask<T, U>(a: Turn<T>, b: Turn<U>) -> bool {
    match (a, b) {
        (Turn::Ask(x), Turn::Ask(y)) => x == y,
        _ => false,
    }
}

pub(crate) proof fn lemma_lift_picture<T, U>(
    inner: spec_fn(Seq<AnswerView>) -> Turn<T>,
    outer: spec_fn(Seq<AnswerView>) -> Turn<U>,
    log: Seq<AnswerView>,
    k: int,
    data: Seq<u8>,
    target: Seq<char>,
)
    requires
        sends_picture(inner, log, k, data, target),
        forall|j: int|
            #![trigger log.take(j)]
            k <= j < k + upload_len(data) ==> same_ask(inner(log.take(j)), outer(log.take(j))),
    ensures
        sends_picture(outer, log, k, data, target),
{
    reveal(sends_picture);
    let parts = (data.len() as int + 95) / 96;
    assert(same_ask(inner(log.take(k)), outer(log.take(k))));
    assert(same_ask(inner(log.take(k + 1 + parts)), outer(log.take(k + 1 + parts))));
    assert forall|j: int| #![trigger log.take(j)] k < j <= k + parts implies {
        let part = command_in(outer(log.take(j)), "image_chunk"@, 3000);
        let from = 96 * (j - k - 1);
        &&& part is Some
        &&& at(part->0, "seq"@) == Some(JsonView::Int(j - k - 1))
        &&& at(part->0, "data"@) == Some(
            JsonView::Str(
                b64_encoded(
                    data.subrange(
                        from,
                        if from + 96 <= data.len() {
                            from + 96
                        } else {
                            data.len() as int
                        },
                    ),
                ),
            ),
        )
    } by {
        assert(same_ask(inner(log.take(j)), outer(log.take(j))));
    }
}

/// How many questions the upload of the first pages takes.
pub open spec fn pages_len(pages: Seq<Seq<u8>>, n: int) -> int
    decreases n,
{
    if n <= 0 {
        0
    } else {
        pages_len(pages, n - 1) + upload_len(pages[n - 1])
    }
}

proof fn lemma_pages_len(pages: Seq<Seq<u8>>, i: int, n: int)
    requires
        0 <= i <= n,
    ensures
        0 <= pages_len(pages, i) <= pages_len(pages, n),
        i < n ==> pages_len(pages, i) + upload_len(pages[i]) <= pages_len(pages, n),
    decreases n,
{
    if n > 0 {
        if i < n {
            lemma_pages_len(pages, i, n - 1);
        } else {
            lemma_pages_len(pages, n - 1, n - 1);
        }
    }
}

/// Whether a run uploads the first `n` pages from its `k`-th question on, each to its
/// own numbered slot of a bank.
#[verifier::opaque]
pub open spec fn sends_pages<T>(
    run: spec_fn(Seq<AnswerView>) -> Turn<T>,
    log: Seq<AnswerView>,
    k: int,
    bank: Seq<char>,
    pages: Seq<Seq<u8>>,
    n: int,
) -> bool {
    forall|i: int|
        #![trigger pages[i]]
        0 <= i < n ==> sends_picture(
            run,
            log,
            k + pages_len(pages, i),
            pages[i],
            "calendar_"@ + bank + "_"@ + padded(decimal((i + 1) as nat), 2),
        )
}

pub(crate) proof fn lemma_pages_cut(log: Seq<AnswerView>, pos: int, bank: Seq<char>, pages: Seq<Seq<u8>>, n: nat)
    requires
        0 <= pos <= log.len(),
        n <= pages.len(),
        pages_uploaded(log, pos, bank, pages, n) is Done,
    ensures
        pages_uploaded(log, pos, bank, pages, n) == Turn::Done((), pos + pages_len(pages, n as int)),
        pos + pages_len(pages, n as int) <= log.len(),
        0 <= pages_len(pages, n as int),
        forall|j: int|
            #![trigger log.take(j)]
            pos + pages_len(pages, n as int) <= j <= log.len() ==> pages_uploaded(
                log.take(j),
                pos,
                bank,
                pages,
                n,
            ) == pages_uploaded(log, pos, bank, pages, n),
        forall|j: int|
            #![trigger log.take(j)]
            pos <= j < pos + pages_len(pages, n as int) ==> pages_uploaded(
                log.take(j),
                pos,
                bank,
                pages,
                n,
            ) is Ask,
    decreases n,
{
    if n > 0 {
        let m = (n - 1) as nat;
        lemma_pages_cut(log, pos, bank, pages, m);
        let k = pos + pages_len(pages, m as int);
        lemma_upload_cut(log, k, pages[m as int], slot_name(bank, n));
    }
}

proof fn lemma_pages_sent(log: Seq<AnswerView>, pos: int, bank: Seq<char>, pages: Seq<Seq<u8>>, n: nat)
    requires
        0 <= pos <= log.len(),
        n <= pages.len(),
        pages_uploaded(log, pos, bank, pages, n) is Done,
    ensures
        sends_pages(
            |l: Seq<AnswerView>| pages_uploaded(l, pos, bank, pages, n),
            log,
            pos,
            bank,
            pages,
            n as int,
        ),
    decreases n,
{
    reveal(sends_pages);
    if n > 0 {
        let m = (n - 1) as nat;
        lemma_pages_sent(log, pos, bank, pages, m);
        let inner = |l: Seq<AnswerView>| pages_uploaded(l, pos, bank, pages, m);
        let outer = |l: Seq<AnswerView>| pages_uploaded(l, pos, bank, pages, n);
        assert forall|i: int| #![trigger pages[i]] 0 <= i < n implies sends_picture(
            outer,
            log,
            pos + pages_len(pages, i),
            pages[i],
            "calendar_"@ + bank + "_"@ + padded(decimal((i + 1) as nat), 2),
        ) by {
            lemma_page_sent(log, pos, bank, pages, n, i);
        }
    }
}

proof fn lemma_page_sent(
    log: Seq<AnswerView>,
    pos: int,
    bank: Seq<char>,
    pages: Seq<Seq<u8>>,
    n: nat,
    i: int,
)
    requires
        0 <= pos <= log.len(),
        0 <= i < n <= pages.len(),
        pages_uploaded(log, pos, bank, pages, n) is Done,
    ensures
        sends_picture(
            |l: Seq<AnswerView>| pages_uploaded(l, pos, bank, pages, n),
            log,
            pos + pages_len(pages, i),
            pages[i],
            "calendar_"@ + bank + "_"@ + padded(decimal((i + 1) as nat), 2),
        ),
    decreases n,
{
    let m = (n - 1) as nat;
    let target = "calendar_"@ + bank + "_"@ + padded(decimal((i + 1) as nat), 2);
    let outer = |l: Seq<AnswerView>| pages_uploaded(l, pos, bank, pages, n);
    lemma_pages_cut(log, pos, bank, pages, m);
    let k = pos + pages_len(pages, i);
    if i < m {
        let inner = |l: Seq<AnswerView>| pages_uploaded(l, pos, bank, pages, m);
        lemma_page_sent(log, pos, bank, pages, m, i);
        lemma_pages_len(pages, i, m as int);
        assert forall|j: int|
            #![trigger log.take(j)]
            k <= j < k + upload_len(pages[i]) implies same_ask(inner(log.take(j)), outer(log.take(j))) by {}
        lemma_lift_picture(inner, outer, log, k, pages[i], target);
    } else {
        let last = |l: Seq<AnswerView>| upload(l, k, pages[i], target);
        lemma_upload_cut(log, k, pages[i], target);
        assert forall|j: int|
            #![trigger log.take(j)]
            k <= j < k + upload_len(pages[i]) implies same_ask(last(log.take(j)), outer(log.take(j))) by {}
        lemma_lift_picture(last, outer, log, k, pages[i], target);
    }
}

/// A member of a value, null where it has none.
pub open spec fn or_null(v: Option<JsonView>) -> JsonView {
    match v {
        Some(x) => x,
        None => JsonView::Null,
    }
}

/// Whether a run sends a calendar from its `k`-th question on: the day is announced
/// with its signature, its date and its counts; every page is uploaded to its slot of
/// the bank that the device names; and the day with that signature is switched to.
#[verifier::opaque]
pub open spec fn sends_calendar<T>(
    run: spec_fn(Seq<AnswerView>) -> Turn<T>,
    log: Seq<AnswerView>,
    k: int,
    snapshot: JsonView,
    pages: Seq<Seq<u8>>,
    standalone: bool,
) -> bool {
    let signature = text_of(at(snapshot, "signature"@));
    let begin = command_in(run(log.take(k)), "calendar_begin"@, 4000);
    let bank = text_of(at(or_null(reply_in(log[k])), "bank"@));
    let m = k + 1 + pages_len(pages, pages.len() as int);
    let commit = command_in(run(log.take(m)), "calendar_commit"@, 8000);
    &&& 0 <= k < m < log.len()
    &&& signature is Some
    &&& begin is Some
    &&& at(begin->0, "signature"@) == Some(JsonView::Str(signature->0))
    &&& at(begin->0, "pages"@) == Some(JsonView::Int(pages.len() as int))
    &&& at(begin->0, "date"@) == Some(or_null(at(snapshot, "date"@)))
    &&& at(begin->0, "total"@) == Some(or_null(at(snapshot, "total"@)))
    &&& at(begin->0, "done"@) == Some(or_null(at(snapshot, "done"@)))
    &&& bank == Some("a"@) || bank == Some("b"@)
    &&& sends_pages(run, log, k + 1, bank->0, pages, pages.len() as int)
    &&& commit is Some
    &&& at(commit->0, "signature"@) == Some(JsonView::Str(signature->0))
    &&& at(commit->0, "standalone"@) == Some(JsonView::Bool(standalone))
}

/// How many questions the sending of a calendar takes.
pub open spec fn calendar_len(pages: Seq<Seq<u8>>) -> int {
    2 + pages_len(pages, pages.len() as int)
}

proof fn lemma_calendar_names()
    ensures
        "cmd"@.len() == 3,
        "signature"@.len() == 9,
        "pages"@.len() == 5,
        "date"@.len() == 4,
        "total"@.len() == 5,
        "done"@.len() == 4,
        "standalone"@.len() == 10,
        "bank"@.len() == 4,
        "calendar_begin"@.len() == 14,
        "calendar_commit"@.len() == 15,
        "pages"@[0] == 'p',
        "total"@[0] == 't',
        "date"@[1] == 'a',
        "done"@[1] == 'o',
        "date"@[0] == 'd',
        "bank"@[0] == 'b',
        "done"@[0] == 'd',
{
    reveal_strlit("cmd");
    reveal_strlit("signature");
    reveal_strlit("pages");
    reveal_strlit("date");
    reveal_strlit("total");
    reveal_strlit("done");
    reveal_strlit("standalone");
    reveal_strlit("bank");
    reveal_strlit("calendar_begin");
    reveal_strlit("calendar_commit");
}

proof fn lemma_lift_pages<T, U>(
    inner: spec_fn(Seq<AnswerView>) -> Turn<T>,
    outer: spec_fn(Seq<AnswerView>) -> Turn<U>,
    log: Seq<AnswerView>,
    k: int,
    bank: Seq<char>,
    pages: Seq<Seq<u8>>,
)
    requires
        sends_pages(inner, log, k, bank, pages, pages.len() as int),
        forall|j: int|
            #![trigger log.take(j)]
            k <= j < k + pages_len(pages, pages.len() as int) ==> same_ask(
                inner(log.take(j)),
                outer(log.take(j)),
            ),
    ensures
        sends_pages(outer, log, k, bank, pages, pages.len() as int),
{
    reveal(sends_pages);
    assert forall|i: int| #![trigger pages[i]] 0 <= i < pages.len() implies sends_picture(
        outer,
        log,
        k + pages_len(pages, i),
        pages[i],
        "calendar_"@ + bank + "_"@ + padded(decimal((i + 1) as nat), 2),
    ) by {
        lemma_pages_len(pages, i, pages.len() as int);
        lemma_lift_picture(
            inner,
            outer,
            log,
            k + pages_len(pages, i),
            pages[i],
            "calendar_"@ + bank + "_"@ + padded(decimal((i + 1) as nat), 2),
        );
    }
}

pub(crate) proof fn lemma_lift_calendar<T, U>(
    inner: spec_fn(Seq<AnswerView>) -> Turn<T>,
    outer: spec_fn(Seq<AnswerView>) -> Turn<U>,
    log: Seq<AnswerView>,
    k: int,
    snapshot: JsonView,
    pages: Seq<Seq<u8>>,
    standalone: bool,
)
    requires
        sends_calendar(inner, log, k, snapshot, pages, standalone),
        forall|j: int|
            #![trigger log.take(j)]
            k <= j < k + calendar_len(pages) ==> same_ask(inner(log.take(j)), outer(log.take(j))),
    ensures
        sends_calendar(outer, log, k, snapshot, pages, standalone),
{
    reveal(sends_calendar);
    let m = k + 1 + pages_len(pages, pages.len() as int);
    assert(same_ask(inner(log.take(k)), outer(log.take(k))));
    assert(same_ask(inner(log.take(m)), outer(log.take(m))));
    let bank = text_of(at(or_null(reply_in(log[k])), "bank"@));
    lemma_lift_pages(inner, outer, log, k + 1, bank->0, pages);
}

pub(crate) proof fn lemma_calendar_cut(
    log: Seq<AnswerView>,
    pos: int,
    snapshot: JsonView,
    pages: Seq<Seq<u8>>,
    standalone: bool,
)
    requires
        0 <= pos <= log.len(),
        calendar_sent(log, pos, snapshot, pages, standalone) is Done,
    ensures
        calendar_sent(log, pos, snapshot, pages, standalone)->Done_1 == pos + calendar_len(pages)
            <= log.len(),
        2 <= calendar_len(pages),
        forall|j: int|
            #![trigger log.take(j)]
            pos + calendar_len(pages) <= j <= log.len() ==> calendar_sent(
                log.take(j),
                pos,
                snapshot,
                pages,
                standalone,
            ) == calendar_sent(log, pos, snapshot, pages, standalone),
        forall|j: int|
            #![trigger log.take(j)]
            pos <= j < pos + calendar_len(pages) ==> calendar_sent(
                log.take(j),
                pos,
                snapshot,
                pages,
                standalone,
            ) is Ask,
        sends_calendar(
            |l: Seq<AnswerView>| calendar_sent(l, pos, snapshot, pages, standalone),
            log,
            pos,
            snapshot,
            pages,
            standalone,
        ),
{
    reveal(sends_calendar);
    let run = |l: Seq<AnswerView>| calendar_sent(l, pos, snapshot, pages, standalone);
    let bank = text_of(at(reply_in(log[pos])->0, "bank"@))->0;
    lemma_calendar_names();
    lemma_pages_cut(log, pos + 1, bank, pages, pages.len());
    lemma_pages_sent(log, pos + 1, bank, pages, pages.len());
    let inner = |l: Seq<AnswerView>| pages_uploaded(l, pos + 1, bank, pages, pages.len());
    assert(log.take(pos).len() == pos);
    assert(run(log.take(pos)) is Ask);
    assert forall|j: int|
        #![trigger log.take(j)]
        pos + 1 <= j < pos + 1 + pages_len(pages, pages.len() as int) implies same_ask(
        inner(log.take(j)),
        run(log.take(j)),
    ) by {
        assert(log.take(j)[pos] == log[pos]);
    }
    lemma_lift_pages(inner, run, log, pos + 1, bank, pages);
    let m = pos + 1 + pages_len(pages, pages.len() as int);
    assert(log.take(m)[pos] == log[pos]);
    assert(log.take(m).len() == m);
    assert(run(log.take(m)) is Ask);
    assert forall|j: int| #![trigger log.take(j)] m < j <= log.len() implies run(log.take(j))
        == calendar_sent(log, pos, snapshot, pages, standalone) by {
        assert(log.take(j)[pos] == log[pos]);
        assert(log.take(j)[m] == log[m]);
    }
}

/// The bytes that a radar snapshot is sent as: packed at the time that the `k`-th
/// answer gives.
pub open spec fn radar_bytes(
    log: Seq<AnswerView>,
    k: int,
    snapshot: JsonView,
    scaled: Seq<Scaled>,
) -> Seq<u8> {
    encode_utf8(json_text(compacted_json(snapshot, log[k]->Time_0, scaled)->Ok_0))
}

/// How many questions the sending of radar data takes.
pub open spec fn radar_len(data: Seq<u8>) -> int {
    (data.len() as int + 95) / 96 + 3
}

/// Whether a run sends a radar snapshot from its `k`-th question on: it asks for the
/// time, announces the snapshot as it is packed at that time, with its size, which is
/// at most 8192 bytes, and its sum, sends it in numbered parts of 96 bytes, each of
/// them acknowledged, and completes it; and the device confirmed the sum.
#[verifier::opaque]
pub open spec fn sends_radar<T>(
    run: spec_fn(Seq<AnswerView>) -> Turn<T>,
    log: Seq<AnswerView>,
    k: int,
    snapshot: JsonView,
    standalone: bool,
    scaled: Seq<Scaled>,
) -> bool {
    let data = radar_bytes(log, k, snapshot, scaled);
    let parts = (data.len() as int + 95) / 96;
    let begin = command_in(run(log.take(k + 1)), "radar_begin"@, 4000);
    let end = command_in(run(log.take(k + 2 + parts)), "radar_end"@, 8000);
    let reply = or_null(reply_in(log[k + 2 + parts]));
    let shown = if text_of(at(reply, "mode"@)) == Some("home"@) {
        or_null(at(reply, "radar"@))
    } else {
        reply
    };
    &&& 0 <= k && k + radar_len(data) <= log.len()
    &&& run(log.take(k)) == Turn::<T>::Ask(AskView::Time)
    &&& log[k] is Time
    &&& compacted_json(snapshot, log[k]->Time_0, scaled) is Ok
    &&& data.len() <= 8192
    &&& begin is Some
    &&& at(begin->0, "size"@) == Some(JsonView::Int(data.len() as int))
    &&& at(begin->0, "crc32"@) == Some(JsonView::Str(crc_hex(data)))
    &&& forall|j: int|
        #![trigger log.take(j)]
        k + 2 <= j < k + 2 + parts ==> {
            let part = command_in(run(log.take(j)), "radar_chunk"@, 3000);
            let from = 96 * (j - k - 2);
            &&& part is Some
            &&& at(part->0, "seq"@) == Some(JsonView::Int(j - k - 2))
            &&& at(part->0, "data"@) == Some(
                JsonView::Str(
                    b64_encoded(
                        data.subrange(
                            from,
                            if from + 96 <= data.len() {
                                from + 96
                            } else {
                                data.len() as int
                            },
                        ),
                    ),
                ),
            )
            &&& u64_of(at(or_null(reply_in(log[j])), "next_seq"@)) == Some((j - k - 1) as u64)
        }
    &&& end is Some
    &&& at(end->0, "standalone"@) == Some(JsonView::Bool(standalone))
    &&& text_of(at(shown, "mode"@)) == Some("radar"@)
    &&& text_of(at(shown, "crc32"@)) == Some(crc_hex(data))
}

proof fn lemma_radar_names()
    ensures
        "cmd"@.len() == 3,
        "size"@.len() == 4,
        "crc32"@.len() == 5,
        "seq"@.len() == 3,
        "data"@.len() == 4,
        "standalone"@.len() == 10,
        "radar_begin"@.len() == 11,
        "radar_chunk"@.len() == 11,
        "radar_end"@.len() == 9,
        "next_seq"@.len() == 8,
        "mode"@.len() == 4,
        "radar"@.len() == 5,
        "cmd"@[0] == 'c',
        "seq"@[0] == 's',
        "size"@[0] == 's',
        "data"@[0] == 'd',
        "mode"@[0] == 'm',
        "crc32"@[0] == 'c',
        "radar"@[0] == 'r',
        "radar_begin"@[6] == 'b',
        "radar_chunk"@[6] == 'c',
{
    reveal_strlit("cmd");
    reveal_strlit("size");
    reveal_strlit("crc32");
    reveal_strlit("seq");
    reveal_strlit("data");
    reveal_strlit("standalone");
    reveal_strlit("radar_begin");
    reveal_strlit("radar_chunk");
    reveal_strlit("radar_end");
    reveal_strlit("next_seq");
    reveal_strlit("mode");
    reveal_strlit("radar");
}

proof fn lemma_parts_cut(log: Seq<AnswerView>, pos: int, data: Seq<u8>, n: nat, j: int)
    requires
        0 <= pos <= j <= log.len(),
        radar_parts(log, pos, data, n) is Done,
    ensures
        radar_parts(log, pos, data, n) == Turn::Done((), pos + n),
        pos + n <= log.len(),
        j >= pos + n ==> radar_parts(log.take(j), pos, data, n) == radar_parts(log, pos, data, n),
        j < pos + n ==> radar_parts(log.take(j), pos, data, n) == Turn::<()>::Ask(
            radar_chunk(data, j - pos),
        ) && u64_of(at(or_null(reply_in(log[j])), "next_seq"@)) == Some((j - pos + 1) as u64),
    decreases n,
{
    if n > 0 {
        lemma_parts_cut(log, pos, data, (n - 1) as nat, j);
    }
}

proof fn lemma_radar_asks(
    log: Seq<AnswerView>,
    pos: int,
    snapshot: JsonView,
    standalone: bool,
    scaled: Seq<Scaled>,
    j: int,
)
    requires
        0 <= pos <= j <= log.len(),
        radar_sent(log, pos, snapshot, standalone, scaled) is Done,
    ensures
        ({
            let data = radar_bytes(log, pos, snapshot, scaled);
            let parts = (data.len() as int + 95) / 96;
            let n = pos + parts + 3;
            let t = radar_sent(log.take(j), pos, snapshot, standalone, scaled);
            &&& radar_sent(log, pos, snapshot, standalone, scaled)->Done_1 == n <= log.len()
            &&& log[pos] is Time
            &&& compacted_json(snapshot, log[pos]->Time_0, scaled) is Ok
            &&& data.len() <= 8192
            &&& n <= j ==> t == radar_sent(log, pos, snapshot, standalone, scaled)
            &&& j == pos ==> t == Turn::<JsonView>::Ask(AskView::Time)
            &&& j == pos + 1 ==> t == Turn::<JsonView>::Ask(radar_begin(data))
            &&& pos + 2 <= j < pos + 2 + parts ==> t == Turn::<JsonView>::Ask(
                radar_chunk(data, j - pos - 2),
            ) && u64_of(at(or_null(reply_in(log[j])), "next_seq"@)) == Some((j - pos - 1) as u64)
            &&& j == pos + 2 + parts ==> t == Turn::<JsonView>::Ask(radar_end(standalone))
        }),
{
    let data = radar_bytes(log, pos, snapshot, scaled);
    let parts = chunk_count(data.len());
    lemma_parts_cut(log, pos + 2, data, parts, pos + 2);
    if j >= pos + 2 {
        lemma_parts_cut(log, pos + 2, data, parts, j);
    }
    if j > pos {
        assert(log.take(j)[pos] == log[pos]);
    }
    if j > pos + 1 {
        assert(log.take(j)[pos + 1] == log[pos + 1]);
    }
    if j > pos + 2 + parts {
        assert(log.take(j)[pos + 2 + parts] == log[pos + 2 + parts]);
    }
}

proof fn lemma_radar_commands(data: Seq<u8>, i: int, standalone: bool)
    ensures
        ({
            let c = radar_begin(data)->command;
            let part = radar_chunk(data, i)->command;
            let end = radar_end(standalone)->command;
            &&& radar_begin(data)->Request_timeout_ms == 4000
            &&& at(c, "cmd"@) == Some(JsonView::Str("radar_begin"@))
            &&& at(c, "size"@) == Some(JsonView::Int(data.len() as int))
            &&& at(c, "crc32"@) == Some(JsonView::Str(crc_hex(data)))
            &&& radar_chunk(data, i)->Request_timeout_ms == 3000
            &&& at(part, "cmd"@) == Some(JsonView::Str("radar_chunk"@))
            &&& at(part, "seq"@) == Some(JsonView::Int(i))
            &&& at(part, "data"@) == Some(JsonView::Str(b64_encoded(chunk(data, i))))
            &&& radar_end(standalone)->Request_timeout_ms == 8000
            &&& at(end, "cmd"@) == Some(JsonView::Str("radar_end"@))
            &&& at(end, "standalone"@) == Some(JsonView::Bool(standalone))
        }),
{
    lemma_radar_names();
}

pub(crate) proof fn lemma_radar_cut(
    log: Seq<AnswerView>,
    pos: int,
    snapshot: JsonView,
    standalone: bool,
    scaled: Seq<Scaled>,
)
    requires
        0 <= pos <= log.len(),
        radar_sent(log, pos, snapshot, standalone, scaled) is Done,
    ensures
        ({
            let data = radar_bytes(log, pos, snapshot, scaled);
            let n = pos + radar_len(data);
            &&& radar_sent(log, pos, snapshot, standalone, scaled)->Done_1 == n <= log.len()
            &&& forall|j: int|
                #![trigger log.take(j)]
                n <= j <= log.len() ==> radar_sent(log.take(j), pos, snapshot, standalone, scaled)
                    == radar_sent(log, pos, snapshot, standalone, scaled)
            &&& forall|j: int|
                #![trigger log.take(j)]
                pos <= j < n ==> radar_sent(log.take(j), pos, snapshot, standalone, scaled) is Ask
        }),
{
    lemma_radar_asks(log, pos, snapshot, standalone, scaled, pos);
    assert forall|j: int| #![trigger log.take(j)] pos <= j <= log.len() implies (pos + radar_len(
        radar_bytes(log, pos, snapshot, scaled),
    ) <= j ==> radar_sent(log.take(j), pos, snapshot, standalone, scaled) == radar_sent(
        log,
        pos,
        snapshot,
        standalone,
        scaled,
    )) && (j < pos + radar_len(radar_bytes(log, pos, snapshot, scaled)) ==> radar_sent(
        log.take(j),
        pos,
        snapshot,
        standalone,
        scaled,
    ) is Ask) by {
        lemma_radar_asks(log, pos, snapshot, standalone, scaled, j);
    }
}

proof fn lemma_radar_confirmed(
    log: Seq<AnswerView>,
    pos: int,
    snapshot: JsonView,
    standalone: bool,
    scaled: Seq<Scaled>,
)
    requires
        0 <= pos <= log.len(),
        radar_sent(log, pos, snapshot, standalone, scaled) is Done,
    ensures
        ({
            let data = radar_bytes(log, pos, snapshot, scaled);
            let reply = or_null(reply_in(log[pos + radar_len(data) - 1]));
            let shown = if text_of(at(reply, "mode"@)) == Some("home"@) {
                or_null(at(reply, "radar"@))
            } else {
                reply
            };
            &&& text_of(at(shown, "mode"@)) == Some("radar"@)
            &&& text_of(at(shown, "crc32"@)) == Some(crc_hex(data))
        }),
{
    let data = radar_bytes(log, pos, snapshot, scaled);
    lemma_parts_cut(log, pos + 2, data, chunk_count(data.len()), pos + 2);
}

pub(crate) proof fn lemma_radar_sends(
    log: Seq<AnswerView>,
    pos: int,
    snapshot: JsonView,
    standalone: bool,
    scaled: Seq<Scaled>,
)
    requires
        0 <= pos <= log.len(),
        radar_sent(log, pos, snapshot, standalone, scaled) is Done,
    ensures
        sends_radar(
            |l: Seq<AnswerView>| radar_sent(l, pos, snapshot, standalone, scaled),
            log,
            pos,
            snapshot,
            standalone,
            scaled,
        ),
{
    reveal(sends_radar);
    let run = |l: Seq<AnswerView>| radar_sent(l, pos, snapshot, standalone, scaled);
    let data = radar_bytes(log, pos, snapshot, scaled);
    let parts = (data.len() as int + 95) / 96;
    lemma_radar_asks(log, pos, snapshot, standalone, scaled, pos);
    lemma_radar_asks(log, pos, snapshot, standalone, scaled, pos + 1);
    lemma_radar_asks(log, pos, snapshot, standalone, scaled, pos + 2 + parts);
    lemma_radar_commands(data, 0, standalone);
    lemma_radar_confirmed(log, pos, snapshot, standalone, scaled);
    assert forall|j: int| #![trigger log.take(j)] pos + 2 <= j < pos + 2 + parts implies {
        let part = command_in(run(log.take(j)), "radar_chunk"@, 3000);
        let from = 96 * (j - pos - 2);
        &&& part is Some
        &&& at(part->0, "seq"@) == Some(JsonView::Int(j - pos - 2))
        &&& at(part->0, "data"@) == Some(
            JsonView::Str(
                b64_encoded(
                    data.subrange(
                        from,
                        if from + 96 <= data.len() {
                            from + 96
                        } else {
                            data.len() as int
                        },
                    ),
                ),
            ),
        )
        &&& u64_of(at(or_null(reply_in(log[j])), "next_seq"@)) == Some((j - pos - 1) as u64)
    } by {
        lemma_radar_asks(log, pos, snapshot, standalone, scaled, j);
        lemma_radar_commands(data, j - pos - 2, standalone);
    }
}

pub(crate) proof fn lemma_lift_radar<T, U>(
    inner: spec_fn(Seq<AnswerView>) -> Turn<T>,
    outer: spec_fn(Seq<AnswerView>) -> Turn<U>,
    log: Seq<AnswerView>,
    k: int,
    snapshot: JsonView,
    standalone: bool,
    scaled: Seq<Scaled>,
)
    requires
        sends_radar(inner, log, k, snapshot, standalone, scaled),
        forall|j: int|
            #![trigger log.take(j)]
            k <= j < k + radar_len(radar_bytes(log, k, snapshot, scaled)) ==> same_ask(
                inner(log.take(j)),
                outer(log.take(j)),
            ),
    ensures
        sends_radar(outer, log, k, snapshot, standalone, scaled),
{
    reveal(sends_radar);
    let data = radar_bytes(log, k, snapshot, scaled);
    let parts = (data.len() as int + 95) / 96;
    assert(same_ask(inner(log.take(k)), outer(log.take(k))));
    assert(same_ask(inner(log.take(k + 1)), outer(log.take(k + 1))));
    assert(same_ask(inner(log.take(k + 2 + parts)), outer(log.take(k + 2 + parts))));
    assert forall|j: int| #![trigger log.take(j)] k + 2 <= j < k + 2 + parts implies {
        let part = command_in(outer(log.take(j)), "radar_chunk"@, 3000);
        let from = 96 * (j - k - 2);
        &&& part is Some
        &&& at(part->0, "seq"@) == Some(JsonView::Int(j - k - 2))
        &&& at(part->0, "data"@) == Some(
            JsonView::Str(
                b64_encoded(
                    data.subrange(
                        from,
                        if from + 96 <= data.len() {
                            from + 96
                        } else {
                            data.len() as int
                        },
                    ),
                ),
            ),
        )
        &&& u64_of(at(or_null(reply_in(log[j])), "next_seq"@)) == Some((j - k - 1) as u64)
    } by {
        assert(same_ask(inner(log.take(j)), outer(log.take(j))));
    }
}

/// How many questions a picture takes, where there is one.
pub open spec fn picture_len(picture: Option<Seq<u8>>) -> int {
    match picture {
        Some(data) => upload_len(data),
        None => 0,
    }
}

/// How many questions the calendar of a playlist takes, where there is one.
pub open spec fn day_len(calendar: Option<(JsonView, Seq<Seq<u8>>)>) -> int {
    match calendar {
        Some((_, pages)) => calendar_len(pages),
        None => 0,
    }
}

/// How many questions the task of a playlist takes, where there is one.
pub open spec fn task_len(task: Option<(JsonView, Seq<u8>)>) -> int {
    match task {
        Some((_, labels)) => upload_len(labels) + 1,
        None => 0,
    }
}

/// How many questions the radar of a playlist takes, where there is one.
pub open spec fn curves_len(
    log: Seq<AnswerView>,
    k: int,
    radar: Option<JsonView>,
    scaled: Seq<Scaled>,
) -> int {
    match radar {
        Some(snapshot) => radar_len(radar_bytes(log, k, snapshot, scaled)),
        None => 0,
    }
}

proof fn lemma_picture_cut(log: Seq<AnswerView>, pos: int, picture: Option<Seq<u8>>, target: Seq<char>)
    requires
        0 <= pos <= log.len(),
        picture_uploaded(log, pos, picture, target) is Done,
    ensures
        ({
            let n = pos + picture_len(picture);
            &&& picture_uploaded(log, pos, picture, target) == Turn::Done((), n)
            &&& pos <= n <= log.len()
            &&& forall|j: int|
                #![trigger log.take(j)]
                n <= j <= log.len() ==> picture_uploaded(log.take(j), pos, picture, target)
                    == picture_uploaded(log, pos, picture, target)
            &&& forall|j: int|
                #![trigger log.take(j)]
                pos <= j < n ==> picture_uploaded(log.take(j), pos, picture, target) is Ask
        }),
        picture is Some ==> sends_picture(
            |l: Seq<AnswerView>| picture_uploaded(l, pos, picture, target),
            log,
            pos,
            picture->0,
            target,
        ),
{
    match picture {
        Some(data) => {
            lemma_upload_cut(log, pos, data, target);
            let inner = |l: Seq<AnswerView>| upload(l, pos, data, target);
            let outer = |l: Seq<AnswerView>| picture_uploaded(l, pos, picture, target);
            assert forall|j: int|
                #![trigger log.take(j)]
                pos <= j < pos + upload_len(data) implies same_ask(
                inner(log.take(j)),
                outer(log.take(j)),
            ) by {}
            lemma_lift_picture(inner, outer, log, pos, data, target);
        },
        None => {},
    }
}

proof fn lemma_day_cut(
    log: Seq<AnswerView>,
    pos: int,
    calendar: Option<(JsonView, Seq<Seq<u8>>)>,
)
    requires
        0 <= pos <= log.len(),
        calendar_loaded(log, pos, calendar) is Done,
    ensures
        ({
            let n = pos + day_len(calendar);
            &&& calendar_loaded(log, pos, calendar)->Done_1 == n
            &&& pos <= n <= log.len()
            &&& forall|j: int|
                #![trigger log.take(j)]
                n <= j <= log.len() ==> calendar_loaded(log.take(j), pos, calendar)
                    == calendar_loaded(log, pos, calendar)
            &&& forall|j: int|
                #![trigger log.take(j)]
                pos <= j < n ==> calendar_loaded(log.take(j), pos, calendar) is Ask
        }),
        calendar is Some ==> sends_calendar(
            |l: Seq<AnswerView>| calendar_loaded(l, pos, calendar),
            log,
            pos,
            (calendar->0).0,
            (calendar->0).1,
            false,
        ),
{
    match calendar {
        Some((snapshot, pages)) => {
            lemma_calendar_cut(log, pos, snapshot, pages, false);
            let inner = |l: Seq<AnswerView>| calendar_sent(l, pos, snapshot, pages, false);
            let outer = |l: Seq<AnswerView>| calendar_loaded(l, pos, calendar);
            assert forall|j: int|
                #![trigger log.take(j)]
                pos <= j < pos + calendar_len(pages) implies same_ask(
                inner(log.take(j)),
                outer(log.take(j)),
            ) by {}
            lemma_lift_calendar(inner, outer, log, pos, snapshot, pages, false);
        },
        None => {},
    }
}

/// Whether a run loads a task from its `k`-th question on: the label picture is
/// uploaded, and then the command is sent.
pub open spec fn sends_task<T>(
    run: spec_fn(Seq<AnswerView>) -> Turn<T>,
    log: Seq<AnswerView>,
    k: int,
    command: JsonView,
    labels: Seq<u8>,
) -> bool {
    let m = k + upload_len(labels);
    &&& sends_picture(run, log, k, labels, "task_labels"@)
    &&& run(log.take(m)) == Turn::<T>::Ask(AskView::Request { command, timeout_ms: 8000 })
    &&& m < log.len()
    &&& reply_in(log[m]) is Some
    &&& text_of(at(reply_in(log[m])->0, "mode"@)) == Some("task"@)
}

proof fn lemma_task_cut(log: Seq<AnswerView>, pos: int, task: Option<(JsonView, Seq<u8>)>)
    requires
        0 <= pos <= log.len(),
        task_loaded(log, pos, task) is Done,
    ensures
        ({
            let n = pos + task_len(task);
            &&& task_loaded(log, pos, task) == Turn::Done((), n)
            &&& pos <= n <= log.len()
            &&& forall|j: int|
                #![trigger log.take(j)]
                n <= j <= log.len() ==> task_loaded(log.take(j), pos, task) == task_loaded(
                    log,
                    pos,
                    task,
                )
            &&& forall|j: int|
                #![trigger log.take(j)]
                pos <= j < n ==> task_loaded(log.take(j), pos, task) is Ask
        }),
        task is Some ==> sends_task(
            |l: Seq<AnswerView>| task_loaded(l, pos, task),
            log,
            pos,
            (task->0).0,
            (task->0).1,
        ),
{
    match task {
        Some((cmd, labels)) => {
            lemma_upload_cut(log, pos, labels, "task_labels"@);
            let inner = |l: Seq<AnswerView>| upload(l, pos, labels, "task_labels"@);
            let outer = |l: Seq<AnswerView>| task_loaded(l, pos, task);
            assert forall|j: int|
                #![trigger log.take(j)]
                pos <= j < pos + upload_len(labels) implies same_ask(
                inner(log.take(j)),
                outer(log.take(j)),
            ) by {}
            lemma_lift_picture(inner, outer, log, pos, labels, "task_labels"@);
            let m = pos + upload_len(labels);
            assert(outer(log.take(m)) is Ask);
            assert forall|j: int| #![trigger log.take(j)] m < j <= log.len() implies task_loaded(
                log.take(j),
                pos,
                task,
            ) == task_loaded(log, pos, task) by {
                assert(log.take(j)[m] == log[m]);
            }
        },
        None => {},
    }
}

proof fn lemma_curves_cut(
    log: Seq<AnswerView>,
    pos: int,
    radar: Option<JsonView>,
    scaled: Seq<Scaled>,
)
    requires
        0 <= pos <= log.len(),
        radar_loaded(log, pos, radar, scaled) is Done,
    ensures
        ({
            let n = pos + curves_len(log, pos, radar, scaled);
            &&& radar_loaded(log, pos, radar, scaled)->Done_1 == n
            &&& pos <= n <= log.len()
            &&& forall|j: int|
                #![trigger log.take(j)]
                n <= j <= log.len() ==> radar_loaded(log.take(j), pos, radar, scaled)
                    == radar_loaded(log, pos, radar, scaled)
            &&& forall|j: int|
                #![trigger log.take(j)]
                pos <= j < n ==> radar_loaded(log.take(j), pos, radar, scaled) is Ask
        }),
        radar is Some ==> sends_radar(
            |l: Seq<AnswerView>| radar_loaded(l, pos, radar, scaled),
            log,
            pos,
            radar->0,
            false,
            scaled,
        ),
{
    match radar {
        Some(snapshot) => {
            lemma_radar_cut(log, pos, snapshot, false, scaled);
            lemma_radar_sends(log, pos, snapshot, false, scaled);
            let inner = |l: Seq<AnswerView>| radar_sent(l, pos, snapshot, false, scaled);
            let outer = |l: Seq<AnswerView>| radar_loaded(l, pos, radar, scaled);
            assert forall|j: int|
                #![trigger log.take(j)]
                pos <= j < pos + curves_len(log, pos, radar, scaled) implies same_ask(
                inner(log.take(j)),
                outer(log.take(j)),
            ) by {}
            lemma_lift_radar(inner, outer, log, pos, snapshot, false, scaled);
        },
        None => {},
    }
}

/// Where the parts of a playlist begin among the questions of a run that loads it
/// from its `pos`-th question on: the text, the picture, the calendar, the task, the
/// radar, and the name of the playlist.
pub open spec fn stages(
    log: Seq<AnswerView>,
    pos: int,
    p: PreparedView,
    scaled: Seq<Scaled>,
) -> (int, int, int, int, int, int) {
    let image = pos + picture_len(p.text);
    let calendar = image + picture_len(p.image);
    let task = calendar + day_len(p.calendar);
    let radar = task + task_len(p.task);
    (pos, image, calendar, task, radar, radar + curves_len(log, radar, p.radar, scaled))
}

proof fn lemma_loaded_stages(log: Seq<AnswerView>, pos: int, p: PreparedView, scaled: Seq<Scaled>)
    requires
        0 <= pos <= log.len(),
        playlist_loaded(log, pos, p, scaled) is Done,
    ensures
        ({
            let s = stages(log, pos, p, scaled);
            &&& picture_uploaded(log, s.0, p.text, "home_text"@) == Turn::Done((), s.1)
            &&& picture_uploaded(log, s.1, p.image, "home_image"@) == Turn::Done((), s.2)
            &&& calendar_loaded(log, s.2, p.calendar) is Done
            &&& task_loaded(log, s.3, p.task) == Turn::Done((), s.4)
            &&& radar_loaded(log, s.4, p.radar, scaled) is Done
            &&& pos == s.0 <= s.1 <= s.2 <= s.3 <= s.4 <= s.5
            &&& s.5 + 2 <= log.len()
            &&& calendar_loaded(log, s.2, p.calendar)->Done_1 == s.3
            &&& radar_loaded(log, s.4, p.radar, scaled)->Done_1 == s.5
            &&& log[s.5] is Text
            &&& reply_in(log[s.5 + 1]) is Some
            &&& playlist_loaded(log, pos, p, scaled)->Done_1 == s.5 + 2
            &&& text_of(at(reply_in(log[s.5 + 1])->0, "mode"@)) == Some("home"@)
            &&& text_of(at(reply_in(log[s.5 + 1])->0, "home_id"@)) == Some(log[s.5]->Text_0)
        }),
{
    let s = stages(log, pos, p, scaled);
    lemma_picture_cut(log, s.0, p.text, "home_text"@);
    lemma_picture_cut(log, s.1, p.image, "home_image"@);
    lemma_day_cut(log, s.2, p.calendar);
    lemma_task_cut(log, s.3, p.task);
    lemma_curves_cut(log, s.4, p.radar, scaled);
}

proof fn lemma_loaded_at(
    log: Seq<AnswerView>,
    pos: int,
    p: PreparedView,
    scaled: Seq<Scaled>,
    j: int,
)
    requires
        0 <= pos <= j <= log.len(),
        playlist_loaded(log, pos, p, scaled) is Done,
    ensures
        ({
            let s = stages(log, pos, p, scaled);
            let l = log.take(j);
            let t = playlist_loaded(l, pos, p, scaled);
            &&& s.0 <= j < s.1 ==> same_ask(picture_uploaded(l, s.0, p.text, "home_text"@), t)
            &&& s.1 <= j < s.2 ==> same_ask(picture_uploaded(l, s.1, p.image, "home_image"@), t)
            &&& s.2 <= j < s.3 ==> same_ask(calendar_loaded(l, s.2, p.calendar), t)
            &&& s.3 <= j < s.4 ==> same_ask(task_loaded(l, s.3, p.task), t)
            &&& s.4 <= j < s.5 ==> same_ask(radar_loaded(l, s.4, p.radar, scaled), t)
            &&& j == s.5 ==> t == Turn::<JsonView>::Ask(AskView::Session)
            &&& j == s.5 + 1 ==> t == Turn::<JsonView>::Ask(
                home_apply(p.entries, log[s.5]->Text_0),
            )
            &&& j > s.5 + 1 ==> t == playlist_loaded(log, pos, p, scaled)
        }),
{
    let s = stages(log, pos, p, scaled);
    let l = log.take(j);
    lemma_loaded_stages(log, pos, p, scaled);
    lemma_picture_cut(log, s.0, p.text, "home_text"@);
    if j >= s.1 {
        lemma_picture_cut(log, s.1, p.image, "home_image"@);
    }
    if j >= s.2 {
        lemma_day_cut(log, s.2, p.calendar);
    }
    if j >= s.3 {
        lemma_task_cut(log, s.3, p.task);
    }
    if j >= s.4 {
        lemma_curves_cut(log, s.4, p.radar, scaled);
    }
    if j > s.5 {
        assert(l[s.5] == log[s.5]);
    }
    if j > s.5 + 1 {
        assert(l[s.5 + 1] == log[s.5 + 1]);
    }
}

proof fn lemma_apply_names()
    ensures
        "cmd"@.len() == 3,
        "entries"@.len() == 7,
        "session"@.len() == 7,
        "home_apply"@.len() == 10,
        "entries"@[0] == 'e',
        "session"@[0] == 's',
{
    reveal_strlit("cmd");
    reveal_strlit("entries");
    reveal_strlit("session");
    reveal_strlit("home_apply");
}

/// A playlist that was started was loaded first, scene by scene, and all of it: the
/// device was told that a playlist begins, and then, in this order, got the page of
/// text, the picture, the calendar with every page of it, the task with its labels and
/// the radar, each where the playlist has it. Only then a name was made for the
/// playlist, and it was applied under that name, with the entries that were selected.
pub proof fn law_playlist_is_loaded_before_it_starts(
    log: Seq<AnswerView>,
    pos: int,
    p: PreparedView,
    scaled: Seq<Scaled>,
)
    requires
        0 <= pos < log.len(),
        playlist_started(log, pos, p, scaled) is Done,
    ensures
        ({
            let run = |l: Seq<AnswerView>| playlist_started(l, pos, p, scaled);
            let s = stages(log, pos + 1, p, scaled);
            let apply = command_in(run(log.take(s.5 + 1)), "home_apply"@, 8000);
            &&& command_in(run(log.take(pos)), "home_begin"@, 4000) is Some
            &&& p.text is Some ==> sends_picture(run, log, s.0, p.text->0, "home_text"@)
            &&& p.image is Some ==> sends_picture(run, log, s.1, p.image->0, "home_image"@)
            &&& p.calendar matches Some((snapshot, pages)) ==> sends_calendar(
                run,
                log,
                s.2,
                snapshot,
                pages,
                false,
            )
            &&& p.task matches Some((command, labels)) ==> sends_task(run, log, s.3, command, labels)
            &&& p.radar matches Some(snapshot) ==> sends_radar(
                run,
                log,
                s.4,
                snapshot,
                false,
                scaled,
            )
            &&& run(log.take(s.5)) == Turn::<JsonView>::Ask(AskView::Session)
            &&& log[s.5] is Text
            &&& apply is Some
            &&& at(apply->0, "entries"@) == Some(p.entries)
            &&& at(apply->0, "session"@) == Some(JsonView::Str(log[s.5]->Text_0))
            &&& s.0 <= s.1 <= s.2 <= s.3 <= s.4 <= s.5
            &&& s.5 + 2 <= log.len()
            &&& playlist_started(log, pos, p, scaled)->Done_1 == s.5 + 2
        }),
{
    let run = |l: Seq<AnswerView>| playlist_started(l, pos, p, scaled);
    let k = pos + 1;
    let s = stages(log, k, p, scaled);
    lemma_begin_names();
    lemma_apply_names();
    assert(playlist_loaded(log, k, p, scaled) is Done);
    lemma_loaded_stages(log, k, p, scaled);
    assert forall|j: int| #![trigger log.take(j)] k <= j <= log.len() implies {
        let t = playlist_loaded(log.take(j), k, p, scaled);
        !(t is Failed) ==> run(log.take(j)) == t
    } by {
        assert(log.take(j)[pos] == log[pos]);
    }
    assert(command_in(run(log.take(pos)), "home_begin"@, 4000) is Some);
    lemma_loaded_at(log, k, p, scaled, s.5);
    lemma_loaded_at(log, k, p, scaled, s.5 + 1);
    if p.text is Some {
        let inner = |l: Seq<AnswerView>| picture_uploaded(l, s.0, p.text, "home_text"@);
        lemma_picture_cut(log, s.0, p.text, "home_text"@);
        assert forall|j: int|
            #![trigger log.take(j)]
            s.0 <= j < s.1 implies same_ask(inner(log.take(j)), run(log.take(j))) by {
            lemma_loaded_at(log, k, p, scaled, j);
        }
        lemma_lift_picture(inner, run, log, s.0, p.text->0, "home_text"@);
    }
    if p.image is Some {
        let inner = |l: Seq<AnswerView>| picture_uploaded(l, s.1, p.image, "home_image"@);
        lemma_picture_cut(log, s.1, p.image, "home_image"@);
        assert forall|j: int|
            #![trigger log.take(j)]
            s.1 <= j < s.2 implies same_ask(inner(log.take(j)), run(log.take(j))) by {
            lemma_loaded_at(log, k, p, scaled, j);
        }
        lemma_lift_picture(inner, run, log, s.1, p.image->0, "home_image"@);
    }
    match p.calendar {
        Some((snapshot, pages)) => {
            let inner = |l: Seq<AnswerView>| calendar_loaded(l, s.2, p.calendar);
            lemma_day_cut(log, s.2, p.calendar);
            assert forall|j: int|
                #![trigger log.take(j)]
                s.2 <= j < s.3 implies same_ask(inner(log.take(j)), run(log.take(j))) by {
                lemma_loaded_at(log, k, p, scaled, j);
            }
            lemma_lift_calendar(inner, run, log, s.2, snapshot, pages, false);
        },
        None => {},
    }
    match p.task {
        Some((command, labels)) => {
            let inner = |l: Seq<AnswerView>| task_loaded(l, s.3, p.task);
            lemma_task_cut(log, s.3, p.task);
            assert forall|j: int|
                #![trigger log.take(j)]
                s.3 <= j < s.4 implies same_ask(inner(log.take(j)), run(log.take(j))) by {
                lemma_loaded_at(log, k, p, scaled, j);
            }
            lemma_lift_picture(inner, run, log, s.3, labels, "task_labels"@);
            assert(same_ask(
                inner(log.take(s.3 + upload_len(labels))),
                run(log.take(s.3 + upload_len(labels))),
            ));
        },
        None => {},
    }
    match p.radar {
        Some(snapshot) => {
            let inner = |l: Seq<AnswerView>| radar_loaded(l, s.4, p.radar, scaled);
            lemma_curves_cut(log, s.4, p.radar, scaled);
            assert forall|j: int|
                #![trigger log.take(j)]
                s.4 <= j < s.5 implies same_ask(inner(log.take(j)), run(log.take(j))) by {
                lemma_loaded_at(log, k, p, scaled, j);
            }
            lemma_lift_radar(inner, run, log, s.4, snapshot, false, scaled);
        },
        None => {},
    }
}

proof fn lemma_begin_names()
    ensures
        "cmd"@.len() == 3,
        "home_begin"@.len() == 10,
{
    reveal_strlit("cmd");
    reveal_strlit("home_begin");
}

proof fn lemma_scene_names()
    ensures
        "mode"@.len() == 4,
        "home_id"@.len() == 7,
        "home_entries"@.len() == 12,
        "task"@.len() == 4,
        "radar"@.len() == 5,
        "calendar"@.len() == 8,
        "home_images"@.len() == 11,
        "labels"@.len() == 6,
        "radar_data"@.len() == 10,
        "calendar_pages"@.len() == 14,
        "calendar_signature"@.len() == 18,
        "data"@.len() == 4,
        "text"@.len() == 4,
        "image"@.len() == 5,
        "crc32"@.len() == 5,
        "size"@.len() == 4,
        "mode"@[0] == 'm',
        "task"@[0] == 't',
        "data"@[0] == 'd',
        "text"@[0] == 't',
        "size"@[0] == 's',
        "task"@[1] == 'a',
        "text"@[1] == 'e',
        "radar"@[0] == 'r',
        "image"@[0] == 'i',
        "crc32"@[0] == 'c',
{
    reveal_strlit("mode");
    reveal_strlit("home_id");
    reveal_strlit("home_entries");
    reveal_strlit("task");
    reveal_strlit("radar");
    reveal_strlit("calendar");
    reveal_strlit("home_images");
    reveal_strlit("labels");
    reveal_strlit("radar_data");
    reveal_strlit("calendar_pages");
    reveal_strlit("calendar_signature");
    reveal_strlit("data");
    reveal_strlit("text");
    reveal_strlit("image");
    reveal_strlit("crc32");
    reveal_strlit("size");
}

proof fn lemma_sent_pages_kept(
    log: Seq<AnswerView>,
    pos: int,
    snapshot: JsonView,
    pages: Seq<Seq<u8>>,
    standalone: bool,
)
    requires
        calendar_sent(log, pos, snapshot, pages, standalone) is Done,
    ensures
        ({
            let v = calendar_sent(log, pos, snapshot, pages, standalone)->Done_0;
            let list = items_of(scene_member(v, "calendar"@, "calendar_pages"@));
            &&& list is Some && list->0.len() == pages.len()
            &&& forall|i: int|
                0 <= i < pages.len() ==> at(#[trigger] list->0[i], "data"@) == Some(
                    bytes_view(pages[i]),
                )
        }),
{
    lemma_scene_names();
    let v = calendar_sent(log, pos, snapshot, pages, standalone)->Done_0;
    let n = calendar_sent(log, pos, snapshot, pages, standalone)->Done_1;
    let reply = reply_in(log[n - 1])->0;
    let shown = scene_of(reply, "calendar"@)->0;
    let metas = items_of(at(shown, "calendar_pages"@))->0;
    let filled = pages_filled(metas, pages);
    assert(shown is Object);
    assert(scene_member(v, "calendar"@, "calendar_pages"@) == Some(JsonView::Array(filled)));
    assert forall|i: int| 0 <= i < pages.len() implies at(#[trigger] filled[i], "data"@) == Some(
        bytes_view(pages[i]),
    ) by {
        assert(u64_of(at(metas[i], "size"@)) is Some);
    }
}

proof fn lemma_sent_radar_kept(
    log: Seq<AnswerView>,
    pos: int,
    snapshot: JsonView,
    standalone: bool,
    scaled: Seq<Scaled>,
)
    requires
        radar_sent(log, pos, snapshot, standalone, scaled) is Done,
    ensures
        ({
            let v = radar_sent(log, pos, snapshot, standalone, scaled)->Done_0;
            scene_member(v, "radar"@, "radar_data"@) == Some(
                compacted_json(snapshot, log[pos]->Time_0, scaled)->Ok_0,
            )
        }),
{
    lemma_scene_names();
    let v = radar_sent(log, pos, snapshot, standalone, scaled)->Done_0;
    let n = radar_sent(log, pos, snapshot, standalone, scaled)->Done_1;
    let reply = reply_in(log[n - 1])->0;
    let shown = scene_of(reply, "radar"@)->0;
    assert(shown is Object);
}

/// What a started playlist is reported with: what the device said of it, and put into
/// that everything that was sent: the labels of the task, the data of the radar as they
/// were packed, the bytes of every page of the calendar, and those of the page of text
/// and of the picture.
pub proof fn law_started_playlist_shows_what_was_sent(
    log: Seq<AnswerView>,
    pos: int,
    p: PreparedView,
    scaled: Seq<Scaled>,
)
    requires
        0 <= pos < log.len(),
        playlist_started(log, pos, p, scaled) is Done,
    ensures
        ({
            let v = playlist_started(log, pos, p, scaled)->Done_0;
            let said = reply_in(log[playlist_started(log, pos, p, scaled)->Done_1 - 1])->0;
            let s = stages(log, pos + 1, p, scaled);
            &&& text_of(at(v, "mode"@)) == Some("home"@)
            &&& forall|key: Seq<char>|
                key != "task"@ && key != "radar"@ && key != "calendar"@ && key != "home_images"@
                    ==> #[trigger] at(v, key) == at(said, key)
            &&& p.task matches Some((_, labels)) ==> at(said, "task"@) matches Some(
                JsonView::Object(_),
            ) ==> at_in(v, "task"@, "labels"@) == Some(bytes_view(labels))
            &&& p.radar matches Some(snapshot) ==> at(said, "radar"@) matches Some(
                JsonView::Object(_),
            ) ==> at_in(v, "radar"@, "radar_data"@) == Some(
                compacted_json(snapshot, log[s.4]->Time_0, scaled)->Ok_0,
            )
            &&& p.calendar matches Some((_, pages)) ==> {
                let listed = items_of(at_in(said, "calendar"@, "calendar_pages"@));
                let shown = items_of(at_in(v, "calendar"@, "calendar_pages"@));
                &&& listed is Some ==> shown is Some && shown->0.len() == listed->0.len()
                &&& listed is Some ==> forall|i: int|
                    0 <= i < listed->0.len() && i < pages.len() && listed->0[i] is Object ==> at(
                        #[trigger] shown->0[i],
                        "data"@,
                    ) == Some(bytes_view(pages[i]))
            }
            &&& p.text matches Some(data) ==> at(v, "home_images"@) is Some && at_in(
                at(v, "home_images"@)->0,
                "text"@,
                "data"@,
            ) == Some(bytes_view(data))
            &&& p.image matches Some(data) ==> at(v, "home_images"@) is Some && at_in(
                at(v, "home_images"@)->0,
                "image"@,
                "data"@,
            ) == Some(bytes_view(data))
        }),
{
    let k = pos + 1;
    let s = stages(log, k, p, scaled);
    let v = playlist_started(log, pos, p, scaled)->Done_0;
    assert(playlist_loaded(log, k, p, scaled) is Done);
    lemma_loaded_stages(log, k, p, scaled);
    lemma_scene_names();
    let said = reply_in(log[s.5 + 1])->0;
    assert(said is Object);
    let radar = radar_loaded(log, s.4, p.radar, scaled)->Done_0;
    let calendar = calendar_loaded(log, s.2, p.calendar)->Done_0;
    assert(playlist_filled(s.5 + 2, said, p, radar, calendar) == Turn::Done(v, s.5 + 2));
    match p.radar {
        Some(snapshot) => lemma_sent_radar_kept(log, s.4, snapshot, false, scaled),
        None => {},
    }
    match p.calendar {
        Some((snapshot, pages)) => lemma_sent_pages_kept(log, s.2, snapshot, pages, false),
        None => {},
    }
    lemma_filled(s.5 + 2, said, p, radar, calendar);
}

proof fn lemma_filled(
    pos: int,
    said: JsonView,
    p: PreparedView,
    radar: Option<JsonView>,
    calendar: Option<JsonView>,
)
    requires
        said is Object,
        playlist_filled(pos, said, p, radar, calendar) is Done,
    ensures
        ({
            let v = playlist_filled(pos, said, p, radar, calendar)->Done_0;
            &&& forall|key: Seq<char>|
                key != "task"@ && key != "radar"@ && key != "calendar"@ && key != "home_images"@
                    ==> #[trigger] at(v, key) == at(said, key)
            &&& p.task matches Some((_, labels)) ==> at(said, "task"@) matches Some(
                JsonView::Object(_),
            ) ==> at_in(v, "task"@, "labels"@) == Some(bytes_view(labels))
            &&& radar matches Some(loaded) ==> at(said, "radar"@) matches Some(
                JsonView::Object(_),
            ) ==> scene_member(loaded, "radar"@, "radar_data"@) matches Some(data) ==> at_in(
                v,
                "radar"@,
                "radar_data"@,
            ) == Some(data)
            &&& calendar matches Some(loaded) ==> items_of(
                scene_member(loaded, "calendar"@, "calendar_pages"@),
            ) matches Some(sent) ==> items_of(
                at_in(said, "calendar"@, "calendar_pages"@),
            ) matches Some(listed) ==> {
                let shown = items_of(at_in(v, "calendar"@, "calendar_pages"@));
                &&& shown is Some && shown->0.len() == listed.len()
                &&& forall|i: int|
                    0 <= i < listed.len() && i < sent.len() && listed[i] is Object && at(
                        sent[i],
                        "data"@,
                    ) is Some ==> at(#[trigger] shown->0[i], "data"@) == at(sent[i], "data"@)
            }
            &&& p.text matches Some(data) ==> at(v, "home_images"@) is Some && at_in(
                at(v, "home_images"@)->0,
                "text"@,
                "data"@,
            ) == Some(bytes_view(data))
            &&& p.image matches Some(data) ==> at(v, "home_images"@) is Some && at_in(
                at(v, "home_images"@)->0,
                "image"@,
                "data"@,
            ) == Some(bytes_view(data))
        }),
{
    lemma_scene_names();
    let a = labels_added(said, p.task);
    let b = radar_added(a, radar)->0;
    let c = calendar_added(b, calendar)->0;
    let d = picture_added(c, "text"@, p.text)->0;
    let e = picture_added(d, "image"@, p.image)->0;
    assert(a is Object && b is Object && c is Object && d is Object && e is Object);
    assert(at(b, "task"@) == at(a, "task"@));
    assert(at(c, "task"@) == at(a, "task"@) && at(c, "radar"@) == at(b, "radar"@));
    assert(at(e, "task"@) == at(a, "task"@) && at(e, "radar"@) == at(b, "radar"@));
    assert(at(e, "calendar"@) == at(c, "calendar"@));
    assert(at(b, "calendar"@) == at(said, "calendar"@));
    assert(at(c, "home_images"@) == at(said, "home_images"@));
}

pub(crate) proof fn lemma_started_asks(
    log: Seq<AnswerView>,
    pos: int,
    p: PreparedView,
    scaled: Seq<Scaled>,
    j: int,
)
    requires
        0 <= pos <= j,
        playlist_started(log, pos, p, scaled) is Done,
        j < playlist_started(log, pos, p, scaled)->Done_1,
    ensures
        j < log.len(),
        playlist_started(log.take(j), pos, p, scaled) is Ask,
{
    let k = pos + 1;
    assert(playlist_loaded(log, k, p, scaled) is Done);
    lemma_loaded_stages(log, k, p, scaled);
    if j >= k {
        lemma_loaded_at(log, k, p, scaled, j);
        assert(log.take(j)[pos] == log[pos]);
    }
}

} // verus!
