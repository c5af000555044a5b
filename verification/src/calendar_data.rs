//! The day of a calendar: which calendar is chosen, what its day holds, and the
//! signature by which a change is noticed.

use vstd::prelude::*;
use vstd::utf8::encode_utf8;

use crate::dates::{day_text, weekday_of};
use crate::json::{
    at, at_in, bool_of, dump, empty_object, i64_of, items_of, lemma_array_model,
    lemma_array_smaller, lemma_members_absent, lemma_members_found, lemma_object_smaller, models,
    put, read, same_text, text_of, Json, JsonView,
};
use crate::outside::{
    between, capture_all, clear, cleared, format_day, groups_of, html_decode, html_decoded,
    json_read, json_text, sha256_hex, sha256_of, split_at_matches, weekday,
};
use crate::tally::{comes_before, law_order_is_total, law_order_is_transitive, precedes};
use crate::text::{
    chars_of, glue, join, joined, replace_char, text_of_chars, texts, trim,
    trimmed, with_replaced,
};

verus! {

/// The pattern of an entity between bars.
pub open spec fn wrapped_entity() -> Seq<char> {
    "\\|(&[A-Za-z0-9#]+;)\\|"@
}

/// The pattern of a tag that sets a font.
pub open spec fn font_tag() -> Seq<char> {
    "(?i)</?font\\b[^>]*>"@
}

/// Pieces with fillings between them.
pub open spec fn woven(pieces: Seq<Seq<char>>, fillings: Seq<Seq<char>>) -> Seq<char>
    decreases pieces.len(),
{
    if pieces.len() == 0 {
        Seq::empty()
    } else if pieces.len() == 1 {
        pieces[0]
    } else {
        woven(pieces.drop_last(), fillings) + (if pieces.len() - 2 < fillings.len() {
            fillings[pieces.len() - 2]
        } else {
            Seq::empty()
        }) + pieces.last()
    }
}

/// Each text with its entities decoded.
pub open spec fn all_decoded(v: Seq<Seq<char>>) -> Seq<Seq<char>> {
    Seq::new(v.len(), |i: int| html_decoded(v[i]))
}

/// A text with the entities between bars decoded, bars and all.
pub open spec fn unwrapped(value: Seq<char>) -> Seq<char> {
    match (between(wrapped_entity(), value), groups_of(wrapped_entity(), value, 1)) {
        (Some(pieces), Some(entities)) => woven(pieces, all_decoded(entities)),
        _ => value,
    }
}

/// A text without the tags that set a font.
pub open spec fn without_fonts(value: Seq<char>) -> Seq<char> {
    match cleared(font_tag(), value) {
        Some(s) => s,
        None => value,
    }
}

/// A text of the calendar as it is meant: entities between bars are decoded,
/// tags that set a font are dropped, the remaining entities are decoded, and
/// spaces that do not break become spaces.
pub open spec fn text_decoded(value: Seq<char>) -> Seq<char> {
    with_replaced(html_decoded(without_fonts(unwrapped(value))), '\u{a0}', " "@)
}

/// Puts fillings between pieces.
pub fn weave(pieces: &Vec<String>, fillings: &Vec<String>) -> (r: String)
    ensures
        r@ == woven(texts(pieces@), texts(fillings@)),
{
    let ghost p = texts(pieces@);
    let ghost f = texts(fillings@);
    let mut out = String::new();
    let mut i: usize = 0;
    assert(p.take(0) =~= Seq::empty());
    while i < pieces.len()
        invariant
            i <= pieces@.len(),
            p == texts(pieces@),
            f == texts(fillings@),
            out@ == woven(p.take(i as int), f),
        decreases pieces@.len() - i,
    {
        proof {
            assert(p.take(i as int + 1).drop_last() =~= p.take(i as int));
            assert(p.take(i as int + 1).last() == pieces@[i as int]@);
        }
        let ghost before = out@;
        if i > 0 && i - 1 < fillings.len() {
            out.append(fillings[i - 1].as_str());
        }
        out.append(pieces[i].as_str());
        i += 1;
        proof {
            if i == 1 {
                assert(p.take(1)[0] == pieces@[0]@);
                assert(before =~= Seq::empty());
            }
            assert(out@ =~= woven(p.take(i as int), f));
        }
    }
    assert(p.take(p.len() as int) =~= p);
    out
}

fn decode_all(list: &Vec<String>) -> (r: Vec<String>)
    ensures
        texts(r@) == all_decoded(texts(list@)),
{
    let mut out: Vec<String> = Vec::new();
    let mut i: usize = 0;
    while i < list.len()
        invariant
            i <= list@.len(),
            out@.len() == i,
            forall|k: int| 0 <= k < i ==> (#[trigger] out@[k])@ == html_decoded(list@[k]@),
        decreases list@.len() - i,
    {
        out.push(html_decode(list[i].as_str()));
        i += 1;
    }
    assert(texts(out@) =~= all_decoded(texts(list@)));
    out
}

/// A text of the calendar as it is meant.
pub fn decode_text(value: &str) -> (r: String)
    ensures
        r@ == text_decoded(value@),
{
    let pattern = "\\|(&[A-Za-z0-9#]+;)\\|";
    let step = match (split_at_matches(pattern, value), capture_all(pattern, value, 1)) {
        (Some(pieces), Some(entities)) => weave(&pieces, &decode_all(&entities)),
        _ => value.to_owned(),
    };
    let step = match clear("(?i)</?font\\b[^>]*>", step.as_str()) {
        Some(s) => s,
        None => step,
    };
    replace_char(html_decode(step.as_str()).as_str(), '\u{a0}', " ")
}

/// The lines of a text.
pub open spec fn lines_of(s: Seq<char>) -> Seq<Seq<char>>
    decreases s.len(),
{
    if s.len() == 0 {
        seq![Seq::empty()]
    } else {
        let earlier = lines_of(s.drop_last());
        if s.last() == '\n' {
            earlier.push(Seq::empty())
        } else {
            earlier.drop_last().push(earlier.last().push(s.last()))
        }
    }
}

/// A line of a day: what is to be done, and whether it is done.
#[verifier::ext_equal]
pub struct ItemView {
    pub text: Seq<char>,
    pub done: bool,
}

/// Whether a line is marked as done.
pub open spec fn marked(s: Seq<char>) -> bool {
    s.len() >= 3 && s[0] == '[' && s[1] == '+' && s[2] == ']'
}

/// What a line says, where it says anything: white space around it does not
/// count, and a mark in front says that it is done.
pub open spec fn item_of(line: Seq<char>) -> Option<ItemView> {
    let s = trimmed(line);
    let item = if marked(s) {
        ItemView { text: trimmed(s.skip(3)), done: true }
    } else {
        ItemView { text: s, done: false }
    };
    if item.text.len() == 0 {
        None
    } else {
        Some(item)
    }
}

/// What the lines of a day say.
pub open spec fn day_items(lines: Seq<Seq<char>>) -> Seq<ItemView>
    decreases lines.len(),
{
    if lines.len() == 0 {
        Seq::empty()
    } else {
        match item_of(lines.last()) {
            Some(item) => day_items(lines.drop_last()).push(item),
            None => day_items(lines.drop_last()),
        }
    }
}

/// Every line of a day says something, and no more lines are done than there are.
pub proof fn law_items_say_something(lines: Seq<Seq<char>>)
    ensures
        forall|i: int|
            0 <= i < day_items(lines).len() ==> (#[trigger] day_items(lines)[i]).text.len() > 0,
        0 <= done_count(day_items(lines)) <= day_items(lines).len() <= lines.len(),
    decreases lines.len(),
{
    if lines.len() > 0 {
        law_items_say_something(lines.drop_last());
        let items = day_items(lines);
        match item_of(lines.last()) {
            Some(item) => {
                assert(items.drop_last() =~= day_items(lines.drop_last()));
            },
            None => {},
        }
    }
}

/// A line of a day as JSON.
pub open spec fn item_json(item: ItemView) -> JsonView {
    put(
        put(empty_object(), "text"@, JsonView::Str(item.text)),
        "done"@,
        JsonView::Bool(item.done),
    )
}

/// The lines of a day as JSON.
pub open spec fn items_json(items: Seq<ItemView>) -> Seq<JsonView> {
    Seq::new(items.len(), |i: int| item_json(items[i]))
}

/// How many lines are done.
pub open spec fn done_count(items: Seq<ItemView>) -> int
    decreases items.len(),
{
    if items.len() == 0 {
        0
    } else {
        done_count(items.drop_last()) + if items.last().done {
            1int
        } else {
            0
        }
    }
}

/// Splits a text into its lines.
pub fn split_lines(s: &str) -> (r: Vec<String>)
    ensures
        texts(r@) == lines_of(s@),
{
    let chars = chars_of(s);
    let mut out: Vec<String> = Vec::new();
    let mut line = String::new();
    let mut i: usize = 0;
    assert(s@.take(0) =~= Seq::empty());
    assert(texts(out@).push(line@) =~= seq![Seq::empty()]);
    while i < chars.len()
        invariant
            i <= chars@.len(),
            chars@ == s@,
            texts(out@).push(line@) == lines_of(s@.take(i as int)),
        decreases chars@.len() - i,
    {
        proof {
            assert(s@.take(i as int + 1).drop_last() =~= s@.take(i as int));
            assert(texts(out@).push(line@).drop_last() =~= texts(out@));
        }
        let ghost before = texts(out@);
        if chars[i] == '\n' {
            out.push(line);
            line = String::new();
            assert(texts(out@) =~= before.push(texts(out@).last()));
            assert(line@ =~= Seq::empty());
        } else {
            line.push(chars[i]);
        }
        i += 1;
    }
    let ghost before = texts(out@);
    let ghost last = line@;
    out.push(line);
    proof {
        assert(s@.take(s@.len() as int) =~= s@);
        assert(texts(out@) =~= before.push(last));
    }
    out
}

fn read_item(line: &str) -> (r: Option<(String, bool)>)
    ensures
        match r {
            Some((text, done)) => item_of(line@) == Some(ItemView { text: text@, done }),
            None => item_of(line@) is None,
        },
{
    let s = trim(line);
    let chars = chars_of(s);
    let (text, done) = if chars.len() >= 3 && chars[0] == '[' && chars[1] == '+' && chars[2] == ']' {
        let rest = text_of_chars(vstd::slice::slice_subrange(chars.as_slice(), 3, chars.len()));
        proof {
            assert(rest@ =~= s@.skip(3));
        }
        (trim(rest.as_str()).to_owned(), true)
    } else {
        (s.to_owned(), false)
    };
    if text.as_str().unicode_len() == 0 {
        None
    } else {
        Some((text, done))
    }
}

/// What the content of a day says, line by line.
pub fn parse_items(content: &str) -> (r: Vec<Json>)
    ensures
        models(r@) == items_json(day_items(lines_of(text_decoded(content@)))),
{
    let text = decode_text(content);
    let lines = split_lines(text.as_str());
    let ghost all = texts(lines@);
    let mut out: Vec<Json> = Vec::new();
    let mut i: usize = 0;
    assert(all.take(0) =~= Seq::empty());
    assert(models(out@) =~= items_json(Seq::empty()));
    while i < lines.len()
        invariant
            i <= lines@.len(),
            all == texts(lines@),
            models(out@) == items_json(day_items(all.take(i as int))),
        decreases lines@.len() - i,
    {
        proof {
            assert(all.take(i as int + 1).drop_last() =~= all.take(i as int));
            assert(all.take(i as int + 1).last() == lines@[i as int]@);
        }
        let ghost before = day_items(all.take(i as int));
        let ghost old_models = models(out@);
        match read_item(lines[i].as_str()) {
            Some((text, done)) => {
                let item = Json::object().with("text", Json::text(text.as_str())).with(
                    "done",
                    Json::Bool(done),
                );
                let ghost value = item@;
                out.push(item);
                proof {
                    let v = ItemView { text: text@, done };
                    assert(value == item_json(v));
                    assert(models(out@) =~= old_models.push(value));
                    assert(items_json(before.push(v)) =~= items_json(before).push(item_json(v)));
                }
            },
            None => {},
        }
        i += 1;
    }
    assert(all.take(all.len() as int) =~= all);
    out
}

/// Texts in order, none of them twice.
pub open spec fn ordered(keys: Seq<Seq<char>>) -> bool {
    forall|i: int, j: int|
        0 <= i < j < keys.len() ==> precedes(#[trigger] keys[i], #[trigger] keys[j])
}

/// Whether some texts are the keys of an object, in order.
pub open spec fn keys_of(keys: Seq<Seq<char>>, m: Map<Seq<char>, JsonView>) -> bool {
    ordered(keys) && forall|k: Seq<char>| #[trigger] keys.contains(k) <==> m.dom().contains(k)
}

/// The text of a value with its keys in order, and with a space after each comma
/// and each colon.
pub open spec fn dumped(v: JsonView) -> Seq<char>
    decreases v, 1nat, 0nat,
{
    match v {
        JsonView::Array(items) => "["@ + joined(dumped_items(items, items.len()), ", "@) + "]"@,
        JsonView::Object(m) => {
            let keys = choose|keys: Seq<Seq<char>>| keys_of(keys, m);
            "{"@ + joined(dumped_members(v, keys, keys.len()), ", "@) + "}"@
        },
        _ => json_text(v),
    }
}

/// The texts of the first values of a list.
pub open spec fn dumped_items(items: Seq<JsonView>, n: nat) -> Seq<Seq<char>>
    decreases items, 0nat, n,
{
    if n == 0 || n > items.len() {
        Seq::empty()
    } else {
        dumped_items(items, (n - 1) as nat).push(dumped(items[n - 1]))
    }
}

/// The texts of the members under the first keys.
pub open spec fn dumped_members(v: JsonView, keys: Seq<Seq<char>>, n: nat) -> Seq<Seq<char>>
    decreases v, 0nat, n,
{
    if n == 0 || n > keys.len() {
        Seq::empty()
    } else {
        let key = keys[n - 1];
        dumped_members(v, keys, (n - 1) as nat).push(
            json_text(JsonView::Str(key)) + ": "@ + match v {
                JsonView::Object(m) => if m.dom().contains(key) {
                    dumped(m[key])
                } else {
                    Seq::empty()
                },
                _ => Seq::empty(),
            },
        )
    }
}

proof fn lemma_keys_unique(a: Seq<Seq<char>>, b: Seq<Seq<char>>, m: Map<Seq<char>, JsonView>)
    requires
        keys_of(a, m),
        keys_of(b, m),
    ensures
        a == b,
{
    lemma_ordered_unique(a, b);
}

proof fn lemma_ordered_unique(a: Seq<Seq<char>>, b: Seq<Seq<char>>)
    requires
        ordered(a),
        ordered(b),
        forall|k: Seq<char>| #[trigger] a.contains(k) <==> b.contains(k),
    ensures
        a == b,
    decreases a.len(),
{
    if a.len() == 0 {
        if b.len() > 0 {
            assert(b.contains(b[0]));
            assert(a.contains(b[0]));
        }
        assert(a =~= b);
    } else {
        let x = a.last();
        assert(a.contains(x));
        assert(b.contains(x));
        let y = b.last();
        assert(b.contains(y));
        assert(a.contains(y));
        let i = choose|i: int| 0 <= i < a.len() && a[i] == y;
        let j = choose|j: int| 0 <= j < b.len() && b[j] == x;
        law_order_is_total(x, y);
        if x != y {
            assert(precedes(a[i], a[a.len() - 1]));
            assert(precedes(b[j], b[b.len() - 1]));
        }
        let c = a.drop_last();
        let d = b.drop_last();
        assert forall|k: Seq<char>| #[trigger] c.contains(k) <==> d.contains(k) by {
            if c.contains(k) {
                let n = choose|n: int| 0 <= n < c.len() && c[n] == k;
                assert(a[n] == k);
                assert(a.contains(k));
                assert(b.contains(k));
                let p = choose|p: int| 0 <= p < b.len() && b[p] == k;
                assert(precedes(a[n], a[a.len() - 1]));
                law_order_is_total(k, x);
                assert(p != b.len() - 1);
                assert(d[p] == k);
            }
            if d.contains(k) {
                let n = choose|n: int| 0 <= n < d.len() && d[n] == k;
                assert(b[n] == k);
                assert(b.contains(k));
                assert(a.contains(k));
                let p = choose|p: int| 0 <= p < a.len() && a[p] == k;
                assert(precedes(b[n], b[b.len() - 1]));
                law_order_is_total(k, x);
                assert(p != a.len() - 1);
                assert(c[p] == k);
            }
        }
        lemma_ordered_unique(c, d);
        assert(a =~= c.push(x));
        assert(b =~= d.push(y));
    }
}

/// The keys of an object, in order.
fn ordered_keys(j: &Json) -> (r: Vec<String>)
    ensures
        ordered(texts(r@)),
        forall|k: Seq<char>| #[trigger] texts(r@).contains(k) <==> at(j@, k) is Some,
{
    let keys = j.keys();
    let mut out: Vec<String> = Vec::new();
    let mut i: usize = 0;
    while i < keys.len()
        invariant
            i <= keys@.len(),
            forall|k: Seq<char>|
                at(j@, k) is Some <==> exists|n: int|
                    0 <= n < keys@.len() && (#[trigger] keys@[n])@ == k,
            ordered(texts(out@)),
            forall|k: Seq<char>| #[trigger]
                texts(out@).contains(k) <==> exists|n: int|
                    0 <= n < i && (#[trigger] keys@[n])@ == k,
        decreases keys@.len() - i,
    {
        let ghost before = texts(out@);
        let ghost key = keys@[i as int]@;
        let mut p: usize = 0;
        while p < out.len() && comes_before(out[p].as_str(), keys[i].as_str())
            invariant
                p <= out@.len(),
                i < keys@.len(),
                before == texts(out@),
                key == keys@[i as int]@,
                forall|q: int| 0 <= q < p ==> precedes(#[trigger] before[q], key),
            decreases out@.len() - p,
        {
            assert(before[p as int] == out@[p as int]@);
            p += 1;
        }
        if p < out.len() && same_text(out[p].as_str(), keys[i].as_str()) {
            proof {
                assert(before[p as int] == key);
                assert forall|k: Seq<char>| #[trigger]
                    before.contains(k) <==> exists|n: int|
                        0 <= n < i + 1 && (#[trigger] keys@[n])@ == k by {
                    if k == key {
                        assert(before.contains(k));
                        assert(keys@[i as int]@ == k);
                    }
                }
            }
        } else {
            out.insert(p, keys[i].clone());
            proof {
                lemma_key_inserted(before, p as int, key);
                assert(texts(out@) =~= before.insert(p as int, key));
                assert forall|k: Seq<char>| #[trigger]
                    texts(out@).contains(k) <==> exists|n: int|
                        0 <= n < i + 1 && (#[trigger] keys@[n])@ == k by {
                    assert(texts(out@).contains(k) <==> before.contains(k) || k == key);
                    if before.contains(k) {
                        let n = choose|n: int| 0 <= n < i && (#[trigger] keys@[n])@ == k;
                        assert(keys@[n]@ == k);
                    }
                    if k == key {
                        assert(keys@[i as int]@ == k);
                    }
                }
            }
        }
        i += 1;
    }
    out
}

proof fn lemma_key_inserted(keys: Seq<Seq<char>>, p: int, key: Seq<char>)
    requires
        ordered(keys),
        0 <= p <= keys.len(),
        forall|q: int| 0 <= q < p ==> precedes(#[trigger] keys[q], key),
        p < keys.len() ==> !precedes(keys[p], key) && keys[p] != key,
    ensures
        ordered(keys.insert(p, key)),
        forall|k: Seq<char>| #[trigger]
            keys.insert(p, key).contains(k) <==> keys.contains(k) || k == key,
{
    let s = keys.insert(p, key);
    assert forall|i: int, j: int| 0 <= i < j < s.len() implies precedes(
        #[trigger] s[i],
        #[trigger] s[j],
    ) by {
        let x = if i < p {
            i
        } else {
            i - 1
        };
        let y = if j < p {
            j
        } else {
            j - 1
        };
        if i == p {
            assert(s[j] == keys[y]);
            law_order_is_total(keys[p], key);
            if y > p {
                assert(precedes(keys[p], keys[y]));
                law_order_is_transitive(key, keys[p], keys[y]);
            }
        } else if j == p {
            assert(s[i] == keys[x]);
        } else {
            assert(s[i] == keys[x]);
            assert(s[j] == keys[y]);
        }
    }
    assert forall|k: Seq<char>| #[trigger] s.contains(k) <==> keys.contains(k) || k == key by {
        if keys.contains(k) {
            let n = choose|n: int| 0 <= n < keys.len() && keys[n] == k;
            let m = if n < p {
                n
            } else {
                n + 1
            };
            assert(s[m] == k);
        }
        if k == key {
            assert(s[p] == k);
        }
        if s.contains(k) && k != key {
            let m = choose|m: int| 0 <= m < s.len() && s[m] == k;
            let n = if m < p {
                m
            } else {
                m - 1
            };
            assert(keys[n] == k);
        }
    }
}

/// Writes a value with its keys in order, and with a space after each comma and
/// each colon.
pub fn json_dumps_sorted(j: &Json) -> (r: String)
    ensures
        r@ == dumped(j@),
    decreases j,
{
    match j {
        Json::Array(items) => {
            let ghost all = models(items@);
            let mut parts: Vec<String> = Vec::new();
            let mut i: usize = 0;
            assert(texts(parts@) =~= Seq::empty());
            while i < items.len()
                invariant
                    i <= items@.len(),
                    *j == Json::Array(*items),
                    all == models(items@),
                    texts(parts@) == dumped_items(all, i as nat),
                decreases items@.len() - i,
            {
                proof {
                    lemma_array_smaller(*items, i as int);
                    assert(all[i as int] == items@[i as int]@);
                }
                let ghost before = texts(parts@);
                parts.push(json_dumps_sorted(&items[i]));
                assert(texts(parts@) =~= before.push(dumped(all[i as int])));
                i += 1;
            }
            proof {
                lemma_array_model(*items);
            }
            let mut out = glue("[", join(&parts, ", ").as_str());
            out.append("]");
            out
        },
        Json::Object(entries) => {
            let keys = ordered_keys(j);
            let ghost m = j@->Object_0;
            let ghost all = texts(keys@);
            proof {
                assert forall|k: Seq<char>| #[trigger] all.contains(k) <==> m.dom().contains(k) by {
                    assert(at(j@, k) is Some <==> m.dom().contains(k));
                }
                assert(keys_of(all, m));
                let chosen = choose|keys: Seq<Seq<char>>| keys_of(keys, m);
                lemma_keys_unique(all, chosen, m);
            }
            let mut parts: Vec<String> = Vec::new();
            let mut i: usize = 0;
            assert(texts(parts@) =~= Seq::empty());
            while i < keys.len()
                invariant
                    i <= keys@.len(),
                    *j == Json::Object(*entries),
                    m == j@->Object_0,
                    all == texts(keys@),
                    keys_of(all, m),
                    texts(parts@) == dumped_members(j@, all, i as nat),
                decreases keys@.len() - i,
            {
                let key = keys[i].as_str();
                proof {
                    assert(all[i as int] == key@);
                    assert(all.contains(key@));
                }
                let ghost before = texts(parts@);
                let mut part = glue(dump(&Json::text(key)).as_str(), ": ");
                match Json::position(entries, key) {
                    Some(p) => {
                        proof {
                            lemma_members_found(entries@, p as int, key@);
                            lemma_object_smaller(*entries, p as int);
                        }
                        part.append(json_dumps_sorted(&entries[p].1).as_str());
                    },
                    None => {
                        proof {
                            lemma_members_absent(entries@, key@);
                        }
                    },
                }
                let ghost written = part@;
                parts.push(part);
                assert(texts(parts@) =~= before.push(written));
                i += 1;
            }
            let mut out = glue("{", join(&parts, ", ").as_str());
            out.append("}");
            out
        },
        _ => dump(j),
    }
}

/// A setting of the calendar.
#[derive(Debug)]
pub struct Setting {
    pub name: String,
    pub number: i64,
    pub text: String,
}

#[verifier::ext_equal]
pub struct SettingView {
    pub name: Seq<char>,
    pub number: int,
    pub text: Seq<char>,
}

impl View for Setting {
    type V = SettingView;

    open spec fn view(&self) -> SettingView {
        SettingView { name: self.name@, number: self.number as int, text: self.text@ }
    }
}

pub open spec fn setting_views(v: Seq<Setting>) -> Seq<SettingView> {
    Seq::new(v.len(), |i: int| v[i]@)
}

/// The last setting of a name.
pub open spec fn setting_of(rows: Seq<SettingView>, name: Seq<char>) -> Option<SettingView>
    decreases rows.len(),
{
    if rows.len() == 0 {
        None
    } else if rows.last().name == name {
        Some(rows.last())
    } else {
        setting_of(rows.drop_last(), name)
    }
}

fn find_setting<'a>(rows: &'a Vec<Setting>, name: &str) -> (r: Option<&'a Setting>)
    ensures
        match r {
            Some(s) => setting_of(setting_views(rows@), name@) == Some(s@),
            None => setting_of(setting_views(rows@), name@) is None,
        },
{
    let ghost all = setting_views(rows@);
    let mut i: usize = rows.len();
    assert(all.take(all.len() as int) =~= all);
    while i > 0
        invariant
            i <= rows@.len(),
            all == setting_views(rows@),
            setting_of(all, name@) == setting_of(all.take(i as int), name@),
        decreases i,
    {
        i -= 1;
        proof {
            assert(all.take(i as int + 1).drop_last() =~= all.take(i as int));
            assert(all.take(i as int + 1).last() == rows@[i as int]@);
        }
        if same_text(rows[i].name.as_str(), name) {
            return Some(&rows[i]);
        }
    }
    None
}

/// The calendar that is chosen: its number, its name, and the group that it is
/// shown for.
#[derive(Debug)]
pub struct Account {
    pub id: i64,
    pub name: String,
    pub group: String,
}

#[verifier::ext_equal]
pub struct AccountView {
    pub id: int,
    pub name: Seq<char>,
    pub group: Seq<char>,
}

impl View for Account {
    type V = AccountView;

    open spec fn view(&self) -> AccountView {
        AccountView { id: self.id as int, name: self.name@, group: self.group@ }
    }
}

/// What is said where no calendar is chosen.
pub open spec fn no_account() -> Seq<char> {
    "请在日历清单中选择一个具体子日历"@
}

/// The first row with a number.
pub open spec fn row_with_id(list: Seq<JsonView>, id: int) -> Option<JsonView>
    decreases list.len(),
{
    if list.len() == 0 {
        None
    } else if (match i64_of(at(list[0], "id"@)) {
        Some(n) => n == id,
        None => false,
    }) {
        Some(list[0])
    } else {
        row_with_id(list.drop_first(), id)
    }
}

/// The name of the calendar with a number in the list of calendars.
pub open spec fn account_name(list: Seq<JsonView>, id: int) -> Result<Seq<char>, Seq<char>> {
    match row_with_id(list, id) {
        Some(row) => match text_of(at(row, "name"@)) {
            Some(name) => Ok(name),
            None => Err(no_account()),
        },
        None => Err(no_account()),
    }
}

/// The name of a calendar in what the list of calendars was read as.
pub open spec fn account_in(read: Result<JsonView, Seq<char>>, id: int) -> Result<
    Seq<char>,
    Seq<char>,
> {
    match read {
        Err(e) => Err(e),
        Ok(v) => match items_of(at_in(v, "vdata"@, "list"@)) {
            None => Err("子日历列表无效"@),
            Some(list) => account_name(list, id),
        },
    }
}

/// The calendar that is chosen in the settings, or what is wrong with them.
pub open spec fn account_of(rows: Seq<SettingView>) -> Result<AccountView, Seq<char>> {
    match setting_of(rows, "sys_current_sub_account"@) {
        None => Err(no_account()),
        Some(current) => if current.number < 0 {
            Err(no_account())
        } else {
            match setting_of(rows, "sys_sub_account_list"@) {
                None => Err(no_account()),
                Some(list) => match account_in(
                    json_read(encode_utf8(text_decoded(list.text))),
                    current.number,
                ) {
                    Err(e) => Err(e),
                    Ok(name) => Ok(
                        AccountView {
                            id: current.number,
                            name,
                            group: match setting_of(rows, "group_id"@) {
                                Some(s) => s.text,
                                None => Seq::empty(),
                            },
                        },
                    ),
                },
            }
        },
    }
}

fn find_row(list: &Vec<Json>, id: i64) -> (r: Option<&Json>)
    ensures
        match r {
            Some(v) => row_with_id(models(list@), id as int) == Some(v@),
            None => row_with_id(models(list@), id as int) is None,
        },
{
    let ghost all = models(list@);
    let mut i: usize = 0;
    assert(all.skip(0) =~= all);
    while i < list.len()
        invariant
            i <= list@.len(),
            all == models(list@),
            row_with_id(all, id as int) == row_with_id(all.skip(i as int), id as int),
        decreases list@.len() - i,
    {
        proof {
            assert(all.skip(i as int)[0] == list@[i as int]@);
            assert(all.skip(i as int).drop_first() =~= all.skip(i as int + 1));
        }
        match list[i].get_i64("id") {
            Some(n) => {
                if n == id {
                    return Some(&list[i]);
                }
            },
            None => {},
        }
        i += 1;
    }
    None
}

/// The name of a calendar in what the list of calendars was read as.
pub fn choose_account(read: Result<Json, String>, id: i64) -> (r: Result<String, String>)
    ensures
        ({
            let list = match read {
                Ok(v) => Ok(v@),
                Err(e) => Err(e@),
            };
            match r {
                Ok(name) => account_in(list, id as int) == Ok::<Seq<char>, Seq<char>>(name@),
                Err(e) => account_in(list, id as int) == Err::<Seq<char>, Seq<char>>(e@),
            }
        }),
{
    let accounts = match read {
        Ok(v) => v,
        Err(e) => {
            return Err(e);
        },
    };
    let list = match accounts.get_in("vdata", "list") {
        Some(l) => match l.as_array() {
            Some(a) => a,
            None => {
                return Err("子日历列表无效".to_owned());
            },
        },
        None => {
            return Err("子日历列表无效".to_owned());
        },
    };
    match find_row(list, id) {
        Some(row) => match row.get_str("name") {
            Some(name) => Ok(name.to_owned()),
            None => Err("请在日历清单中选择一个具体子日历".to_owned()),
        },
        None => Err("请在日历清单中选择一个具体子日历".to_owned()),
    }
}

/// The calendar that is chosen in the settings.
pub fn current_account(rows: &Vec<Setting>) -> (r: Result<Account, String>)
    ensures
        match r {
            Ok(a) => account_of(setting_views(rows@)) == Ok::<AccountView, Seq<char>>(a@),
            Err(e) => account_of(setting_views(rows@)) == Err::<AccountView, Seq<char>>(e@),
        },
{
    let id = match find_setting(rows, "sys_current_sub_account") {
        Some(s) => s.number,
        None => {
            return Err("请在日历清单中选择一个具体子日历".to_owned());
        },
    };
    if id < 0 {
        return Err("请在日历清单中选择一个具体子日历".to_owned());
    }
    let list = match find_setting(rows, "sys_sub_account_list") {
        Some(s) => decode_text(s.text.as_str()),
        None => {
            return Err("请在日历清单中选择一个具体子日历".to_owned());
        },
    };
    let name = match choose_account(read(list.as_str().as_bytes()), id) {
        Ok(n) => n,
        Err(e) => {
            return Err(e);
        },
    };
    let group = match find_setting(rows, "group_id") {
        Some(s) => s.text.clone(),
        None => String::new(),
    };
    proof {
        assert(setting_of(setting_views(rows@), "group_id"@) is None ==> group@ =~= Seq::empty());
    }
    Ok(Account { id, name, group })
}

/// A day of the calendar.
#[derive(Debug, Clone, Copy)]
pub struct Day {
    pub year: i32,
    pub month: u32,
    pub day: u32,
}

/// The name of a day of the week, by the days since Monday.
pub open spec fn weekday_name(n: int) -> Seq<char> {
    if n == 0 {
        "周一"@
    } else if n == 1 {
        "周二"@
    } else if n == 2 {
        "周三"@
    } else if n == 3 {
        "周四"@
    } else if n == 4 {
        "周五"@
    } else if n == 5 {
        "周六"@
    } else {
        "周日"@
    }
}

/// The name of a day of the week, by the days since Monday.
pub fn weekday_label(n: u32) -> (r: &'static str)
    ensures
        r@ == weekday_name(n as int),
{
    if n == 0 {
        "周一"
    } else if n == 1 {
        "周二"
    } else if n == 2 {
        "周三"
    } else if n == 3 {
        "周四"
    } else if n == 4 {
        "周五"
    } else if n == 5 {
        "周六"
    } else {
        "周日"
    }
}

/// The key under which the calendar keeps a day.
pub fn day_key(day: Day) -> (r: Option<String>)
    ensures
        match (r, day_text(day.year as int, day.month as int, day.day as int, false)) {
            (Some(s), Some(t)) => s@ == "dkcal_mdays_"@ + t,
            (None, None) => true,
            _ => false,
        },
{
    proof {
        reveal_strlit("%Y%m%d");
        reveal_strlit("%Y-%m-%d");
        assert("%Y%m%d"@.len() < "%Y-%m-%d"@.len());
    }
    match format_day(day.year, day.month, day.day, "%Y%m%d") {
        Some(t) => Some(glue("dkcal_mdays_", t.as_str())),
        None => None,
    }
}

/// A day of a calendar as JSON.
pub open spec fn day_json(
    date: Seq<char>,
    weekday: Seq<char>,
    account: AccountView,
    items: Seq<ItemView>,
) -> JsonView {
    put(
        put(
            put(
                put(
                    put(
                        put(
                            put(
                                put(empty_object(), "date"@, JsonView::Str(date)),
                                "weekday"@,
                                JsonView::Str(weekday),
                            ),
                            "account"@,
                            JsonView::Str(account.name),
                        ),
                        "account_id"@,
                        JsonView::Int(account.id),
                    ),
                    "items"@,
                    JsonView::Array(items_json(items)),
                ),
                "total"@,
                JsonView::Int(items.len() as int),
            ),
            "done"@,
            JsonView::Int(done_count(items)),
        ),
        "layout"@,
        JsonView::Int(2),
    )
}

/// The signature of a day: it is about what the day holds, and neither about
/// when it was read nor about where.
pub open spec fn signature_of(day: JsonView) -> Seq<char> {
    sha256_of(encode_utf8(dumped(day))).take(16)
}

/// A day with its signature and the place that it was read from.
pub open spec fn signed(day: JsonView, path: Seq<char>) -> JsonView {
    put(
        put(day, "signature"@, JsonView::Str(signature_of(day))),
        "db_path"@,
        JsonView::Str(path),
    )
}

/// What the rows of a day say: at most one row holds all of it.
pub open spec fn rows_items(rows: Seq<Seq<char>>) -> Result<Seq<ItemView>, Seq<char>> {
    if rows.len() > 1 {
        Err("当天日格存在多条记录，需先核对日历数据，未擅自合并"@)
    } else if rows.len() == 1 {
        Ok(day_items(lines_of(text_decoded(rows[0]))))
    } else {
        Ok(Seq::empty())
    }
}

fn count_done(items: &Vec<Json>, views: Ghost<Seq<ItemView>>) -> (r: u64)
    requires
        models(items@) == items_json(views@),
    ensures
        r == done_count(views@),
        r <= items@.len(),
{
    let ghost all = models(items@);
    let mut n: u64 = 0;
    let mut i: usize = 0;
    assert(views@.take(0) =~= Seq::empty());
    proof {
        assert(all.len() == views@.len());
    }
    while i < items.len()
        invariant
            i <= items@.len() == views@.len(),
            all == models(items@),
            all == items_json(views@),
            n == done_count(views@.take(i as int)),
            n <= i,
        decreases items@.len() - i,
    {
        proof {
            assert(views@.take(i as int + 1).drop_last() =~= views@.take(i as int));
            assert(views@.take(i as int + 1).last() == views@[i as int]);
            assert(all[i as int] == items@[i as int]@);
            assert(all[i as int] == item_json(views@[i as int]));
            assert(at(all[i as int], "done"@) == Some(JsonView::Bool(views@[i as int].done)));
        }
        match items[i].get_bool("done") {
            Some(true) => {
                n = n + 1;
            },
            _ => {},
        }
        i += 1;
    }
    assert(views@.take(views@.len() as int) =~= views@);
    n
}

/// Puts the record of a day together: what it holds, how much of it is done, and
/// the signature of that.
pub fn day_record(account: &Account, day: Day, rows: &Vec<String>, path: &str) -> (r: Result<
    Json,
    String,
>)
    ensures
        ({
            let date = day_text(day.year as int, day.month as int, day.day as int, true);
            let week = weekday_of(day.year as int, day.month as int, day.day as int);
            match rows_items(texts(rows@)) {
                Err(m) => match r {
                    Err(e) => e@ == m,
                    Ok(_) => false,
                },
                Ok(items) => match (date, week) {
                    (Some(date), Some(n)) => match r {
                        Ok(v) => {
                            let plain = day_json(date, weekday_name(n), account@, items);
                            v@ == signed(plain, path@) && signature_of(plain).len() == 16
                        },
                        Err(_) => false,
                    },
                    _ => match r {
                        Err(e) => e@ == "日期无效"@,
                        Ok(_) => false,
                    },
                },
            }
        }),
{
    if rows.len() > 1 {
        return Err("当天日格存在多条记录，需先核对日历数据，未擅自合并".to_owned());
    }
    let ghost views: Seq<ItemView> = if rows@.len() == 1 {
        day_items(lines_of(text_decoded(rows@[0]@)))
    } else {
        Seq::empty()
    };
    let items = if rows.len() == 1 {
        parse_items(rows[0].as_str())
    } else {
        Vec::new()
    };
    proof {
        assert(models(items@) =~= items_json(views));
        assert(models(items@).len() == items@.len());
        if rows@.len() == 1 {
            assert(texts(rows@)[0] == rows@[0]@);
        }
    }
    let (date, week) = match (
        format_day(day.year, day.month, day.day, "%Y-%m-%d"),
        weekday(day.year, day.month, day.day),
    ) {
        (Some(d), Some(n)) => (d, weekday_label(n)),
        _ => {
            return Err("日期无效".to_owned());
        },
    };
    let total = items.len() as u64;
    let done = count_done(&items, Ghost(views));
    let mut data = Json::object().with("date", Json::text(date.as_str())).with(
        "weekday",
        Json::text(week),
    ).with("account", Json::text(account.name.as_str())).with("account_id", Json::Int(account.id)).with(
        "items",
        Json::list(items),
    ).with("total", Json::Uint(total)).with("done", Json::Uint(done)).with("layout", Json::Uint(2));
    let sum = sha256_hex(json_dumps_sorted(&data).as_str().as_bytes());
    let digits = chars_of(sum.as_str());
    let signature = text_of_chars(vstd::slice::slice_subrange(digits.as_slice(), 0, 16));
    assert(signature@ =~= sum@.take(16));
    data.insert("signature", Json::text(signature.as_str()));
    data.insert("db_path", Json::text(path));
    Ok(data)
}

proof fn lemma_day_names()
    ensures
        "date"@.len() == 4,
        "weekday"@.len() == 7,
        "account"@.len() == 7,
        "account_id"@.len() == 10,
        "items"@.len() == 5,
        "total"@.len() == 5,
        "done"@.len() == 4,
        "layout"@.len() == 6,
        "signature"@.len() == 9,
        "db_path"@.len() == 7,
        "text"@.len() == 4,
        "date"@[1] == 'a',
        "done"@[1] == 'o',
        "date"@[0] == 'd',
        "text"@[0] == 't',
        "weekday"@[0] == 'w',
        "account"@[0] == 'a',
        "db_path"@[0] == 'd',
        "items"@[0] == 'i',
        "total"@[0] == 't',
        "done"@[0] == 'd',
{
    reveal_strlit("date");
    reveal_strlit("weekday");
    reveal_strlit("account");
    reveal_strlit("account_id");
    reveal_strlit("items");
    reveal_strlit("total");
    reveal_strlit("done");
    reveal_strlit("layout");
    reveal_strlit("signature");
    reveal_strlit("db_path");
    reveal_strlit("text");
}

/// The record of a day says what the day holds: the date, the day of the week and
/// the calendar; every line with its text and with whether it is done, in order; how
/// many lines there are; and as done exactly as many as there are lines that are
/// marked as done. The signature and the place are those that belong to it.
pub proof fn law_day_record_says_what_the_day_holds(
    date: Seq<char>,
    weekday: Seq<char>,
    account: AccountView,
    items: Seq<ItemView>,
    path: Seq<char>,
)
    ensures
        ({
            let plain = day_json(date, weekday, account, items);
            let v = signed(plain, path);
            let list = items_of(at(v, "items"@));
            &&& text_of(at(v, "date"@)) == Some(date)
            &&& text_of(at(v, "weekday"@)) == Some(weekday)
            &&& text_of(at(v, "account"@)) == Some(account.name)
            &&& at(v, "account_id"@) == Some(JsonView::Int(account.id))
            &&& at(v, "layout"@) == Some(JsonView::Int(2))
            &&& list is Some
            &&& list->0.len() == items.len()
            &&& forall|i: int|
                #![trigger list->0[i]]
                0 <= i < items.len() ==> text_of(at(list->0[i], "text"@)) == Some(items[i].text)
                    && bool_of(at(list->0[i], "done"@)) == Some(items[i].done)
            &&& at(v, "total"@) == Some(JsonView::Int(list->0.len() as int))
            &&& at(v, "done"@) == Some(
                JsonView::Int(
                    list->0.filter(|x: JsonView| bool_of(at(x, "done"@)) == Some(true)).len() as int,
                ),
            )
            &&& text_of(at(v, "db_path"@)) == Some(path)
            &&& text_of(at(v, "signature"@)) == Some(sha256_of(encode_utf8(dumped(plain))).take(16))
            &&& forall|key: Seq<char>|
                key != "signature"@ && key != "db_path"@ ==> #[trigger] at(v, key) == at(plain, key)
        }),
{
    lemma_day_names();
    let v = signed(day_json(date, weekday, account, items), path);
    assert(at(v, "items"@) == Some(JsonView::Array(items_json(items))));
    let list = items_json(items);
    assert forall|i: int|
        #![trigger list[i]]
        0 <= i < items.len() implies text_of(at(list[i], "text"@)) == Some(items[i].text) && bool_of(
        at(list[i], "done"@),
    ) == Some(items[i].done) by {}
    lemma_done_lines(items);
}

proof fn lemma_done_lines(items: Seq<ItemView>)
    ensures
        done_count(items) == items_json(items).filter(
            |x: JsonView| bool_of(at(x, "done"@)) == Some(true),
        ).len(),
    decreases items.len(),
{
    lemma_day_names();
    let list = items_json(items);
    reveal(Seq::filter);
    if items.len() > 0 {
        lemma_done_lines(items.drop_last());
        assert(list.drop_last() =~= items_json(items.drop_last()));
        assert(list.last() == item_json(items.last()));
        assert(bool_of(at(list.last(), "done"@)) == Some(items.last().done));
    }
}

/// The lines of a text are what stands between its line breaks: put together with
/// line breaks between them they are the text again, and no line holds one.
pub proof fn law_lines_make_the_text(s: Seq<char>)
    ensures
        lines_of(s).len() >= 1,
        forall|i: int| 0 <= i < lines_of(s).len() ==> !(#[trigger] lines_of(s)[i]).contains('\n'),
        joined(lines_of(s), "\n"@) == s,
    decreases s.len(),
{
    reveal_strlit("\n");
    let all = lines_of(s);
    if s.len() > 0 {
        let front = s.drop_last();
        law_lines_make_the_text(front);
        let rest = lines_of(front);
        let c = s.last();
        if c == '\n' {
            assert(all.drop_last() =~= rest);
            assert(joined(all, "\n"@) =~= s);
        } else {
            let line = rest.last().push(c);
            assert(all.drop_last() =~= rest.drop_last());
            assert(all.last() == line);
            assert(!line.contains('\n')) by {
                if line.contains('\n') {
                    let k = choose|k: int| 0 <= k < line.len() && line[k] == '\n';
                    assert(rest.last()[k] == '\n');
                    assert(rest[rest.len() - 1].contains('\n'));
                }
            }
            if rest.len() == 1 {
                assert(all[0] == line);
            } else {
                let body = joined(rest.drop_last(), "\n"@) + "\n"@;
                assert(body + line =~= (body + rest.last()).push(c));
            }
            assert(front.push(c) =~= s);
        }
    } else {
        assert(all =~= seq![Seq::<char>::empty()]);
        assert(joined(all, "\n"@) =~= s);
    }
}

/// A day is read line by line: what some lines say comes before what the lines behind
/// them say, and nothing else is said.
pub proof fn law_items_come_line_by_line(a: Seq<Seq<char>>, b: Seq<Seq<char>>)
    ensures
        day_items(a + b) == day_items(a) + day_items(b),
    decreases b.len(),
{
    if b.len() == 0 {
        assert(a + b =~= a);
        assert(day_items(a) + day_items(b) =~= day_items(a));
    } else {
        law_items_come_line_by_line(a, b.drop_last());
        assert((a + b).drop_last() =~= a + b.drop_last());
        assert((a + b).last() == b.last());
        assert(day_items(a + b) =~= day_items(a) + day_items(b));
    }
}

/// What one line says: where it begins with the mark in brackets, white space aside,
/// it is done and says what stands behind the mark; else it is open and says all of
/// it. A line that says nothing is left out.
pub proof fn law_mark_says_done(line: Seq<char>, rest: Seq<char>)
    requires
        trimmed(line) == "[+]"@ + rest,
    ensures
        day_items(seq![line]) == if trimmed(rest).len() == 0 {
            Seq::<ItemView>::empty()
        } else {
            seq![ItemView { text: trimmed(rest), done: true }]
        },
{
    reveal_strlit("[+]");
    reveal_with_fuel(day_items, 2);
    assert(trimmed(line).skip(3) =~= rest);
    assert(seq![line].drop_last() =~= Seq::<Seq<char>>::empty());
    assert(day_items(seq![line]) =~= if trimmed(rest).len() == 0 {
        Seq::<ItemView>::empty()
    } else {
        seq![ItemView { text: trimmed(rest), done: true }]
    });
}

/// A line without the mark is open and says all of it, white space around it aside;
/// one of white space alone is left out.
pub proof fn law_line_without_mark_is_open(line: Seq<char>)
    requires
        !("[+]"@.is_prefix_of(trimmed(line))),
    ensures
        day_items(seq![line]) == if trimmed(line).len() == 0 {
            Seq::<ItemView>::empty()
        } else {
            seq![ItemView { text: trimmed(line), done: false }]
        },
{
    reveal_strlit("[+]");
    reveal_with_fuel(day_items, 2);
    if marked(trimmed(line)) {
        assert("[+]"@ =~= trimmed(line).subrange(0, 3));
    }
    assert(seq![line].drop_last() =~= Seq::<Seq<char>>::empty());
    assert(day_items(seq![line]) =~= if trimmed(line).len() == 0 {
        Seq::<ItemView>::empty()
    } else {
        seq![ItemView { text: trimmed(line), done: false }]
    });
}

/// Of several settings with one name the last one counts.
pub proof fn law_last_setting_counts(rows: Seq<SettingView>, name: Seq<char>)
    ensures
        match setting_of(rows, name) {
            Some(s) => exists|i: int|
                {
                    &&& 0 <= i < rows.len()
                    &&& #[trigger] rows[i] == s
                    &&& s.name == name
                    &&& forall|j: int| i < j < rows.len() ==> (#[trigger] rows[j]).name != name
                },
            None => forall|i: int| 0 <= i < rows.len() ==> (#[trigger] rows[i]).name != name,
        },
    decreases rows.len(),
{
    if rows.len() > 0 {
        let n = rows.len() - 1;
        if rows.last().name == name {
            assert(rows[n] == rows.last());
        } else {
            let front = rows.drop_last();
            law_last_setting_counts(front, name);
            match setting_of(front, name) {
                Some(s) => {
                    let i = choose|i: int|
                        {
                            &&& 0 <= i < front.len()
                            &&& #[trigger] front[i] == s
                            &&& s.name == name
                            &&& forall|j: int|
                                i < j < front.len() ==> (#[trigger] front[j]).name != name
                        };
                    assert(rows[i] == s);
                    assert forall|j: int| i < j < rows.len() implies (#[trigger] rows[j]).name
                        != name by {
                        if j < n {
                            assert(rows[j] == front[j]);
                        }
                    }
                },
                None => {
                    assert forall|j: int| 0 <= j < rows.len() implies (#[trigger] rows[j]).name
                        != name by {
                        if j < n {
                            assert(rows[j] == front[j]);
                        }
                    }
                },
            }
        }
    }
}

/// A calendar is found by its number: the row is the first one with that number.
pub proof fn law_calendar_is_found_by_its_number(list: Seq<JsonView>, id: int)
    ensures
        match row_with_id(list, id) {
            Some(row) => exists|i: int|
                {
                    &&& 0 <= i < list.len()
                    &&& #[trigger] list[i] == row
                    &&& i64_of(at(row, "id"@)) is Some && i64_of(at(row, "id"@))->0 == id
                    &&& forall|j: int|
                        0 <= j < i ==> i64_of(at(#[trigger] list[j], "id"@)) is None || i64_of(
                            at(list[j], "id"@),
                        )->0 != id
                },
            None => forall|i: int|
                0 <= i < list.len() ==> i64_of(at(#[trigger] list[i], "id"@)) is None || i64_of(
                    at(list[i], "id"@),
                )->0 != id,
        },
    decreases list.len(),
{
    if list.len() > 0 {
        let first = i64_of(at(list[0], "id"@)) is Some && i64_of(at(list[0], "id"@))->0 == id;
        if !first {
            let rest = list.drop_first();
            law_calendar_is_found_by_its_number(rest, id);
            match row_with_id(rest, id) {
                Some(row) => {
                    let i = choose|i: int|
                        {
                            &&& 0 <= i < rest.len()
                            &&& #[trigger] rest[i] == row
                            &&& i64_of(at(row, "id"@)) is Some && i64_of(at(row, "id"@))->0 == id
                            &&& forall|j: int|
                                0 <= j < i ==> i64_of(at(#[trigger] rest[j], "id"@)) is None
                                    || i64_of(at(rest[j], "id"@))->0 != id
                        };
                    assert(list[i + 1] == row);
                    assert forall|j: int| 0 <= j < i + 1 implies i64_of(
                        at(#[trigger] list[j], "id"@),
                    ) is None || i64_of(at(list[j], "id"@))->0 != id by {
                        if j > 0 {
                            assert(list[j] == rest[j - 1]);
                        }
                    }
                },
                None => {
                    assert forall|j: int| 0 <= j < list.len() implies i64_of(
                        at(#[trigger] list[j], "id"@),
                    ) is None || i64_of(at(list[j], "id"@))->0 != id by {
                        if j > 0 {
                            assert(list[j] == rest[j - 1]);
                        }
                    }
                },
            }
        }
    }
}

/// The calendar that is read is the one whose number the settings choose, under the
/// name that stands beside that number in the list of calendars, and with the group
/// that the settings name.
pub proof fn law_chosen_calendar_is_read(rows: Seq<SettingView>)
    ensures
        match account_of(rows) {
            Ok(a) => {
                let current = setting_of(rows, "sys_current_sub_account"@);
                let listed = setting_of(rows, "sys_sub_account_list"@);
                &&& current is Some && current->0.number == a.id && a.id >= 0
                &&& listed is Some
                &&& match json_read(encode_utf8(text_decoded(listed->0.text))) {
                    Ok(v) => exists|i: int|
                        {
                            &&& 0 <= i < items_of(at_in(v, "vdata"@, "list"@))->0.len()
                            &&& i64_of(
                                at(
                                    #[trigger] items_of(at_in(v, "vdata"@, "list"@))->0[i],
                                    "id"@,
                                ),
                            ) == Some(a.id as i64)
                            &&& text_of(
                                at(items_of(at_in(v, "vdata"@, "list"@))->0[i], "name"@),
                            ) == Some(a.name)
                        },
                    Err(_) => false,
                }
                &&& a.group == match setting_of(rows, "group_id"@) {
                    Some(s) => s.text,
                    None => Seq::empty(),
                }
            },
            Err(_) => true,
        },
{
    match account_of(rows) {
        Ok(a) => {
            let listed = setting_of(rows, "sys_sub_account_list"@)->0;
            let v = json_read(encode_utf8(text_decoded(listed.text)))->Ok_0;
            let list = items_of(at_in(v, "vdata"@, "list"@))->0;
            law_calendar_is_found_by_its_number(list, a.id);
            let row = row_with_id(list, a.id)->0;
            let i = choose|i: int|
                0 <= i < list.len() && #[trigger] list[i] == row && i64_of(at(row, "id"@)) is Some
                    && i64_of(at(row, "id"@))->0 == a.id;
            assert(i64_of(at(list[i], "id"@)) == Some(a.id as i64));
        },
        Err(_) => {},
    }
}

/// The days of the week are named from Monday on.
pub proof fn law_week_begins_on_monday(n: int)
    requires
        0 <= n < 7,
    ensures
        weekday_name(n) == seq!['周', "一二三四五六日"@[n]],
{
    reveal_strlit("一二三四五六日");
    reveal_strlit("周一");
    reveal_strlit("周二");
    reveal_strlit("周三");
    reveal_strlit("周四");
    reveal_strlit("周五");
    reveal_strlit("周六");
    reveal_strlit("周日");
    assert(weekday_name(n) =~= seq!['周', "一二三四五六日"@[n]]);
}

/// What lies between the matches of a pattern and what takes their place alternate, the
/// former first and last.
pub proof fn law_pieces_and_fillings_alternate(
    pieces: Seq<Seq<char>>,
    fillings: Seq<Seq<char>>,
    piece: Seq<char>,
)
    requires
        0 < pieces.len() <= fillings.len(),
    ensures
        woven(pieces.push(piece), fillings) == woven(pieces, fillings) + fillings[pieces.len() - 1]
            + piece,
        woven(seq![piece], fillings) == piece,
        woven(Seq::empty(), fillings) == Seq::<char>::empty(),
{
    let all = pieces.push(piece);
    assert(all.drop_last() =~= pieces);
    assert(all.last() == piece);
    assert(seq![piece][0] == piece);
}

/// No hard space is left in a text that was decoded.
pub proof fn law_hard_spaces_are_gone(value: Seq<char>)
    ensures
        !text_decoded(value).contains('\u{a0}'),
{
    reveal_strlit(" ");
    lemma_replaced_is_gone(html_decoded(without_fonts(unwrapped(value))), '\u{a0}', " "@);
}

proof fn lemma_replaced_is_gone(s: Seq<char>, c: char, by: Seq<char>)
    requires
        !by.contains(c),
    ensures
        !with_replaced(s, c, by).contains(c),
    decreases s.len(),
{
    if s.len() > 0 {
        lemma_replaced_is_gone(s.drop_last(), c, by);
        let front = with_replaced(s.drop_last(), c, by);
        let all = with_replaced(s, c, by);
        if all.contains(c) {
            let i = choose|i: int| 0 <= i < all.len() && all[i] == c;
            if i < front.len() {
                assert(front[i] == c);
            } else if s.last() == c {
                assert(by[i - front.len()] == c);
            }
        }
    }
}

/// A text is decoded step by step: entities between bars are decoded where they stand,
/// font tags are taken out, and what is left is decoded as a whole.
pub proof fn law_text_is_decoded_step_by_step(value: Seq<char>)
    ensures
        ({
            let entity = "\\|(&[A-Za-z0-9#]+;)\\|"@;
            let tag = "(?i)</?font\\b[^>]*>"@;
            let pieces = between(entity, value);
            let entities = groups_of(entity, value, 1);
            let bare = if pieces is Some && entities is Some {
                woven(
                    pieces->0,
                    Seq::new(entities->0.len(), |i: int| html_decoded(entities->0[i])),
                )
            } else {
                value
            };
            let plain = match cleared(tag, bare) {
                Some(s) => s,
                None => bare,
            };
            text_decoded(value) == with_replaced(html_decoded(plain), '\u{a0}', " "@)
        }),
{
}

/// A day is written with its keys in order, every key once, and every member behind its
/// key; a list is written item by item.
pub proof fn law_members_are_written_in_order(
    m: Map<Seq<char>, JsonView>,
    keys: Seq<Seq<char>>,
    items: Seq<JsonView>,
)
    requires
        keys_of(keys, m),
    ensures
        dumped(JsonView::Object(m)) == "{"@ + joined(
            Seq::new(
                keys.len(),
                |i: int| json_text(JsonView::Str(keys[i])) + ": "@ + dumped(m[keys[i]]),
            ),
            ", "@,
        ) + "}"@,
        dumped(JsonView::Array(items)) == "["@ + joined(
            Seq::new(items.len(), |i: int| dumped(items[i])),
            ", "@,
        ) + "]"@,
{
    let v = JsonView::Object(m);
    let chosen = choose|keys: Seq<Seq<char>>| keys_of(keys, m);
    lemma_keys_unique(chosen, keys, m);
    lemma_written_members(m, keys, keys.len());
    lemma_written_items(items, items.len());
    assert(dumped_members(v, keys, keys.len()) =~= Seq::new(
        keys.len(),
        |i: int| json_text(JsonView::Str(keys[i])) + ": "@ + dumped(m[keys[i]]),
    ));
    assert(dumped_items(items, items.len()) =~= Seq::new(
        items.len(),
        |i: int| dumped(items[i]),
    ));
}

proof fn lemma_written_members(m: Map<Seq<char>, JsonView>, keys: Seq<Seq<char>>, n: nat)
    requires
        keys_of(keys, m),
        n <= keys.len(),
    ensures
        dumped_members(JsonView::Object(m), keys, n).len() == n,
        forall|i: int|
            0 <= i < n ==> #[trigger] dumped_members(JsonView::Object(m), keys, n)[i] == json_text(
                JsonView::Str(keys[i]),
            ) + ": "@ + dumped(m[keys[i]]),
    decreases n,
{
    if n > 0 {
        lemma_written_members(m, keys, (n - 1) as nat);
        assert(keys.contains(keys[n - 1]));
        let front = dumped_members(JsonView::Object(m), keys, (n - 1) as nat);
        let all = dumped_members(JsonView::Object(m), keys, n);
        assert forall|i: int| 0 <= i < n implies #[trigger] all[i] == json_text(
            JsonView::Str(keys[i]),
        ) + ": "@ + dumped(m[keys[i]]) by {
            if i < n - 1 {
                assert(all[i] == front[i]);
            }
        }
    }
}

proof fn lemma_written_items(items: Seq<JsonView>, n: nat)
    requires
        n <= items.len(),
    ensures
        dumped_items(items, n).len() == n,
        forall|i: int| 0 <= i < n ==> #[trigger] dumped_items(items, n)[i] == dumped(items[i]),
    decreases n,
{
    if n > 0 {
        lemma_written_items(items, (n - 1) as nat);
        let front = dumped_items(items, (n - 1) as nat);
        let all = dumped_items(items, n);
        assert forall|i: int| 0 <= i < n implies #[trigger] all[i] == dumped(items[i]) by {
            if i < n - 1 {
                assert(all[i] == front[i]);
            }
        }
    }
}

/// The signature of a day is the beginning of the SHA-256 of how the day is written, and
/// it is added with the place to what the day holds.
pub proof fn law_signature_is_added(day: JsonView, path: Seq<char>, key: Seq<char>)
    requires
        day is Object,
        key != "signature"@,
        key != "db_path"@,
    ensures
        at(signed(day, path), "signature"@) == Some(
            JsonView::Str(sha256_of(encode_utf8(dumped(day))).take(16)),
        ),
        at(signed(day, path), "db_path"@) == Some(JsonView::Str(path)),
        at(signed(day, path), key) == at(day, key),
{
    reveal_strlit("signature");
    reveal_strlit("db_path");
    assert("signature"@.len() == 9 && "db_path"@.len() == 7);
}

/// A day is in one row or in none: one row holds all of its lines, no row none, and more
/// than one are refused.
pub proof fn law_day_is_in_one_row(rows: Seq<Seq<char>>)
    ensures
        rows_items(rows) is Ok <==> rows.len() <= 1,
        rows.len() == 0 ==> rows_items(rows)->Ok_0.len() == 0,
        rows.len() == 1 ==> rows_items(rows)->Ok_0 == day_items(lines_of(text_decoded(rows[0]))),
{
}

} // verus!
