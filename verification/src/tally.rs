//! Counting: how often each model was used, in which order that is listed, and
//! how requests spread over a day.

use vstd::prelude::*;

use crate::dates::{china_text, china_time};
use crate::json::{empty_object, models, put, same_text, text_of, at, Json, JsonView};
use crate::radar::{ints, total_of};
use crate::text::{chars_of, first_word, first_word_of, glue, texts};

verus! {

/// Whether a text comes before another, character by character.
pub open spec fn precedes(a: Seq<char>, b: Seq<char>) -> bool
    decreases b.len(),
{
    if b.len() == 0 {
        false
    } else if a.len() == 0 {
        true
    } else {
        a[0] < b[0] || (a[0] == b[0] && precedes(a.drop_first(), b.drop_first()))
    }
}

/// Of two different texts just one comes before the other.
pub proof fn law_order_is_total(a: Seq<char>, b: Seq<char>)
    ensures
        !(precedes(a, b) && precedes(b, a)),
        a != b ==> precedes(a, b) || precedes(b, a),
        !precedes(a, a),
    decreases a.len() + b.len(),
{
    if a.len() > 0 && b.len() > 0 {
        law_order_is_total(a.drop_first(), b.drop_first());
        if a[0] == b[0] && a.drop_first() == b.drop_first() {
            assert(a =~= seq![a[0]] + a.drop_first());
            assert(b =~= seq![b[0]] + b.drop_first());
        }
    } else if a.len() == 0 && b.len() == 0 {
        assert(a =~= b);
    }
    if a.len() > 0 {
        lemma_not_before_itself(a);
    }
}

proof fn lemma_not_before_itself(a: Seq<char>)
    ensures
        !precedes(a, a),
    decreases a.len(),
{
    if a.len() > 0 {
        lemma_not_before_itself(a.drop_first());
    }
}

/// The order of texts is transitive.
pub proof fn law_order_is_transitive(a: Seq<char>, b: Seq<char>, c: Seq<char>)
    requires
        precedes(a, b),
        precedes(b, c),
    ensures
        precedes(a, c),
    decreases a.len() + b.len() + c.len(),
{
    if a.len() > 0 && a[0] == b[0] && b[0] == c[0] {
        law_order_is_transitive(a.drop_first(), b.drop_first(), c.drop_first());
    }
}

/// Whether a text comes before another, character by character.
pub fn comes_before(a: &str, b: &str) -> (r: bool)
    ensures
        r == precedes(a@, b@),
{
    let x = chars_of(a);
    let y = chars_of(b);
    let mut i: usize = 0;
    assert(a@.skip(0) =~= a@);
    assert(b@.skip(0) =~= b@);
    while i < x.len() && i < y.len()
        invariant
            x@ == a@,
            y@ == b@,
            i <= x@.len(),
            i <= y@.len(),
            precedes(a@, b@) == precedes(a@.skip(i as int), b@.skip(i as int)),
        decreases x@.len() - i,
    {
        proof {
            assert(a@.skip(i as int).drop_first() =~= a@.skip(i as int + 1));
            assert(b@.skip(i as int).drop_first() =~= b@.skip(i as int + 1));
        }
        if x[i] < y[i] {
            return true;
        }
        if y[i] < x[i] {
            return false;
        }
        i += 1;
    }
    i < y.len()
}

/// One line of a count: a model at an effort, how often, and how that spreads
/// over the quarters of an hour of a day.
#[derive(Debug)]
pub struct Entry {
    pub model: String,
    pub effort: String,
    pub count: u64,
    pub bins: Vec<u64>,
}

#[verifier::ext_equal]
pub struct EntryView {
    pub model: Seq<char>,
    pub effort: Seq<char>,
    pub count: int,
    pub bins: Seq<int>,
}

impl View for Entry {
    type V = EntryView;

    open spec fn view(&self) -> EntryView {
        EntryView {
            model: self.model@,
            effort: self.effort@,
            count: self.count as int,
            bins: ints(self.bins@),
        }
    }
}

pub open spec fn entry_views(v: Seq<Entry>) -> Seq<EntryView> {
    Seq::new(v.len(), |i: int| v[i]@)
}

/// Whether an entry is listed before another: the larger count first, then by
/// model, then by effort.
pub open spec fn listed_before(x: EntryView, y: EntryView) -> bool {
    ||| x.count > y.count
    ||| x.count == y.count && precedes(x.model, y.model)
    ||| x.count == y.count && x.model == y.model && precedes(x.effort, y.effort)
}

/// Whether entries are in the order in which they are listed.
pub open spec fn in_order(v: Seq<EntryView>) -> bool {
    forall|i: int, j: int|
        0 <= i < j < v.len() ==> listed_before(#[trigger] v[i], #[trigger] v[j])
}

/// Whether no model occurs twice at the same effort.
pub open spec fn keys_once(v: Seq<EntryView>) -> bool {
    forall|i: int, j: int|
        0 <= i < j < v.len() ==> !same_key(#[trigger] v[i], #[trigger] v[j])
}

pub open spec fn same_key(x: EntryView, y: EntryView) -> bool {
    x.model == y.model && x.effort == y.effort
}

proof fn lemma_listed_total(x: EntryView, y: EntryView)
    ensures
        !same_key(x, y) ==> listed_before(x, y) || listed_before(y, x),
{
    law_order_is_total(x.model, y.model);
    law_order_is_total(x.effort, y.effort);
}

proof fn lemma_listed_transitive(x: EntryView, y: EntryView, z: EntryView)
    requires
        listed_before(x, y),
        listed_before(y, z),
    ensures
        listed_before(x, z),
{
    if precedes(x.model, y.model) && precedes(y.model, z.model) {
        law_order_is_transitive(x.model, y.model, z.model);
    }
    if precedes(x.effort, y.effort) && precedes(y.effort, z.effort) {
        law_order_is_transitive(x.effort, y.effort, z.effort);
    }
}

fn goes_before(x: &Entry, y: &Entry) -> (r: bool)
    ensures
        r == listed_before(x@, y@),
{
    if x.count > y.count {
        return true;
    }
    if x.count < y.count {
        return false;
    }
    if comes_before(x.model.as_str(), y.model.as_str()) {
        return true;
    }
    same_text(x.model.as_str(), y.model.as_str()) && comes_before(
        x.effort.as_str(),
        y.effort.as_str(),
    )
}

/// The same entries, none lost and none added.
pub open spec fn same_entries(a: Seq<EntryView>, b: Seq<EntryView>) -> bool {
    a.to_multiset() == b.to_multiset()
}

/// The counts of some entries together.
pub open spec fn entry_total(v: Seq<EntryView>) -> int
    decreases v.len(),
{
    if v.len() == 0 {
        0
    } else {
        entry_total(v.drop_last()) + v.last().count
    }
}

proof fn lemma_entry_total_insert(v: Seq<EntryView>, p: int, e: EntryView)
    requires
        0 <= p <= v.len(),
    ensures
        entry_total(v.insert(p, e)) == entry_total(v) + e.count,
    decreases v.len(),
{
    if p == v.len() {
        assert(v.insert(p, e).drop_last() =~= v);
    } else {
        assert(v.insert(p, e).drop_last() =~= v.drop_last().insert(p, e));
        assert(v.insert(p, e).last() == v.last());
        lemma_entry_total_insert(v.drop_last(), p, e);
    }
}

proof fn lemma_entry_total_update(v: Seq<EntryView>, p: int, e: EntryView)
    requires
        0 <= p < v.len(),
    ensures
        entry_total(v.update(p, e)) == entry_total(v) - v[p].count + e.count,
    decreases v.len(),
{
    if p == v.len() - 1 {
        assert(v.update(p, e).drop_last() =~= v.drop_last());
    } else {
        lemma_entry_total_update(v.drop_last(), p, e);
        assert(v.update(p, e).drop_last() =~= v.drop_last().update(p, e));
    }
}

/// Puts entries into the order in which they are listed.
fn list_entries(entries: Vec<Entry>) -> (r: Vec<Entry>)
    requires
        keys_once(entry_views(entries@)),
    ensures
        in_order(entry_views(r@)),
        same_entries(entry_views(r@), entry_views(entries@)),
        entry_total(entry_views(r@)) == entry_total(entry_views(entries@)),
{
    let ghost all = entry_views(entries@);
    let mut rest = entries;
    let mut out: Vec<Entry> = Vec::new();
    assert(entry_views(out@) =~= Seq::empty());
    assert(all.take(all.len() as int) =~= all);
    proof {
        vstd::seq_lib::lemma_multiset_commutative(all, Seq::<EntryView>::empty());
    }
    assert(all.to_multiset().add(Seq::<EntryView>::empty().to_multiset()) =~= all.to_multiset()) by {
        assert(all + Seq::<EntryView>::empty() =~= all);
    }
    while rest.len() > 0
        invariant
            all == entry_views(entries@),
            keys_once(all),
            rest@.len() <= all.len(),
            entry_views(rest@) == all.take(rest@.len() as int),
            in_order(entry_views(out@)),
            forall|i: int, j: int|
                0 <= i < rest@.len() && 0 <= j < out@.len() ==> !same_key(
                    #[trigger] all[i],
                    #[trigger] entry_views(out@)[j],
                ),
            all.to_multiset() == entry_views(rest@).to_multiset().add(
                entry_views(out@).to_multiset(),
            ),
            entry_total(all) == entry_total(entry_views(rest@)) + entry_total(entry_views(out@)),
        decreases rest@.len(),
    {
        let ghost n = rest@.len() as int - 1;
        let ghost rest_before = entry_views(rest@);
        let entry = match rest.pop() {
            Some(e) => e,
            None => {
                return out;
            },
        };
        let ghost e = entry@;
        let ghost before = entry_views(out@);
        proof {
            assert(entry_views(rest@) =~= rest_before.drop_last());
            assert(rest_before.last() == e);
            assert(all[n] == e);
        }
        let mut p: usize = 0;
        while p < out.len() && goes_before(&out[p], &entry)
            invariant
                p <= out@.len(),
                before == entry_views(out@),
                e == entry@,
                forall|k: int| 0 <= k < p ==> listed_before(#[trigger] before[k], e),
            decreases out@.len() - p,
        {
            assert(before[p as int] == out@[p as int]@);
            p += 1;
        }
        proof {
            assert forall|k: int| p <= k < before.len() implies listed_before(
                e,
                #[trigger] before[k],
            ) by {
                lemma_listed_total(e, before[p as int]);
                assert(!same_key(all[n], before[p as int]));
                assert(before[p as int] == out@[p as int]@);
                if k > p {
                    lemma_listed_transitive(e, before[p as int], before[k]);
                }
            }
        }
        out.insert(p, entry);
        proof {
            let after = entry_views(out@);
            assert(after =~= before.insert(p as int, e));
            assert forall|i: int, j: int| 0 <= i < j < after.len() implies listed_before(
                #[trigger] after[i],
                #[trigger] after[j],
            ) by {
                if i < p && j < p {
                    assert(after[i] == before[i] && after[j] == before[j]);
                } else if i < p && j == p {
                    assert(after[i] == before[i]);
                } else if i < p {
                    assert(after[i] == before[i] && after[j] == before[j - 1]);
                } else if i == p {
                    assert(after[j] == before[j - 1]);
                } else {
                    assert(after[i] == before[i - 1] && after[j] == before[j - 1]);
                }
            }
            assert forall|i: int, j: int| 0 <= i < rest@.len() && 0 <= j < after.len() implies !same_key(
                #[trigger] all[i],
                #[trigger] after[j],
            ) by {
                if j < p {
                    assert(after[j] == before[j]);
                } else if j == p {
                    assert(!same_key(all[i], all[n]));
                } else {
                    assert(after[j] == before[j - 1]);
                }
            }
            lemma_insert_multiset(before, p as int, e);
            lemma_entry_total_insert(before, p as int, e);
            assert(rest_before =~= rest_before.drop_last().push(e));
            lemma_push_multiset(rest_before.drop_last(), e);
            assert(entry_views(rest@).to_multiset().add(after.to_multiset()) =~= rest_before.to_multiset().add(
                before.to_multiset(),
            ));
        }
    }
    proof {
        assert(entry_views(rest@) =~= Seq::empty());
        lemma_empty_multiset();
        assert(all.to_multiset() =~= entry_views(out@).to_multiset());
    }
    out
}

proof fn lemma_empty_multiset()
    ensures
        Seq::<EntryView>::empty().to_multiset() == vstd::multiset::Multiset::<EntryView>::empty(),
{
    broadcast use vstd::seq_lib::group_to_multiset_ensures;

    assert(Seq::<EntryView>::empty().to_multiset() =~= vstd::multiset::Multiset::<
        EntryView,
    >::empty());
}

proof fn lemma_push_multiset(s: Seq<EntryView>, e: EntryView)
    ensures
        s.push(e).to_multiset() == s.to_multiset().insert(e),
{
    broadcast use vstd::seq_lib::group_to_multiset_ensures;

}

proof fn lemma_insert_multiset(s: Seq<EntryView>, p: int, e: EntryView)
    requires
        0 <= p <= s.len(),
    ensures
        s.insert(p, e).to_multiset() == s.to_multiset().insert(e),
{
    broadcast use vstd::seq_lib::group_to_multiset_ensures;

    let a = s.take(p);
    let b = s.skip(p);
    assert(s =~= a + b);
    assert(s.insert(p, e) =~= a.push(e) + b);
    vstd::seq_lib::lemma_multiset_commutative(a, b);
    vstd::seq_lib::lemma_multiset_commutative(a.push(e), b);
    assert(a.push(e).to_multiset().add(b.to_multiset()) =~= a.to_multiset().add(
        b.to_multiset(),
    ).insert(e));
}

/// Entries that are the same, in another order, contain the same.
proof fn lemma_same_contains(a: Seq<EntryView>, b: Seq<EntryView>, x: EntryView)
    requires
        same_entries(a, b),
    ensures
        a.contains(x) == b.contains(x),
{
    broadcast use vstd::seq_lib::group_to_multiset_ensures;

    assert(a.contains(x) <==> a.to_multiset().count(x) > 0);
    assert(b.contains(x) <==> b.to_multiset().count(x) > 0);
}

/// Putting entries in order lets no key occur twice.
proof fn lemma_order_keys_once(a: Seq<EntryView>, b: Seq<EntryView>)
    requires
        in_order(a),
        same_entries(a, b),
        keys_once(b),
    ensures
        keys_once(a),
{
    assert forall|i: int, j: int| 0 <= i < j < a.len() implies !same_key(
        #[trigger] a[i],
        #[trigger] a[j],
    ) by {
        assert(a.contains(a[i]) && a.contains(a[j]));
        lemma_same_contains(a, b, a[i]);
        lemma_same_contains(a, b, a[j]);
        let x = choose|x: int| 0 <= x < b.len() && b[x] == a[i];
        let y = choose|y: int| 0 <= y < b.len() && b[y] == a[j];
        law_order_is_total(a[i].model, a[i].model);
        law_order_is_total(a[i].effort, a[i].effort);
        assert(listed_before(a[i], a[j]));
        if x < y {
            assert(!same_key(b[x], b[y]));
        } else if y < x {
            assert(!same_key(b[y], b[x]));
        }
    }
}

/// The model of a row of a log.
pub open spec fn row_model(row: JsonView) -> Seq<char> {
    match text_of(at(row, "model"@)) {
        Some(s) => s,
        None => ""@,
    }
}

/// The effort of a row of a log.
pub open spec fn row_effort(row: JsonView) -> Seq<char> {
    match text_of(at(row, "effort"@)) {
        Some(s) => s,
        None => "unknown"@,
    }
}

/// How many rows are of a model at an effort.
pub open spec fn times(rows: Seq<JsonView>, model: Seq<char>, effort: Seq<char>) -> int
    decreases rows.len(),
{
    if rows.len() == 0 {
        0
    } else {
        times(rows.drop_last(), model, effort) + if row_model(rows.last()) == model && row_effort(
            rows.last(),
        ) == effort {
            1int
        } else {
            0int
        }
    }
}

/// Whether an entry counts the rows of its model and effort.
pub open spec fn counts_rows(e: EntryView, rows: Seq<JsonView>) -> bool {
    e.count == times(rows, e.model, e.effort) && e.count > 0 && e.bins.len() == 0
}

/// Whether some entry is of the model and effort of a row.
pub open spec fn has_row(v: Seq<EntryView>, row: JsonView) -> bool {
    exists|i: int|
        0 <= i < v.len() && (#[trigger] v[i]).model == row_model(row) && v[i].effort == row_effort(
            row,
        )
}

/// Whether entries count some rows: each combination that occurs, once.
pub open spec fn counted(v: Seq<EntryView>, rows: Seq<JsonView>) -> bool {
    &&& keys_once(v)
    &&& forall|i: int| 0 <= i < v.len() ==> counts_rows(#[trigger] v[i], rows)
    &&& forall|j: int| 0 <= j < rows.len() ==> has_row(v, #[trigger] rows[j])
}

proof fn lemma_times_bound(rows: Seq<JsonView>, model: Seq<char>, effort: Seq<char>)
    ensures
        0 <= times(rows, model, effort) <= rows.len(),
    decreases rows.len(),
{
    if rows.len() > 0 {
        lemma_times_bound(rows.drop_last(), model, effort);
    }
}

proof fn lemma_times_none(rows: Seq<JsonView>, model: Seq<char>, effort: Seq<char>, v: Seq<EntryView>)
    requires
        forall|j: int| 0 <= j < rows.len() ==> has_row(v, #[trigger] rows[j]),
        forall|i: int|
            0 <= i < v.len() ==> (#[trigger] v[i]).model != model || v[i].effort != effort,
    ensures
        times(rows, model, effort) == 0,
    decreases rows.len(),
{
    if rows.len() > 0 {
        let rest = rows.drop_last();
        assert forall|j: int| 0 <= j < rest.len() implies has_row(v, #[trigger] rest[j]) by {
            assert(rest[j] == rows[j]);
        }
        lemma_times_none(rest, model, effort, v);
        assert(has_row(v, rows[rows.len() - 1]));
    }
}

fn count_rows(rows: &Vec<Json>) -> (r: Vec<Entry>)
    ensures
        counted(entry_views(r@), models(rows@)),
{
    let ghost all = models(rows@);
    let mut out: Vec<Entry> = Vec::new();
    let mut i: usize = 0;
    while i < rows.len()
        invariant
            i <= rows@.len(),
            all == models(rows@),
            counted(entry_views(out@), all.take(i as int)),
        decreases rows@.len() - i,
    {
        let ghost before = entry_views(out@);
        let ghost seen = all.take(i as int);
        let ghost now = all.take(i as int + 1);
        let ghost row = all[i as int];
        let model = match rows[i].get_str("model") {
            Some(s) => s,
            None => "",
        };
        let effort = match rows[i].get_str("effort") {
            Some(s) => s,
            None => "unknown",
        };
        proof {
            assert(now.drop_last() =~= seen);
            assert(now.last() == row);
            assert(row == rows@[i as int]@);
            assert(model@ == row_model(row) && effort@ == row_effort(row));
        }
        let mut p: usize = 0;
        while p < out.len() && !(same_text(out[p].model.as_str(), model) && same_text(
            out[p].effort.as_str(),
            effort,
        ))
            invariant
                p <= out@.len(),
                before == entry_views(out@),
                forall|k: int|
                    0 <= k < p ==> (#[trigger] before[k]).model != model@ || before[k].effort
                        != effort@,
            decreases out@.len() - p,
        {
            assert(before[p as int] == out@[p as int]@);
            p += 1;
        }
        if p < out.len() {
            assert(before[p as int] == out@[p as int]@);
            proof {
                assert(counts_rows(before[p as int], seen));
                lemma_times_bound(seen, model@, effort@);
            }
            let entry = Entry {
                model: out[p].model.clone(),
                effort: out[p].effort.clone(),
                count: out[p].count + 1,
                bins: Vec::new(),
            };
            out.set(p, entry);
            proof {
                let after = entry_views(out@);
                assert(after =~= before.update(p as int, entry@));
                assert forall|k: int| 0 <= k < after.len() implies counts_rows(
                    #[trigger] after[k],
                    now,
                ) by {
                    assert(counts_rows(before[k], seen));
                    if k != p {
                        assert(!same_key(before[k], before[p as int])) by {
                            if k < p {
                                assert(!same_key(before[k], before[p as int]));
                            } else {
                                assert(!same_key(before[p as int], before[k]));
                            }
                        }
                    }
                }
                assert forall|j: int| 0 <= j < now.len() implies has_row(after, #[trigger] now[j]) by {
                    if j < i {
                        assert(seen[j] == now[j]);
                        assert(has_row(before, seen[j]));
                        let k = choose|k: int|
                            0 <= k < before.len() && (#[trigger] before[k]).model == row_model(
                                seen[j],
                            ) && before[k].effort == row_effort(seen[j]);
                        assert(after[k].model == before[k].model && after[k].effort
                            == before[k].effort);
                    } else {
                        assert(after[p as int].model == row_model(row));
                    }
                }
                assert forall|x: int, y: int| 0 <= x < y < after.len() implies !same_key(
                    #[trigger] after[x],
                    #[trigger] after[y],
                ) by {
                    assert(!same_key(before[x], before[y]));
                    assert(after[x].model == before[x].model && after[x].effort == before[x].effort);
                    assert(after[y].model == before[y].model && after[y].effort == before[y].effort);
                }
            }
        } else {
            let entry = Entry {
                model: model.to_owned(),
                effort: effort.to_owned(),
                count: 1,
                bins: Vec::new(),
            };
            out.push(entry);
            proof {
                let after = entry_views(out@);
                assert(after =~= before.push(entry@));
                lemma_times_none(seen, model@, effort@, before);
                assert forall|k: int| 0 <= k < after.len() implies counts_rows(
                    #[trigger] after[k],
                    now,
                ) by {
                    if k < before.len() {
                        assert(after[k] == before[k]);
                        assert(counts_rows(before[k], seen));
                    }
                }
                assert forall|j: int| 0 <= j < now.len() implies has_row(after, #[trigger] now[j]) by {
                    if j < i {
                        assert(seen[j] == now[j]);
                        assert(has_row(before, seen[j]));
                        let k = choose|k: int|
                            0 <= k < before.len() && (#[trigger] before[k]).model == row_model(
                                seen[j],
                            ) && before[k].effort == row_effort(seen[j]);
                        assert(after[k] == before[k]);
                    } else {
                        assert(after[before.len() as int].model == row_model(row));
                    }
                }
                assert forall|x: int, y: int| 0 <= x < y < after.len() implies !same_key(
                    #[trigger] after[x],
                    #[trigger] after[y],
                ) by {
                    assert(after[x] == before[x]);
                    if y < before.len() {
                        assert(after[y] == before[y]);
                    }
                }
            }
        }
        i += 1;
    }
    assert(all.take(all.len() as int) =~= all);
    out
}

/// The combinations of model and effort in some rows, as they are listed.
pub fn rank_rows(rows: &Vec<Json>) -> (r: Vec<Entry>)
    ensures
        counted(entry_views(r@), models(rows@)),
        in_order(entry_views(r@)),
{
    let entries = count_rows(rows);
    let ghost b = entry_views(entries@);
    let out = list_entries(entries);
    proof {
        let a = entry_views(out@);
        let all = models(rows@);
        lemma_order_keys_once(a, b);
        assert forall|i: int| 0 <= i < a.len() implies counts_rows(#[trigger] a[i], all) by {
            assert(a.contains(a[i]));
            lemma_same_contains(a, b, a[i]);
            let k = choose|k: int| 0 <= k < b.len() && b[k] == a[i];
            assert(counts_rows(b[k], all));
        }
        assert forall|j: int| 0 <= j < all.len() implies has_row(a, #[trigger] all[j]) by {
            assert(has_row(b, all[j]));
            let k = choose|k: int|
                0 <= k < b.len() && (#[trigger] b[k]).model == row_model(all[j]) && b[k].effort
                    == row_effort(all[j]);
            assert(b.contains(b[k]));
            lemma_same_contains(a, b, b[k]);
            let n = choose|n: int| 0 <= n < a.len() && a[n] == b[k];
            assert(a[n].model == row_model(all[j]));
        }
    }
    out
}

/// A combination as JSON.
pub open spec fn combo_json(e: EntryView) -> JsonView {
    put(
        put(
            put(empty_object(), "model"@, JsonView::Str(e.model)),
            "effort"@,
            JsonView::Str(e.effort),
        ),
        "count"@,
        JsonView::Int(e.count),
    )
}

/// How many tasks were looked at, and in which combinations.
pub open spec fn tasks_json(total: int, combos: Seq<EntryView>) -> JsonView {
    put(
        put(empty_object(), "total"@, JsonView::Int(total)),
        "combos"@,
        JsonView::Array(Seq::new(combos.len(), |i: int| combo_json(combos[i]))),
    )
}

impl Entry {
    fn combo(&self) -> (r: Json)
        ensures
            r@ == combo_json(self@),
    {
        Json::object().with("model", Json::text(self.model.as_str())).with(
            "effort",
            Json::text(self.effort.as_str()),
        ).with("count", Json::Uint(self.count))
    }
}

/// How many tasks were looked at, and in which combinations.
pub fn tasks_summary(rows: &Vec<Json>) -> (r: Json)
    ensures
        exists|combos: Seq<EntryView>|
            r@ == #[trigger] tasks_json(rows@.len() as int, combos) && counted(
                combos,
                models(rows@),
            ) && in_order(combos),
{
    let combos = rank_rows(rows);
    let ghost views = entry_views(combos@);
    let mut list: Vec<Json> = Vec::new();
    let mut i: usize = 0;
    while i < combos.len()
        invariant
            i <= combos@.len(),
            list@.len() == i,
            forall|k: int| 0 <= k < i ==> (#[trigger] list@[k])@ == combo_json(combos@[k]@),
        decreases combos@.len() - i,
    {
        list.push(combos[i].combo());
        i += 1;
    }
    assert(models(list@) =~= Seq::new(views.len(), |i: int| combo_json(views[i])));
    let out = Json::object().with("total", Json::Uint(rows.len() as u64)).with(
        "combos",
        Json::list(list),
    );
    assert(out@ == tasks_json(rows@.len() as int, views));
    out
}

/// How many tasks are looked at.
pub const TASK_LIMIT: usize = 10;

/// The tasks that were looked at so far, the most recent first.
pub struct TaskTally {
    selected: Vec<Json>,
    paths: Vec<String>,
    warnings: Vec<String>,
}

/// The warning about a task that could not be read: the first word of the error.
pub open spec fn task_warning(error: Seq<char>) -> Seq<char> {
    let word = first_word_of(error);
    "一条任务元数据未读取："@ + if word.len() == 0 {
        "Error"@
    } else {
        word
    }
}

impl TaskTally {
    pub closed spec fn selected(&self) -> Seq<JsonView> {
        models(self.selected@)
    }

    pub closed spec fn paths(&self) -> Seq<Seq<char>> {
        texts(self.paths@)
    }

    pub closed spec fn warned(&self) -> Seq<Seq<char>> {
        texts(self.warnings@)
    }

    /// No task yet.
    pub fn new() -> (r: Self)
        ensures
            r.selected().len() == 0,
            r.paths().len() == 0,
            r.warned().len() == 0,
    {
        TaskTally { selected: Vec::new(), paths: Vec::new(), warnings: Vec::new() }
    }

    /// Whether one more task is to be looked at.
    pub fn wants_more(&self) -> (r: bool)
        ensures
            r == (self.selected().len() < TASK_LIMIT),
    {
        self.selected.len() < TASK_LIMIT
    }

    /// Takes what the log of a task says, or why it could not be read.
    pub fn accept(&mut self, path: &str, context: Result<Json, String>)
        ensures
            match context {
                Ok(v) => final(self).selected() == old(self).selected().push(v@)
                    && final(self).paths() == old(self).paths().push(path@)
                    && final(self).warned() == old(self).warned(),
                Err(e) => final(self).selected() == old(self).selected() && final(self).paths()
                    == old(self).paths() && final(self).warned() == old(self).warned().push(
                    task_warning(e@),
                ),
            },
    {
        match context {
            Ok(v) => {
                let ghost a = self.selected();
                let ghost b = self.paths();
                self.selected.push(v);
                self.paths.push(path.to_owned());
                assert(self.selected() =~= a.push(v@));
                assert(self.paths() =~= b.push(path@));
            },
            Err(e) => {
                let word = first_word(e.as_str());
                let shown = if word.is_empty() {
                    "Error"
                } else {
                    word
                };
                let ghost a = self.warned();
                self.warnings.push(glue("一条任务元数据未读取：", shown));
                assert(self.warned() =~= a.push(task_warning(e@)));
            },
        }
    }

    /// The warnings so far.
    pub fn warnings(&self) -> (r: &Vec<String>)
        ensures
            texts(r@) == self.warned(),
    {
        &self.warnings
    }

    /// What is remembered of the logs that were read, out of all that was known.
    pub fn kept(&self, cached: &Json) -> (r: Json)
        ensures
            r@ == kept_of(cached@, self.paths()),
    {
        let mut out = Json::object();
        let mut i: usize = 0;
        assert(self.paths().take(0) =~= Seq::empty());
        while i < self.paths.len()
            invariant
                i <= self.paths@.len(),
                out@ == kept_of(cached@, self.paths().take(i as int)),
            decreases self.paths@.len() - i,
        {
            proof {
                assert(self.paths().take(i as int + 1).drop_last() =~= self.paths().take(i as int));
                assert(self.paths().take(i as int + 1).last() == self.paths@[i as int]@);
            }
            match cached.get(self.paths[i].as_str()) {
                Some(v) => {
                    out.insert(self.paths[i].as_str(), v.clone());
                },
                None => {},
            }
            i += 1;
        }
        assert(self.paths().take(self.paths().len() as int) =~= self.paths());
        out
    }

    /// How many tasks were looked at, and in which combinations.
    pub fn summary(&self) -> (r: Json)
        ensures
            exists|combos: Seq<EntryView>|
                r@ == #[trigger] tasks_json(self.selected().len() as int, combos) && counted(
                    combos,
                    self.selected(),
                ) && in_order(combos),
    {
        assert(self.selected().len() == self.selected@.len());
        tasks_summary(&self.selected)
    }
}

/// The members under some keys.
pub open spec fn kept_of(cached: JsonView, paths: Seq<Seq<char>>) -> JsonView
    decreases paths.len(),
{
    if paths.len() == 0 {
        empty_object()
    } else {
        let rest = kept_of(cached, paths.drop_last());
        match at(cached, paths.last()) {
            Some(v) => put(rest, paths.last(), v),
            None => rest,
        }
    }
}

/// How many requests a model got in one quarter of an hour, and how many of
/// them came without a count of tokens.
#[derive(Debug)]
pub struct UsageRow {
    pub model: String,
    pub bucket: i64,
    pub count: u64,
    pub missing: u64,
}

/// A row with a model and a quarter of the day.
pub open spec fn row_valid(r: UsageRow) -> bool {
    r.model@.len() > 0 && 0 <= r.bucket < 96
}

/// The requests of a model.
pub open spec fn model_sum(rows: Seq<UsageRow>, model: Seq<char>) -> int
    decreases rows.len(),
{
    if rows.len() == 0 {
        0
    } else {
        model_sum(rows.drop_last(), model) + if rows.last().model@ == model {
            rows.last().count as int
        } else {
            0
        }
    }
}

/// The requests of a model in one quarter of an hour.
pub open spec fn bucket_sum(rows: Seq<UsageRow>, model: Seq<char>, bucket: int) -> int
    decreases rows.len(),
{
    if rows.len() == 0 {
        0
    } else {
        bucket_sum(rows.drop_last(), model, bucket) + if rows.last().model@ == model
            && rows.last().bucket == bucket {
            rows.last().count as int
        } else {
            0
        }
    }
}

/// All requests.
pub open spec fn request_sum(rows: Seq<UsageRow>) -> int
    decreases rows.len(),
{
    if rows.len() == 0 {
        0
    } else {
        request_sum(rows.drop_last()) + rows.last().count
    }
}

/// All requests without a count of tokens.
pub open spec fn missing_sum(rows: Seq<UsageRow>) -> int
    decreases rows.len(),
{
    if rows.len() == 0 {
        0
    } else {
        missing_sum(rows.drop_last()) + rows.last().missing
    }
}

/// Whether an entry sums up the rows of its model.
pub open spec fn sums_rows(e: EntryView, rows: Seq<UsageRow>) -> bool {
    &&& e.effort == "unknown"@
    &&& e.count == model_sum(rows, e.model)
    &&& e.bins.len() == 96
    &&& forall|b: int| 0 <= b < 96 ==> #[trigger] e.bins[b] == bucket_sum(rows, e.model, b)
    &&& total_of(e.bins) == e.count
    &&& exists|j: int| 0 <= j < rows.len() && (#[trigger] rows[j]).model@ == e.model
}

/// Whether some entry is of the model of a row.
pub open spec fn has_model(v: Seq<EntryView>, model: Seq<char>) -> bool {
    exists|i: int| 0 <= i < v.len() && (#[trigger] v[i]).model == model
}

/// Whether entries sum up some rows: each model that occurs, once.
pub open spec fn summed(v: Seq<EntryView>, rows: Seq<UsageRow>) -> bool {
    &&& keys_once(v)
    &&& forall|i: int| 0 <= i < v.len() ==> sums_rows(#[trigger] v[i], rows)
    &&& forall|j: int| 0 <= j < rows.len() ==> has_model(v, (#[trigger] rows[j]).model@)
}

proof fn lemma_sum_bounds(rows: Seq<UsageRow>, model: Seq<char>, bucket: int)
    ensures
        0 <= bucket_sum(rows, model, bucket) <= model_sum(rows, model) <= request_sum(rows),
    decreases rows.len(),
{
    if rows.len() > 0 {
        lemma_sum_bounds(rows.drop_last(), model, bucket);
    }
}

proof fn lemma_sum_none(rows: Seq<UsageRow>, model: Seq<char>, v: Seq<EntryView>)
    requires
        forall|j: int| 0 <= j < rows.len() ==> has_model(v, (#[trigger] rows[j]).model@),
        forall|i: int| 0 <= i < v.len() ==> (#[trigger] v[i]).model != model,
    ensures
        model_sum(rows, model) == 0,
        forall|b: int| #[trigger] bucket_sum(rows, model, b) == 0,
    decreases rows.len(),
{
    if rows.len() > 0 {
        let rest = rows.drop_last();
        assert forall|j: int| 0 <= j < rest.len() implies has_model(
            v,
            (#[trigger] rest[j]).model@,
        ) by {
            assert(rest[j] == rows[j]);
        }
        lemma_sum_none(rest, model, v);
        assert(has_model(v, rows[rows.len() - 1].model@));
        assert forall|b: int| #[trigger] bucket_sum(rows, model, b) == 0 by {
            assert(bucket_sum(rest, model, b) == 0);
        }
    }
}

proof fn lemma_total_update(v: Seq<int>, i: int, x: int)
    requires
        0 <= i < v.len(),
    ensures
        total_of(v.update(i, x)) == total_of(v) - v[i] + x,
    decreases v.len(),
{
    if i == v.len() - 1 {
        assert(v.update(i, x).drop_last() =~= v.drop_last());
    } else {
        lemma_total_update(v.drop_last(), i, x);
        assert(v.update(i, x).drop_last() =~= v.drop_last().update(i, x));
    }
}

proof fn lemma_total_zeros(v: Seq<int>)
    requires
        forall|i: int| 0 <= i < v.len() ==> v[i] == 0,
    ensures
        total_of(v) == 0,
    decreases v.len(),
{
    if v.len() > 0 {
        lemma_total_zeros(v.drop_last());
    }
}

/// Sums up one more row.
fn add_usage(entries: &mut Vec<Entry>, row: &UsageRow, seen: Ghost<Seq<UsageRow>>)
    requires
        summed(entry_views(old(entries)@), seen@),
        row_valid(*row),
        request_sum(seen@.push(*row)) <= u64::MAX,
    ensures
        summed(entry_views(final(entries)@), seen@.push(*row)),
        entry_total(entry_views(final(entries)@)) == entry_total(entry_views(old(entries)@))
            + row.count,
{
    let ghost rows = seen@;
    let ghost now = rows.push(*row);
    let ghost before = entry_views(entries@);
    let ghost bucket = row.bucket as int;
    let mut p: usize = 0;
    proof {
        assert(now.drop_last() =~= rows);
        assert(now.last() == *row);
        assert forall|j: int| 0 <= j < rows.len() implies now[j] == #[trigger] rows[j] by {}
    }
    while p < entries.len() && !same_text(entries[p].model.as_str(), row.model.as_str())
        invariant
            p <= entries@.len(),
            before == entry_views(entries@),
            forall|k: int| 0 <= k < p ==> (#[trigger] before[k]).model != row.model@,
        decreases entries@.len() - p,
    {
        assert(before[p as int] == entries@[p as int]@);
        p += 1;
    }
    if p == entries.len() {
        let bins = zeros();
        let entry = Entry {
            model: row.model.clone(),
            effort: "unknown".to_owned(),
            count: 0,
            bins,
        };
        entries.push(entry);
        proof {
            let fresh = entry_views(entries@);
            assert(fresh =~= before.push(entry@));
            assert(fresh.drop_last() =~= before);
            lemma_sum_none(rows, row.model@, before);
            lemma_total_zeros(entry@.bins);
        }
    }
    let ghost fresh = entry_views(entries@);
    let ghost e = fresh[p as int];
    proof {
        assert(e == entries@[p as int]@);
        if p < before.len() {
            assert(e == before[p as int]);
            assert(sums_rows(before[p as int], rows));
        }
        lemma_sum_bounds(now, row.model@, bucket);
        lemma_sum_bounds(rows, row.model@, bucket);
        assert(e.bins[bucket] == bucket_sum(rows, row.model@, bucket));
        assert(entries@[p as int].bins@[bucket] == e.bins[bucket]);
    }
    let b: usize = row.bucket as usize;
    let mut bins: Vec<u64> = Vec::new();
    bins.append(&mut entries[p].bins);
    let ghost old_bins = ints(bins@);
    let value: u64 = bins[b] + row.count;
    bins.set(b, value);
    let entry = Entry {
        model: entries[p].model.clone(),
        effort: entries[p].effort.clone(),
        count: entries[p].count + row.count,
        bins,
    };
    entries.set(p, entry);
    proof {
        let after = entry_views(entries@);
        assert(old_bins =~= e.bins);
        assert(entry@.bins =~= old_bins.update(bucket, old_bins[bucket] + row.count));
        lemma_total_update(old_bins, bucket, old_bins[bucket] + row.count);
        assert(after =~= fresh.update(p as int, entry@));
        lemma_entry_total_update(fresh, p as int, entry@);
        assert(now[rows.len() as int].model@ == row.model@);
        assert forall|b: int| 0 <= b < 96 implies #[trigger] entry@.bins[b] == bucket_sum(
            now,
            row.model@,
            b,
        ) by {
            assert(e.bins[b] == bucket_sum(rows, row.model@, b));
        }
        assert(sums_rows(entry@, now));
        assert forall|k: int| 0 <= k < after.len() implies sums_rows(#[trigger] after[k], now) by {
            if k != p {
                assert(after[k] == before[k]);
                assert(sums_rows(before[k], rows));
                assert(before[k].model != row.model@) by {
                    if k > p {
                        assert(!same_key(before[p as int], before[k]));
                        assert(before[k].effort == "unknown"@);
                        assert(sums_rows(before[p as int], rows));
                    }
                }
                assert forall|b: int| 0 <= b < 96 implies #[trigger] after[k].bins[b] == bucket_sum(
                    now,
                    after[k].model,
                    b,
                ) by {
                    assert(before[k].bins[b] == bucket_sum(rows, before[k].model, b));
                }
                let j = choose|j: int|
                    0 <= j < rows.len() && (#[trigger] rows[j]).model@ == before[k].model;
                assert(now[j].model@ == after[k].model);
            }
        }
        assert forall|j: int| 0 <= j < now.len() implies has_model(
            after,
            (#[trigger] now[j]).model@,
        ) by {
            if j < rows.len() {
                assert(now[j] == rows[j]);
                assert(has_model(before, rows[j].model@));
                let k = choose|k: int|
                    0 <= k < before.len() && (#[trigger] before[k]).model == rows[j].model@;
                assert(after[k].model == before[k].model);
            } else {
                assert(after[p as int].model == row.model@);
            }
        }
        assert forall|x: int, y: int| 0 <= x < y < after.len() implies !same_key(
            #[trigger] after[x],
            #[trigger] after[y],
        ) by {
            if y < before.len() {
                assert(!same_key(before[x], before[y]));
                assert(after[x].model == before[x].model && after[x].effort == before[x].effort);
                assert(after[y].model == before[y].model && after[y].effort == before[y].effort);
            } else {
                assert(after[x] == before[x]);
                assert(after[y].model == row.model@);
            }
        }
    }
}

fn zeros() -> (r: Vec<u64>)
    ensures
        r@.len() == 96,
        forall|i: int| 0 <= i < 96 ==> r@[i] == 0,
{
    let mut out: Vec<u64> = Vec::new();
    let mut i: usize = 0;
    while i < 96
        invariant
            i <= 96,
            out@.len() == i,
            forall|k: int| 0 <= k < i ==> out@[k] == 0,
        decreases 96 - i,
    {
        out.push(0);
        i += 1;
    }
    out
}

proof fn lemma_request_prefix(rows: Seq<UsageRow>, n: int)
    requires
        0 <= n <= rows.len(),
    ensures
        request_sum(rows.take(n)) <= request_sum(rows),
        missing_sum(rows.take(n)) <= missing_sum(rows),
    decreases rows.len() - n,
{
    if n < rows.len() {
        lemma_request_prefix(rows, n + 1);
        assert(rows.take(n + 1).drop_last() =~= rows.take(n));
    } else {
        assert(rows.take(n) =~= rows);
    }
}

/// Sums up rows of requests by model and quarter of an hour.
pub fn sum_rows(rows: &Vec<UsageRow>) -> (r: Result<(Vec<Entry>, u64, u64), String>)
    requires
        request_sum(rows@) <= u64::MAX,
        missing_sum(rows@) <= i64::MAX,
    ensures
        match r {
            Ok((entries, total, missing)) => {
                &&& forall|i: int| 0 <= i < rows@.len() ==> row_valid(#[trigger] rows@[i])
                &&& summed(entry_views(entries@), rows@)
                &&& in_order(entry_views(entries@))
                &&& total == request_sum(rows@)
                &&& total == entry_total(entry_views(entries@))
                &&& missing == missing_sum(rows@)
            },
            Err(e) => e@ == "代理模型或时间字段无效"@ && exists|i: int|
                0 <= i < rows@.len() && !row_valid(#[trigger] rows@[i]),
        },
{
    let mut entries: Vec<Entry> = Vec::new();
    let mut total: u64 = 0;
    let mut missing: u64 = 0;
    let mut i: usize = 0;
    while i < rows.len()
        invariant
            i <= rows@.len(),
            request_sum(rows@) <= u64::MAX,
            missing_sum(rows@) <= i64::MAX,
            forall|k: int| 0 <= k < i ==> row_valid(#[trigger] rows@[k]),
            summed(entry_views(entries@), rows@.take(i as int)),
            total == request_sum(rows@.take(i as int)),
            total == entry_total(entry_views(entries@)),
            missing == missing_sum(rows@.take(i as int)),
        decreases rows@.len() - i,
    {
        if rows[i].model.as_str().is_empty() || rows[i].bucket < 0 || rows[i].bucket >= 96 {
            assert(!row_valid(rows@[i as int]));
            return Err("代理模型或时间字段无效".to_owned());
        }
        proof {
            assert(rows@.take(i as int + 1) =~= rows@.take(i as int).push(rows@[i as int]));
            assert(rows@.take(i as int + 1).drop_last() =~= rows@.take(i as int));
            lemma_request_prefix(rows@, i as int + 1);
        }
        add_usage(&mut entries, &rows[i], Ghost(rows@.take(i as int)));
        total = total + rows[i].count;
        missing = missing + rows[i].missing;
        i += 1;
    }
    assert(rows@.take(rows@.len() as int) =~= rows@);
    let ghost b = entry_views(entries@);
    let out = list_entries(entries);
    proof {
        let a = entry_views(out@);
        lemma_order_keys_once(a, b);
        assert forall|i: int| 0 <= i < a.len() implies sums_rows(#[trigger] a[i], rows@) by {
            assert(a.contains(a[i]));
            lemma_same_contains(a, b, a[i]);
            let k = choose|k: int| 0 <= k < b.len() && b[k] == a[i];
            assert(sums_rows(b[k], rows@));
        }
        assert forall|j: int| 0 <= j < rows@.len() implies has_model(
            a,
            (#[trigger] rows@[j]).model@,
        ) by {
            assert(has_model(b, rows@[j].model@));
            let k = choose|k: int|
                0 <= k < b.len() && (#[trigger] b[k]).model == rows@[j].model@;
            assert(b.contains(b[k]));
            lemma_same_contains(a, b, b[k]);
            let n = choose|n: int| 0 <= n < a.len() && a[n] == b[k];
            assert(a[n].model == rows@[j].model@);
        }
    }
    Ok((out, total, missing))
}

/// A model with its requests as JSON.
pub open spec fn model_json(e: EntryView) -> JsonView {
    put(combo_json(e), "bins"@, numbers_json(e.bins))
}

/// Numbers as a JSON array.
pub open spec fn numbers_json(v: Seq<int>) -> JsonView {
    JsonView::Array(Seq::new(v.len(), |i: int| JsonView::Int(v[i])))
}

impl Entry {
    fn model_json(&self) -> (r: Json)
        ensures
            r@ == model_json(self@),
    {
        let mut bins: Vec<Json> = Vec::new();
        let mut i: usize = 0;
        while i < self.bins.len()
            invariant
                i <= self.bins@.len(),
                bins@.len() == i,
                forall|k: int|
                    0 <= k < i ==> (#[trigger] bins@[k])@ == JsonView::Int(self.bins@[k] as int),
            decreases self.bins@.len() - i,
        {
            bins.push(Json::Uint(self.bins[i]));
            i += 1;
        }
        assert(models(bins@) =~= numbers_json(self@.bins)->Array_0);
        self.combo().with("bins", Json::list(bins))
    }
}

/// Texts as a JSON array.
pub open spec fn texts_json(v: Seq<Seq<char>>) -> JsonView {
    JsonView::Array(Seq::new(v.len(), |i: int| JsonView::Str(v[i])))
}

/// Texts as a JSON array.
pub fn list_texts(v: &Vec<String>) -> (r: Json)
    ensures
        r@ == texts_json(texts(v@)),
{
    let mut out: Vec<Json> = Vec::new();
    let mut i: usize = 0;
    while i < v.len()
        invariant
            i <= v@.len(),
            out@.len() == i,
            forall|k: int| 0 <= k < i ==> (#[trigger] out@[k])@ == JsonView::Str(v@[k]@),
        decreases v@.len() - i,
    {
        out.push(Json::text(v[i].as_str()));
        i += 1;
    }
    assert(models(out@) =~= texts_json(texts(v@))->Array_0);
    Json::list(out)
}

/// The requests of one day as JSON.
pub open spec fn usage_json(
    total: int,
    models: Seq<EntryView>,
    missing: int,
    start: int,
    end: int,
    labels: Seq<Seq<char>>,
) -> JsonView {
    put(
        put(
            put(
                put(
                    put(
                        put(empty_object(), "total"@, JsonView::Int(total)),
                        "models"@,
                        JsonView::Array(Seq::new(models.len(), |i: int| model_json(models[i]))),
                    ),
                    "missing_usage"@,
                    JsonView::Int(missing),
                ),
                "start"@,
                JsonView::Int(start),
            ),
            "end"@,
            JsonView::Int(end),
        ),
        "labels"@,
        texts_json(labels),
    )
}

/// The hours at which a day that ended at `now` is labelled: the clock in China
/// at its start and every six hours on.
pub open spec fn day_labels(now: int) -> Seq<Seq<char>> {
    Seq::new(
        5,
        |i: int|
            match china_text(now - 86400 + i * 21600, "%H:%M"@) {
                Some(s) => s,
                None => "00:00"@,
            },
    )
}

/// The requests of the day that ended at `now`, by model and quarter of an hour.
pub fn usage_counts(rows: &Vec<UsageRow>, now: i64) -> (r: Result<Json, String>)
    requires
        request_sum(rows@) <= u64::MAX,
        missing_sum(rows@) <= i64::MAX,
        i64::MIN + 86400 <= now,
    ensures
        match r {
            Ok(v) => {
                &&& forall|i: int| 0 <= i < rows@.len() ==> row_valid(#[trigger] rows@[i])
                &&& exists|entries: Seq<EntryView>|
                    summed(entries, rows@) && in_order(entries) && entry_total(entries)
                        == request_sum(rows@) && v@ == #[trigger] usage_json(
                        request_sum(rows@),
                        entries,
                        missing_sum(rows@),
                        now - 86400,
                        now as int,
                        day_labels(now as int),
                    )
            },
            Err(e) => e@ == "代理模型或时间字段无效"@ && exists|i: int|
                0 <= i < rows@.len() && !row_valid(#[trigger] rows@[i]),
        },
{
    let (entries, total, missing) = sum_rows(rows)?;
    let ghost views = entry_views(entries@);
    let start: i64 = now - 86400;
    let mut list: Vec<Json> = Vec::new();
    let mut i: usize = 0;
    while i < entries.len()
        invariant
            i <= entries@.len(),
            list@.len() == i,
            forall|k: int| 0 <= k < i ==> (#[trigger] list@[k])@ == model_json(entries@[k]@),
        decreases entries@.len() - i,
    {
        list.push(entries[i].model_json());
        i += 1;
    }
    assert(models(list@) =~= Seq::new(views.len(), |i: int| model_json(views[i])));
    let mut labels: Vec<String> = Vec::new();
    let mut n: i64 = 0;
    while n < 5
        invariant
            0 <= n <= 5,
            start == now - 86400,
            i64::MIN + 86400 <= now,
            labels@.len() == n,
            forall|k: int| 0 <= k < n ==> (#[trigger] labels@[k])@ == day_labels(now as int)[k],
        decreases 5 - n,
    {
        let label = match china_time(start + n * 21600, "%H:%M") {
            Some(s) => s,
            None => "00:00".to_owned(),
        };
        labels.push(label);
        n += 1;
    }
    assert(texts(labels@) =~= day_labels(now as int));
    let out = Json::object().with("total", Json::Uint(total)).with("models", Json::list(list)).with(
        "missing_usage",
        Json::Uint(missing),
    ).with("start", Json::Int(start)).with("end", Json::Int(now)).with(
        "labels",
        list_texts(&labels),
    );
    assert(out@ == usage_json(
        request_sum(rows@),
        views,
        missing_sum(rows@),
        now - 86400,
        now as int,
        day_labels(now as int),
    ));
    Ok(out)
}

proof fn lemma_count_members()
    ensures
        "model"@.len() == 5,
        "effort"@.len() == 6,
        "count"@.len() == 5,
        "bins"@.len() == 4,
        "total"@.len() == 5,
        "combos"@.len() == 6,
        "models"@.len() == 6,
        "missing_usage"@.len() == 13,
        "start"@.len() == 5,
        "end"@.len() == 3,
        "labels"@.len() == 6,
        "model"@[0] == 'm',
        "count"@[0] == 'c',
        "total"@[0] == 't',
        "start"@[0] == 's',
        "effort"@[0] == 'e',
        "combos"@[0] == 'c',
        "models"@[0] == 'm',
        "labels"@[0] == 'l',
{
    reveal_strlit("model");
    reveal_strlit("effort");
    reveal_strlit("count");
    reveal_strlit("bins");
    reveal_strlit("total");
    reveal_strlit("combos");
    reveal_strlit("models");
    reveal_strlit("missing_usage");
    reveal_strlit("start");
    reveal_strlit("end");
    reveal_strlit("labels");
}

/// Whether a row of a log is of a model at an effort; a row that names no model is of
/// the empty one, a row that names no effort of the unknown one.
pub open spec fn row_is_of(row: JsonView, model: Seq<char>, effort: Seq<char>) -> bool {
    &&& match at(row, "model"@) {
        Some(JsonView::Str(s)) => s == model,
        _ => model == ""@,
    }
    &&& match at(row, "effort"@) {
        Some(JsonView::Str(s)) => s == effort,
        _ => effort == "unknown"@,
    }
}

/// Whether the combination of a row is among some.
pub open spec fn is_ranked(combos: Seq<EntryView>, row: JsonView) -> bool {
    exists|i: int|
        0 <= i < combos.len() && row_is_of(row, (#[trigger] combos[i]).model, combos[i].effort)
}

proof fn lemma_times(rows: Seq<JsonView>, model: Seq<char>, effort: Seq<char>)
    ensures
        times(rows, model, effort) == rows.filter(|r: JsonView| row_is_of(r, model, effort)).len(),
    decreases rows.len(),
{
    reveal(Seq::filter);
    if rows.len() > 0 {
        lemma_times(rows.drop_last(), model, effort);
    }
}

/// A ranking of rows names every combination that occurs, once and with the number of
/// its rows; the most frequent comes first, and of two as frequent the one whose name
/// is less.
pub proof fn law_ranking_counts_the_rows(combos: Seq<EntryView>, rows: Seq<JsonView>)
    requires
        counted(combos, rows),
        in_order(combos),
    ensures
        forall|i: int|
            #![trigger combos[i]]
            0 <= i < combos.len() ==> combos[i].count > 0 && combos[i].count == rows.filter(
                |r: JsonView| row_is_of(r, combos[i].model, combos[i].effort),
            ).len(),
        forall|j: int| 0 <= j < rows.len() ==> is_ranked(combos, #[trigger] rows[j]),
        forall|i: int, j: int|
            #![trigger combos[i], combos[j]]
            0 <= i < j < combos.len() ==> {
                &&& combos[i].count >= combos[j].count
                &&& combos[i].model != combos[j].model || combos[i].effort != combos[j].effort
                &&& combos[i].count == combos[j].count ==> !precedes(
                    combos[j].model,
                    combos[i].model,
                )
                &&& combos[i].count == combos[j].count && combos[i].model == combos[j].model
                    ==> precedes(combos[i].effort, combos[j].effort)
            },
{
    assert forall|i: int| #![trigger combos[i]] 0 <= i < combos.len() implies combos[i].count > 0
        && combos[i].count == rows.filter(
        |r: JsonView| row_is_of(r, combos[i].model, combos[i].effort),
    ).len() by {
        assert(counts_rows(combos[i], rows));
        lemma_times(rows, combos[i].model, combos[i].effort);
    }
    assert forall|j: int| 0 <= j < rows.len() implies is_ranked(combos, #[trigger] rows[j]) by {
        assert(has_row(combos, rows[j]));
        let i = choose|i: int|
            0 <= i < combos.len() && (#[trigger] combos[i]).model == row_model(rows[j])
                && combos[i].effort == row_effort(rows[j]);
        assert(row_is_of(rows[j], combos[i].model, combos[i].effort));
    }
    assert forall|i: int, j: int|
        #![trigger combos[i], combos[j]]
        0 <= i < j < combos.len() implies combos[i].count >= combos[j].count && (combos[i].model
        != combos[j].model || combos[i].effort != combos[j].effort) && (combos[i].count
        == combos[j].count ==> !precedes(combos[j].model, combos[i].model)) && (combos[i].count
        == combos[j].count && combos[i].model == combos[j].model ==> precedes(
        combos[i].effort,
        combos[j].effort,
    )) by {
        assert(listed_before(combos[i], combos[j]));
        assert(!same_key(combos[i], combos[j]));
        law_order_is_total(combos[i].model, combos[j].model);
        law_order_is_total(combos[i].effort, combos[j].effort);
    }
}

/// The order of texts goes by the first character in which they differ; a text comes
/// before any that goes on where it ends.
pub proof fn law_first_difference_decides(a: Seq<char>, b: Seq<char>, n: int)
    requires
        0 <= n <= a.len(),
        n < b.len(),
        a.take(n) == b.take(n),
    ensures
        n < a.len() && a[n] != b[n] ==> (precedes(a, b) <==> a[n] < b[n]),
        n == a.len() ==> precedes(a, b) && !precedes(b, a),
    decreases n,
{
    if n > 0 {
        assert(a[0] == a.take(n)[0]);
        assert(b[0] == b.take(n)[0]);
        assert(a.drop_first().take(n - 1) =~= a.take(n).drop_first());
        assert(b.drop_first().take(n - 1) =~= b.take(n).drop_first());
        law_first_difference_decides(a.drop_first(), b.drop_first(), n - 1);
    }
}

/// The record of some tasks says how many there are and, combination by combination,
/// the model, the effort and the count.
pub proof fn law_tasks_record_says_the_ranking(total: int, combos: Seq<EntryView>)
    ensures
        ({
            let v = tasks_json(total, combos);
            &&& at(v, "total"@) == Some(JsonView::Int(total))
            &&& at(v, "combos"@) matches Some(JsonView::Array(list))
            &&& list.len() == combos.len()
            &&& forall|i: int|
                #![trigger list[i]]
                0 <= i < list.len() ==> at(list[i], "model"@) == Some(JsonView::Str(combos[i].model))
                    && at(list[i], "effort"@) == Some(JsonView::Str(combos[i].effort)) && at(
                    list[i],
                    "count"@,
                ) == Some(JsonView::Int(combos[i].count))
        }),
{
    lemma_count_members();
}

/// What is remembered of the logs is what was known of the ones that were read, and
/// nothing else.
pub proof fn law_read_logs_are_remembered(cached: JsonView, paths: Seq<Seq<char>>, path: Seq<char>)
    ensures
        kept_of(cached, paths) is Object,
        at(kept_of(cached, paths), path) == if paths.contains(path) {
            at(cached, path)
        } else {
            None
        },
    decreases paths.len(),
{
    if paths.len() > 0 {
        let front = paths.drop_last();
        law_read_logs_are_remembered(cached, front, path);
        if paths.contains(path) && path != paths.last() {
            let i = choose|i: int| 0 <= i < paths.len() && paths[i] == path;
            assert(front[i] == path);
        }
        if front.contains(path) {
            let i = choose|i: int| 0 <= i < front.len() && front[i] == path;
            assert(paths[i] == path);
        }
        assert(paths[paths.len() - 1] == paths.last());
    }
}

/// The requests of two lists of rows together are those of each, for a model, for a
/// quarter of an hour and overall, and so are those without a count of tokens.
pub proof fn law_requests_add_up(a: Seq<UsageRow>, b: Seq<UsageRow>, model: Seq<char>, bucket: int)
    ensures
        model_sum(a + b, model) == model_sum(a, model) + model_sum(b, model),
        bucket_sum(a + b, model, bucket) == bucket_sum(a, model, bucket) + bucket_sum(
            b,
            model,
            bucket,
        ),
        request_sum(a + b) == request_sum(a) + request_sum(b),
        missing_sum(a + b) == missing_sum(a) + missing_sum(b),
    decreases b.len(),
{
    if b.len() > 0 {
        law_requests_add_up(a, b.drop_last(), model, bucket);
        assert((a + b).drop_last() =~= a + b.drop_last());
        assert((a + b).last() == b.last());
    } else {
        assert(a + b =~= a);
    }
}

/// A row by itself stands for its requests: they are of its model and in its quarter
/// of an hour, and of no other.
pub proof fn law_row_stands_for_its_requests(row: UsageRow, model: Seq<char>, bucket: int)
    ensures
        model_sum(seq![row], model) == if row.model@ == model {
            row.count as int
        } else {
            0
        },
        bucket_sum(seq![row], model, bucket) == if row.model@ == model && row.bucket == bucket {
            row.count as int
        } else {
            0
        },
        request_sum(seq![row]) == row.count,
        missing_sum(seq![row]) == row.missing,
        row_valid(row) <==> row.model@.len() > 0 && 0 <= row.bucket <= 95,
{
    let s = seq![row];
    let none = s.drop_last();
    assert(none.len() == 0);
    assert(s.last() == row);
    assert(model_sum(none, model) == 0);
    assert(bucket_sum(none, model, bucket) == 0);
    assert(request_sum(none) == 0);
    assert(missing_sum(none) == 0);
}

/// A sum of rows has, for each of its models, all the requests of that model: in 96
/// quarters of an hour, each with the requests that fell into it.
pub proof fn law_usage_is_what_the_rows_say(
    entries: Seq<EntryView>,
    rows: Seq<UsageRow>,
    i: int,
    bucket: int,
)
    requires
        summed(entries, rows),
        0 <= i < entries.len(),
        0 <= bucket < 96,
    ensures
        entries[i].count == model_sum(rows, entries[i].model),
        entries[i].effort == "unknown"@,
        entries[i].bins.len() == 96,
        entries[i].bins[bucket] == bucket_sum(rows, entries[i].model, bucket),
        exists|j: int| 0 <= j < rows.len() && (#[trigger] rows[j]).model@ == entries[i].model,
{
    assert(sums_rows(entries[i], rows));
}

/// A sum of rows has every model that occurs.
pub proof fn law_every_model_is_listed(entries: Seq<EntryView>, rows: Seq<UsageRow>, k: int)
    requires
        summed(entries, rows),
        0 <= k < rows.len(),
    ensures
        exists|n: int| 0 <= n < entries.len() && (#[trigger] entries[n]).model == rows[k].model@,
{
    assert(has_model(entries, rows[k].model@));
}

/// A sum of rows has no model twice, and the most used one first.
pub proof fn law_models_are_listed_by_use(
    entries: Seq<EntryView>,
    rows: Seq<UsageRow>,
    i: int,
    j: int,
)
    requires
        summed(entries, rows),
        in_order(entries),
        0 <= i < j < entries.len(),
    ensures
        entries[i].count >= entries[j].count,
        entries[i].model != entries[j].model,
        entries[i].count == entries[j].count ==> precedes(entries[i].model, entries[j].model),
{
    assert(listed_before(entries[i], entries[j]));
    assert(!same_key(entries[i], entries[j]));
    assert(sums_rows(entries[i], rows));
    assert(sums_rows(entries[j], rows));
}

/// The record of a day's requests says the day, its hours, the totals and, model by
/// model, the count and the 96 quarters of an hour.
pub proof fn law_usage_record_says_the_day(
    total: int,
    models: Seq<EntryView>,
    missing: int,
    start: int,
    end: int,
    labels: Seq<Seq<char>>,
)
    ensures
        ({
            let v = usage_json(total, models, missing, start, end, labels);
            &&& at(v, "total"@) == Some(JsonView::Int(total))
            &&& at(v, "missing_usage"@) == Some(JsonView::Int(missing))
            &&& at(v, "start"@) == Some(JsonView::Int(start))
            &&& at(v, "end"@) == Some(JsonView::Int(end))
            &&& at(v, "labels"@) matches Some(JsonView::Array(hours))
            &&& hours.len() == labels.len()
            &&& forall|i: int|
                0 <= i < labels.len() ==> #[trigger] hours[i] == JsonView::Str(labels[i])
            &&& at(v, "models"@) matches Some(JsonView::Array(list))
            &&& list.len() == models.len()
            &&& forall|i: int|
                #![trigger list[i]]
                0 <= i < list.len() ==> {
                    &&& at(list[i], "model"@) == Some(JsonView::Str(models[i].model))
                    &&& at(list[i], "effort"@) == Some(JsonView::Str(models[i].effort))
                    &&& at(list[i], "count"@) == Some(JsonView::Int(models[i].count))
                    &&& at(list[i], "bins"@) matches Some(JsonView::Array(bins))
                    &&& bins.len() == models[i].bins.len()
                    &&& forall|b: int|
                        0 <= b < bins.len() ==> #[trigger] bins[b] == JsonView::Int(
                            models[i].bins[b],
                        )
                }
        }),
{
    lemma_count_members();
}

/// A day is labelled at its start, at its end and every six hours between, by the
/// clock in China.
pub proof fn law_day_is_labelled_every_six_hours(now: int, i: int)
    requires
        0 <= i < 5,
    ensures
        day_labels(now).len() == 5,
        china_text(now - (4 - i) * 6 * 3600, "%H:%M"@) is Some ==> day_labels(now)[i] == china_text(
            now - (4 - i) * 6 * 3600,
            "%H:%M"@,
        )->0,
        i < 4 ==> day_labels(now)[i + 1] == day_labels(now + 21600)[i],
{
    assert(now - 86400 + i * 21600 == now - (4 - i) * 6 * 3600);
    assert(now - 86400 + (i + 1) * 21600 == now + 21600 - 86400 + i * 21600);
}

} // verus!
