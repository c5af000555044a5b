//! Typed fields of JSON values: whether they can be read, and what is said of the
//! first one that cannot.

use vstd::prelude::*;

use crate::json::{at, i64_of, items_of, models, option_view, to_value, u64_of, Json, JsonView};
use crate::mirror::exact_bytes;
use crate::outside::{misfit, mistyped, type_fault, type_mismatch};
use crate::radar::bins_of;
use crate::tally::{comes_before, precedes};
use crate::text::{decimal, glue, write_decimal};

verus! {

/// A type that is read as a whole: a truth value, a number of 32 or 64 bits
/// without or with a sign, a text, bytes, or the counts of 24 hours.
#[derive(Debug, Clone, Copy, PartialEq, Eq, Structural)]
pub enum Plain {
    Flag,
    Small,
    Whole,
    Short,
    Long,
    Text,
    Bytes,
    Hours,
}

/// Whether a value is one of a type.
pub open spec fn fits(kind: Plain, v: JsonView) -> bool {
    match kind {
        Plain::Flag => v is Bool,
        Plain::Small => match u64_of(Some(v)) {
            Some(n) => n <= u32::MAX,
            None => false,
        },
        Plain::Whole => u64_of(Some(v)) is Some,
        Plain::Short => match i64_of(Some(v)) {
            Some(n) => i32::MIN <= n <= i32::MAX,
            None => false,
        },
        Plain::Long => i64_of(Some(v)) is Some,
        Plain::Text => v is Str,
        Plain::Bytes => exact_bytes(v) is Some,
        Plain::Hours => bins_of(v) is Some,
    }
}

/// What became of one field: it is not there, it can be read, or this is what is
/// said of it.
#[derive(Debug)]
pub enum Field {
    Absent,
    Fine,
    Bad(String),
}

#[verifier::ext_equal]
pub enum FieldView {
    Absent,
    Fine,
    Bad(Seq<char>),
}

impl View for Field {
    type V = FieldView;

    open spec fn view(&self) -> FieldView {
        match *self {
            Field::Absent => FieldView::Absent,
            Field::Fine => FieldView::Fine,
            Field::Bad(t) => FieldView::Bad(t@),
        }
    }
}

/// The contents of a list of fields.
pub open spec fn field_views(v: Seq<Field>) -> Seq<FieldView> {
    Seq::new(v.len(), |i: int| v[i]@)
}

/// The contents of a list of names.
pub open spec fn name_views(v: Seq<&str>) -> Seq<Seq<char>> {
    Seq::new(v.len(), |i: int| v[i]@)
}

/// What is said, where anything is.
pub open spec fn fault_view(r: Option<String>) -> Option<Seq<char>> {
    match r {
        Some(t) => Some(t@),
        None => None,
    }
}

/// What is said, nothing where nothing is wrong.
pub open spec fn said(fault: Option<Seq<char>>) -> Seq<char> {
    match fault {
        Some(t) => t,
        None => ""@,
    }
}

/// What is said, nothing where nothing is wrong.
pub fn say(fault: Option<String>) -> (r: String)
    ensures
        r@ == said(fault_view(fault)),
{
    match fault {
        Some(t) => t,
        None => "".to_owned(),
    }
}

/// A field of a record: by its name in an object, by its place in a list.
pub open spec fn field_at(v: JsonView, key: Seq<char>, place: int) -> Option<JsonView> {
    match v {
        JsonView::Array(a) => if 0 <= place < a.len() {
            Some(a[place])
        } else {
            None
        },
        _ => at(v, key),
    }
}

/// A field of a record that is complete: by its name in an object, by its place in
/// a list of all `count` fields.
pub open spec fn exact_field(v: JsonView, key: Seq<char>, place: int, count: nat) -> Option<
    JsonView,
> {
    match v {
        JsonView::Array(a) => if a.len() == count {
            field_at(v, key, place)
        } else {
            None
        },
        _ => at(v, key),
    }
}

/// A field of a record that is complete: by its name in an object, by its place in
/// a list of all `count` fields.
pub fn find_exact<'a>(v: &'a Json, key: &str, place: usize, count: usize) -> (r: Option<&'a Json>)
    ensures
        option_view(r) == exact_field(v@, key@, place as int, count as nat),
{
    match v.as_array() {
        Some(a) => if a.len() == count {
            find_field(v, key, place)
        } else {
            None
        },
        None => find_field(v, key, place),
    }
}

/// A field of a record: by its name in an object, by its place in a list.
pub fn find_field<'a>(v: &'a Json, key: &str, place: usize) -> (r: Option<&'a Json>)
    ensures
        option_view(r) == field_at(v@, key@, place as int),
{
    match v.as_array() {
        Some(a) => {
            let ghost all = models(a@);
            if place < a.len() {
                assert(all[place as int] == a@[place as int]@);
                Some(&a[place])
            } else {
                None
            }
        },
        None => v.get(key),
    }
}

/// What became of a field of a plain type.
pub open spec fn plain_field(v: Option<JsonView>, kind: Plain) -> FieldView {
    match v {
        None => FieldView::Absent,
        Some(v) => if fits(kind, v) {
            FieldView::Fine
        } else {
            FieldView::Bad(misfit(kind, v))
        },
    }
}

/// What became of a field of a plain type.
pub fn try_plain(v: Option<&Json>, kind: Plain) -> (r: Field)
    ensures
        r@ == plain_field(option_view(v), kind),
{
    match v {
        None => Field::Absent,
        Some(v) => match type_fault(kind, to_value(v)) {
            None => Field::Fine,
            Some(t) => Field::Bad(t),
        },
    }
}

/// What is said of a value that is not of a type.
pub fn say_misfit(kind: Plain, v: &Json) -> (r: String)
    requires
        !fits(kind, v@),
    ensures
        r@ == misfit(kind, v@),
{
    match type_fault(kind, to_value(v)) {
        Some(t) => t,
        None => "".to_owned(),
    }
}

/// What is said of the first of some values that cannot be read.
pub open spec fn first_fault(
    items: Seq<JsonView>,
    fault: spec_fn(JsonView) -> Option<Seq<char>>,
) -> Option<Seq<char>>
    decreases items.len(),
{
    if items.len() == 0 {
        None
    } else {
        match first_fault(items.drop_last(), fault) {
            Some(t) => Some(t),
            None => fault(items.last()),
        }
    }
}

/// What became of a field that is a list of values of one type.
pub open spec fn list_field(
    v: Option<JsonView>,
    fault: spec_fn(JsonView) -> Option<Seq<char>>,
) -> FieldView {
    match v {
        None => FieldView::Absent,
        Some(v) => match items_of(Some(v)) {
            None => FieldView::Bad(mistyped(v, "a sequence"@)),
            Some(items) => match first_fault(items, fault) {
                Some(t) => FieldView::Bad(t),
                None => FieldView::Fine,
            },
        },
    }
}

proof fn lemma_fault_stays(
    items: Seq<JsonView>,
    fault: spec_fn(JsonView) -> Option<Seq<char>>,
    n: int,
)
    requires
        0 <= n <= items.len(),
        first_fault(items.take(n), fault) is Some,
    ensures
        first_fault(items, fault) == first_fault(items.take(n), fault),
    decreases items.len() - n,
{
    if n < items.len() {
        assert(items.take(n + 1).drop_last() =~= items.take(n));
        lemma_fault_stays(items, fault, n + 1);
    } else {
        assert(items.take(n) =~= items);
    }
}

/// What became of a field that is a list of values of one type.
pub(crate) fn try_list<F: Fn(&Json) -> Option<String>>(
    v: Option<&Json>,
    fault: F,
    Ghost(spoken): Ghost<spec_fn(JsonView) -> Option<Seq<char>>>,
) -> (r: Field)
    requires
        forall|j: &Json| #[trigger] fault.requires((j,)),
        forall|j: &Json, t: Option<String>| #[trigger]
            fault.ensures((j,), t) ==> fault_view(t) == spoken(j@),
    ensures
        r@ == list_field(option_view(v), spoken),
{
    let value = match v {
        None => {
            return Field::Absent;
        },
        Some(value) => value,
    };
    let items = match value.as_array() {
        None => {
            return Field::Bad(type_mismatch(&to_value(value), "a sequence"));
        },
        Some(items) => items,
    };
    let ghost all = models(items@);
    let mut i: usize = 0;
    assert(all.take(0) =~= Seq::empty());
    while i < items.len()
        invariant
            i <= items@.len(),
            all == models(items@),
            option_view(v) == Some(value@),
            items_of(Some(value@)) == Some(all),
            first_fault(all.take(i as int), spoken) is None,
            forall|j: &Json| #[trigger] fault.requires((j,)),
            forall|j: &Json, t: Option<String>| #[trigger]
                fault.ensures((j,), t) ==> fault_view(t) == spoken(j@),
        decreases items@.len() - i,
    {
        proof {
            assert(all.take(i as int + 1).drop_last() =~= all.take(i as int));
            assert(all.take(i as int + 1).last() == items@[i as int]@);
        }
        match fault(&items[i]) {
            Some(t) => {
                proof {
                    lemma_fault_stays(all, spoken, i as int + 1);
                }
                return Field::Bad(t);
            },
            None => {},
        }
        i += 1;
    }
    assert(all.take(all.len() as int) =~= all);
    Field::Fine
}

/// The bad field among the first `n` whose name comes first.
pub open spec fn first_bad(names: Seq<Seq<char>>, fields: Seq<FieldView>, n: nat) -> Option<int>
    decreases n,
{
    if n == 0 {
        None
    } else {
        let before = first_bad(names, fields, (n - 1) as nat);
        if fields[n - 1] is Bad && match before {
            Some(i) => precedes(names[n - 1], names[i]),
            None => true,
        } {
            Some(n - 1)
        } else {
            before
        }
    }
}

/// The first field from `i` on that is not there.
pub open spec fn first_absent(fields: Seq<FieldView>, i: nat) -> Option<nat>
    decreases fields.len() - i,
{
    if i >= fields.len() {
        None
    } else if fields[i as int] is Absent {
        Some(i)
    } else {
        first_absent(fields, i + 1)
    }
}

/// What is said of the fields of an object: of the bad one whose name comes
/// first, else of the first one that is missing.
pub open spec fn object_fault(names: Seq<Seq<char>>, fields: Seq<FieldView>) -> Option<Seq<char>> {
    match first_bad(names, fields, fields.len()) {
        Some(i) => Some(fields[i]->Bad_0),
        None => match first_absent(fields, 0) {
            Some(i) => Some("missing field `"@ + names[i as int] + "`"@),
            None => None,
        },
    }
}

/// What is said of a list of a wrong length.
pub open spec fn length_fault(n: nat, expected: Seq<char>) -> Seq<char> {
    "invalid length "@ + decimal(n) + ", expected "@ + expected
}

/// What is said of the fields of a list, from the field at `i` on: of the first
/// one that is missing or bad, else that there are too many.
pub open spec fn array_fault(expected: Seq<char>, fields: Seq<FieldView>, len: nat, i: nat) -> Option<
    Seq<char>,
>
    decreases fields.len() - i,
{
    if i >= fields.len() {
        if len > fields.len() {
            Some(length_fault(len, "fewer elements in array"@))
        } else {
            None
        }
    } else {
        match fields[i as int] {
            FieldView::Absent => Some(
                length_fault(i, expected + " with "@ + decimal(fields.len()) + " elements"@),
            ),
            FieldView::Bad(t) => Some(t),
            FieldView::Fine => array_fault(expected, fields, len, i + 1),
        }
    }
}

/// What is said of a list that stands for a record without names.
pub open spec fn row_fault(v: JsonView, expected: Seq<char>, fields: Seq<FieldView>) -> Option<
    Seq<char>,
> {
    match v {
        JsonView::Array(a) => array_fault(expected, fields, a.len(), 0),
        _ => Some(mistyped(v, expected)),
    }
}

/// What is said of a record, which is an object with its fields or a list of them.
pub open spec fn record_fault(
    v: JsonView,
    expected: Seq<char>,
    names: Seq<Seq<char>>,
    fields: Seq<FieldView>,
) -> Option<Seq<char>> {
    match v {
        JsonView::Object(_) => object_fault(names, fields),
        _ => row_fault(v, expected, fields),
    }
}

fn say_length(n: usize, expected: &str) -> (r: String)
    ensures
        r@ == length_fault(n as nat, expected@),
{
    let mut out = glue("invalid length ", write_decimal(n as u64).as_str());
    out.append(", expected ");
    out.append(expected);
    out
}

fn try_object(names: &Vec<&str>, fields: &Vec<Field>) -> (r: Option<String>)
    requires
        names@.len() == fields@.len(),
    ensures
        fault_view(r) == object_fault(name_views(names@), field_views(fields@)),
{
    let ghost all = field_views(fields@);
    let ghost keys = name_views(names@);
    let mut bad: Option<usize> = None;
    let mut i: usize = 0;
    while i < fields.len()
        invariant
            i <= fields@.len() == names@.len(),
            all == field_views(fields@),
            keys == name_views(names@),
            match bad {
                Some(b) => b < i && all[b as int] is Bad && first_bad(keys, all, i as nat) == Some(
                    b as int,
                ),
                None => first_bad(keys, all, i as nat) is None,
            },
        decreases fields@.len() - i,
    {
        assert(all[i as int] == fields@[i as int]@);
        assert(keys[i as int] == names@[i as int]@);
        match &fields[i] {
            Field::Bad(_) => {
                let sooner = match bad {
                    Some(b) => {
                        assert(keys[b as int] == names@[b as int]@);
                        comes_before(names[i], names[b])
                    },
                    None => true,
                };
                if sooner {
                    bad = Some(i);
                }
            },
            _ => {},
        }
        i += 1;
    }
    match bad {
        Some(b) => {
            assert(all[b as int] == fields@[b as int]@);
            match &fields[b] {
                Field::Bad(t) => {
                    return Some(t.clone());
                },
                _ => {},
            }
        },
        None => {},
    }
    let mut k: usize = 0;
    while k < fields.len()
        invariant
            k <= fields@.len() == names@.len(),
            all == field_views(fields@),
            keys == name_views(names@),
            first_bad(keys, all, all.len()) is None,
            first_absent(all, 0) == first_absent(all, k as nat),
        decreases fields@.len() - k,
    {
        assert(all[k as int] == fields@[k as int]@);
        assert(keys[k as int] == names@[k as int]@);
        match &fields[k] {
            Field::Absent => {
                let text = glue(glue("missing field `", names[k]).as_str(), "`");
                return Some(text);
            },
            _ => {},
        }
        k += 1;
    }
    None
}

fn try_array(expected: &str, fields: &Vec<Field>, len: usize) -> (r: Option<String>)
    ensures
        fault_view(r) == array_fault(expected@, field_views(fields@), len as nat, 0),
{
    let ghost all = field_views(fields@);
    let mut i: usize = 0;
    while i < fields.len()
        invariant
            i <= fields@.len(),
            all == field_views(fields@),
            array_fault(expected@, all, len as nat, 0) == array_fault(
                expected@,
                all,
                len as nat,
                i as nat,
            ),
        decreases fields@.len() - i,
    {
        assert(all[i as int] == fields@[i as int]@);
        match &fields[i] {
            Field::Absent => {
                let mut whole = glue(expected, " with ");
                whole.append(write_decimal(fields.len() as u64).as_str());
                whole.append(" elements");
                return Some(say_length(i, whole.as_str()));
            },
            Field::Bad(t) => {
                return Some(t.clone());
            },
            Field::Fine => {},
        }
        i += 1;
    }
    if len > fields.len() {
        Some(say_length(len, "fewer elements in array"))
    } else {
        None
    }
}

/// What is said of a list that stands for a record without names.
pub fn try_row(v: &Json, expected: &str, fields: &Vec<Field>) -> (r: Option<String>)
    ensures
        fault_view(r) == row_fault(v@, expected@, field_views(fields@)),
{
    match v.as_array() {
        Some(items) => try_array(expected, fields, items.len()),
        None => Some(type_mismatch(&to_value(v), expected)),
    }
}

/// What is said of a record, which is an object with its fields or a list of them.
pub fn try_record(v: &Json, expected: &str, names: &Vec<&str>, fields: &Vec<Field>) -> (r: Option<
    String,
>)
    requires
        names@.len() == fields@.len(),
    ensures
        fault_view(r) == record_fault(
            v@,
            expected@,
            name_views(names@),
            field_views(fields@),
        ),
{
    if v.is_object() {
        try_object(names, fields)
    } else {
        try_row(v, expected, fields)
    }
}

/// Whether every field can be read.
pub open spec fn all_fine(fields: Seq<FieldView>) -> bool {
    forall|i: int| 0 <= i < fields.len() ==> (#[trigger] fields[i]) is Fine
}

proof fn lemma_none_bad(names: Seq<Seq<char>>, fields: Seq<FieldView>, n: nat)
    requires
        n <= fields.len(),
    ensures
        match first_bad(names, fields, n) {
            Some(i) => 0 <= i < n && fields[i] is Bad,
            None => forall|i: int| 0 <= i < n ==> !((#[trigger] fields[i]) is Bad),
        },
    decreases n,
{
    if n > 0 {
        lemma_none_bad(names, fields, (n - 1) as nat);
    }
}

proof fn lemma_none_absent(fields: Seq<FieldView>, i: nat)
    ensures
        match first_absent(fields, i) {
            Some(k) => i <= k < fields.len() && fields[k as int] is Absent,
            None => forall|k: int| i <= k < fields.len() ==> !((#[trigger] fields[k]) is Absent),
        },
    decreases fields.len() - i,
{
    if i < fields.len() {
        lemma_none_absent(fields, i + 1);
    }
}

proof fn lemma_array_fine(expected: Seq<char>, fields: Seq<FieldView>, len: nat, i: nat)
    ensures
        array_fault(expected, fields, len, i) is None <==> len <= fields.len() && forall|k: int|
            i <= k < fields.len() ==> (#[trigger] fields[k]) is Fine,
    decreases fields.len() - i,
{
    if i < fields.len() {
        lemma_array_fine(expected, fields, len, i + 1);
    }
}

/// Nothing is said of a record just where every field can be read, and a list of
/// them holds no more than they.
pub proof fn law_nothing_said_of_good_records(
    v: JsonView,
    expected: Seq<char>,
    names: Seq<Seq<char>>,
    fields: Seq<FieldView>,
)
    ensures
        record_fault(v, expected, names, fields) is None <==> all_fine(fields) && match v {
            JsonView::Array(a) => a.len() <= fields.len(),
            JsonView::Object(_) => true,
            _ => false,
        },
        row_fault(v, expected, fields) is None <==> all_fine(fields) && match v {
            JsonView::Array(a) => a.len() <= fields.len(),
            _ => false,
        },
{
    lemma_none_bad(names, fields, fields.len());
    lemma_none_absent(fields, 0);
    match v {
        JsonView::Array(a) => lemma_array_fine(expected, fields, a.len(), 0),
        _ => {},
    }
    match first_bad(names, fields, fields.len()) {
        Some(i) => {
            assert(!(fields[i] is Fine));
        },
        None => match first_absent(fields, 0) {
            Some(i) => {
                assert(!(fields[i as int] is Fine));
            },
            None => {},
        },
    }
}

/// Nothing is said of a list just where nothing is said of its items.
pub proof fn law_nothing_said_of_good_lists(
    items: Seq<JsonView>,
    fault: spec_fn(JsonView) -> Option<Seq<char>>,
)
    ensures
        first_fault(items, fault) is None <==> forall|i: int|
            0 <= i < items.len() ==> fault(#[trigger] items[i]) is None,
    decreases items.len(),
{
    if items.len() > 0 {
        let head = items.drop_last();
        law_nothing_said_of_good_lists(head, fault);
        assert forall|i: int| 0 <= i < head.len() implies head[i] == #[trigger] items[i] by {}
        if first_fault(items, fault) is None {
            assert forall|i: int| 0 <= i < items.len() implies fault(#[trigger] items[i]) is None by {
                if i < head.len() {
                    assert(head[i] == items[i]);
                }
            }
        }
    }
}

/// Of some items the first one that cannot be read is told of.
pub proof fn law_first_fault_is_told(
    items: Seq<JsonView>,
    fault: spec_fn(JsonView) -> Option<Seq<char>>,
)
    ensures
        match first_fault(items, fault) {
            Some(t) => exists|i: int|
                0 <= i < items.len() && fault(#[trigger] items[i]) == Some(t) && forall|j: int|
                    0 <= j < i ==> fault(#[trigger] items[j]) is None,
            None => forall|i: int| 0 <= i < items.len() ==> fault(#[trigger] items[i]) is None,
        },
    decreases items.len(),
{
    if items.len() > 0 {
        let front = items.drop_last();
        let n = items.len() - 1;
        law_first_fault_is_told(front, fault);
        assert(items[n] == items.last());
        assert forall|i: int| 0 <= i < n implies #[trigger] front[i] == items[i] by {}
        match first_fault(front, fault) {
            Some(t) => {
                let i = choose|i: int|
                    0 <= i < front.len() && fault(#[trigger] front[i]) == Some(t) && forall|j: int|
                        0 <= j < i ==> fault(#[trigger] front[j]) is None;
                assert forall|j: int| 0 <= j < i implies fault(#[trigger] items[j]) is None by {
                    assert(fault(front[j]) is None);
                }
                assert(fault(items[i]) == Some(t));
            },
            None => {
                assert forall|j: int| 0 <= j < n implies fault(#[trigger] items[j]) is None by {
                    assert(fault(front[j]) is None);
                }
                assert(fault(items[n]) == fault(items.last()));
            },
        }
    }
}

/// Of the missing fields the first one is told of.
pub proof fn law_first_missing_field_is_told(fields: Seq<FieldView>, from: nat)
    ensures
        match first_absent(fields, from) {
            Some(i) => from <= i < fields.len() && fields[i as int] is Absent && forall|j: int|
                from <= j < i ==> !(#[trigger] fields[j] is Absent),
            None => forall|j: int| from <= j < fields.len() ==> !(#[trigger] fields[j] is Absent),
        },
    decreases fields.len() - from,
{
    if from < fields.len() && !(fields[from as int] is Absent) {
        law_first_missing_field_is_told(fields, from + 1);
    }
}

} // verus!
