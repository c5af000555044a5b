//! JSON values as plain data, with the calls into `serde_json` at the edge.

use vstd::prelude::*;
use vstd::utf8::encode_utf8;

use crate::outside::{
    distinct, join_value, json_read, json_text, node_members, number_from_i64, number_from_u64,
    number_int, numbers_equal, read_value, same_number, split_value, value_model, value_text, Node,
};
use crate::text::{ascii, decimal, escape_text, escaped, glue, no_control, write_decimal};

verus! {

/// What a JSON value is: the model that every contract speaks of.
///
/// A number is an integer or, where it is not one, the `serde_json` number
/// itself, which is carried through unread. An object is a map.
#[verifier::ext_equal]
pub enum JsonView {
    Null,
    Bool(bool),
    Int(int),
    Float(serde_json::Number),
    Str(Seq<char>),
    Array(Seq<JsonView>),
    Object(Map<Seq<char>, JsonView>),
}

/// What a number stands for: an integer wherever it is one.
pub open spec fn number_view(n: serde_json::Number) -> JsonView {
    match number_int(n) {
        Some(i) => JsonView::Int(i),
        None => JsonView::Float(n),
    }
}

/// The member of an object under a key, as `Value::get` gives it.
pub open spec fn at(v: JsonView, key: Seq<char>) -> Option<JsonView> {
    match v {
        JsonView::Object(m) => if m.dom().contains(key) {
            Some(m[key])
        } else {
            None
        },
        _ => None,
    }
}

/// The text of a value, if it is one.
pub open spec fn text_of(v: Option<JsonView>) -> Option<Seq<char>> {
    match v {
        Some(JsonView::Str(s)) => Some(s),
        _ => None,
    }
}

/// The unsigned integer of a value, if it is one that fits.
pub open spec fn u64_of(v: Option<JsonView>) -> Option<u64> {
    match v {
        Some(JsonView::Int(n)) => if 0 <= n <= u64::MAX {
            Some(n as u64)
        } else {
            None
        },
        _ => None,
    }
}

/// The signed integer of a value, if it is one that fits.
pub open spec fn i64_of(v: Option<JsonView>) -> Option<i64> {
    match v {
        Some(JsonView::Int(n)) => if i64::MIN <= n <= i64::MAX {
            Some(n as i64)
        } else {
            None
        },
        _ => None,
    }
}

/// The truth value of a value, if it is one.
pub open spec fn bool_of(v: Option<JsonView>) -> Option<bool> {
    match v {
        Some(JsonView::Bool(b)) => Some(b),
        _ => None,
    }
}

/// The items of a value, if it is an array.
pub open spec fn items_of(v: Option<JsonView>) -> Option<Seq<JsonView>> {
    match v {
        Some(JsonView::Array(s)) => Some(s),
        _ => None,
    }
}

/// An object with one member put in; any other value is left alone.
pub open spec fn put(v: JsonView, key: Seq<char>, value: JsonView) -> JsonView {
    match v {
        JsonView::Object(m) => JsonView::Object(m.insert(key, value)),
        _ => v,
    }
}

/// An object with one member taken out; any other value is left alone.
pub open spec fn without(v: JsonView, key: Seq<char>) -> JsonView {
    match v {
        JsonView::Object(m) => JsonView::Object(m.remove(key)),
        _ => v,
    }
}

/// A value without a number that is no integer, nested at most `levels` deep.
pub open spec fn nested(v: JsonView, levels: nat) -> bool
    decreases levels,
{
    match v {
        JsonView::Float(_) => false,
        JsonView::Array(s) => levels > 0 && forall|i: int|
            0 <= i < s.len() ==> nested(#[trigger] s[i], (levels - 1) as nat),
        JsonView::Object(m) => levels > 0 && forall|k: Seq<char>| #[trigger]
            m.dom().contains(k) ==> nested(m[k], (levels - 1) as nat),
        _ => true,
    }
}

/// A value that reads back as what was written.
pub open spec fn readable(v: JsonView) -> bool {
    nested(v, 127)
}

/// Whether two values are equal as `serde_json` compares them.
pub open spec fn same(a: JsonView, b: JsonView) -> bool
    decreases a,
{
    match (a, b) {
        (JsonView::Float(x), JsonView::Float(y)) => same_number(x, y),
        (JsonView::Array(x), JsonView::Array(y)) => x.len() == y.len() && forall|i: int|
            0 <= i < x.len() ==> same(#[trigger] x[i], y[i]),
        (JsonView::Object(x), JsonView::Object(y)) => x.dom() == y.dom() && forall|k: Seq<char>| #[trigger]
            x.dom().contains(k) ==> same(x[k], y[k]),
        _ => a == b,
    }
}

/// The object without members.
pub open spec fn empty_object() -> JsonView {
    JsonView::Object(Map::empty())
}

/// A JSON value.
#[derive(Debug)]
pub enum Json {
    Null,
    Bool(bool),
    Uint(u64),
    Int(i64),
    Float(serde_json::Number),
    Str(String),
    Array(Vec<Json>),
    /// Members in any order; where a key occurs twice, the first one counts.
    Object(Vec<(String, Json)>),
}

impl Json {
    pub open spec fn model(self) -> JsonView
        decreases self,
    {
        match self {
            Json::Null => JsonView::Null,
            Json::Bool(b) => JsonView::Bool(b),
            Json::Uint(n) => JsonView::Int(n as int),
            Json::Int(n) => JsonView::Int(n as int),
            Json::Float(n) => number_view(n),
            Json::Str(s) => JsonView::Str(s@),
            Json::Array(v) => JsonView::Array(
                Seq::new(
                    v@.len(),
                    |i: int|
                        if 0 <= i < v@.len() {
                            v@[i].model()
                        } else {
                            JsonView::Null
                        },
                ),
            ),
            Json::Object(v) => JsonView::Object(members(v@)),
        }
    }
}

/// The map that a list of members stands for.
pub open spec fn members(s: Seq<(String, Json)>) -> Map<Seq<char>, JsonView>
    decreases s,
{
    if s.len() == 0 {
        Map::empty()
    } else {
        members(s.drop_first()).insert(s[0].0@, s[0].1.model())
    }
}

impl View for Json {
    type V = JsonView;

    open spec fn view(&self) -> JsonView {
        self.model()
    }
}

/// The models of a list of values.
pub open spec fn models(s: Seq<Json>) -> Seq<JsonView> {
    Seq::new(s.len(), |i: int| s[i]@)
}

pub proof fn lemma_array_model(v: Vec<Json>)
    ensures
        Json::Array(v)@ == JsonView::Array(models(v@)),
{
    assert(Json::Array(v)@->Array_0 =~= models(v@));
}

/// Members before the first one with a key say nothing of that key.
proof fn lemma_members_skip(s: Seq<(String, Json)>, i: int, key: Seq<char>)
    requires
        0 <= i <= s.len(),
        forall|j: int| 0 <= j < i ==> (#[trigger] s[j]).0@ != key,
    ensures
        members(s).dom().contains(key) <==> members(s.skip(i)).dom().contains(key),
        members(s).dom().contains(key) ==> members(s)[key] == members(s.skip(i))[key],
    decreases i,
{
    if i == 0 {
        assert(s.skip(0) =~= s);
    } else {
        let rest = s.drop_first();
        assert forall|j: int| 0 <= j < i - 1 implies (#[trigger] rest[j]).0@ != key by {
            assert(rest[j] == s[j + 1]);
        }
        lemma_members_skip(rest, i - 1, key);
        assert(rest.skip(i - 1) =~= s.skip(i));
        assert(s[0].0@ != key);
    }
}

/// A key is in the map just where some member has it.
pub(crate) proof fn lemma_members_absent(s: Seq<(String, Json)>, key: Seq<char>)
    requires
        forall|j: int| 0 <= j < s.len() ==> (#[trigger] s[j]).0@ != key,
    ensures
        !members(s).dom().contains(key),
{
    lemma_members_skip(s, s.len() as int, key);
    assert(s.skip(s.len() as int).len() == 0);
}

pub(crate) proof fn lemma_members_found(s: Seq<(String, Json)>, i: int, key: Seq<char>)
    requires
        0 <= i < s.len(),
        s[i].0@ == key,
        forall|j: int| 0 <= j < i ==> (#[trigger] s[j]).0@ != key,
    ensures
        members(s).dom().contains(key),
        members(s)[key] == s[i].1@,
{
    lemma_members_skip(s, i, key);
    assert(s.skip(i)[0] == s[i]);
}

proof fn lemma_members_update(s: Seq<(String, Json)>, i: int, entry: (String, Json))
    requires
        0 <= i < s.len(),
        s[i].0@ == entry.0@,
        forall|j: int| 0 <= j < i ==> (#[trigger] s[j]).0@ != entry.0@,
    ensures
        members(s.update(i, entry)) == members(s).insert(entry.0@, entry.1@),
    decreases i,
{
    let t = s.update(i, entry);
    let rest = s.drop_first();
    if i == 0 {
        assert(t.drop_first() =~= rest);
        assert(members(t) =~= members(s).insert(entry.0@, entry.1@));
    } else {
        assert(t.drop_first() =~= rest.update(i - 1, entry));
        assert(rest[i - 1] == s[i]);
        assert forall|j: int| 0 <= j < i - 1 implies (#[trigger] rest[j]).0@ != entry.0@ by {
            assert(rest[j] == s[j + 1]);
        }
        lemma_members_update(rest, i - 1, entry);
        assert(t[0] == s[0]);
        assert(s[0].0@ != entry.0@);
        assert(members(t) =~= members(s).insert(entry.0@, entry.1@));
    }
}

proof fn lemma_members_push(s: Seq<(String, Json)>, entry: (String, Json))
    requires
        !members(s).dom().contains(entry.0@),
    ensures
        members(s.push(entry)) == members(s).insert(entry.0@, entry.1@),
    decreases s.len(),
{
    let t = s.push(entry);
    if s.len() == 0 {
        assert(t.drop_first() =~= s);
        assert(members(t) =~= members(s).insert(entry.0@, entry.1@));
    } else {
        assert(t.drop_first() =~= s.drop_first().push(entry));
        lemma_members_push(s.drop_first(), entry);
        assert(t[0] == s[0]);
        assert(members(t) =~= members(s).insert(entry.0@, entry.1@));
    }
}

/// Whether two strings hold the same characters.
pub fn same_text(a: &str, b: &str) -> (r: bool)
    ensures
        r == (a@ == b@),
{
    let n = a.unicode_len();
    if n != b.unicode_len() {
        return false;
    }
    let x = a.to_owned();
    let y = b.to_owned();
    x == y
}

impl Json {
    pub(crate) fn position(entries: &Vec<(String, Json)>, key: &str) -> (r: Option<usize>)
        ensures
            match r {
                Some(i) => {
                    &&& i < entries@.len()
                    &&& entries@[i as int].0@ == key@
                    &&& forall|j: int| 0 <= j < i ==> (#[trigger] entries@[j]).0@ != key@
                },
                None => forall|j: int|
                    0 <= j < entries@.len() ==> (#[trigger] entries@[j]).0@ != key@,
            },
    {
        let mut i: usize = 0;
        while i < entries.len()
            invariant
                i <= entries@.len(),
                forall|j: int| 0 <= j < i ==> (#[trigger] entries@[j]).0@ != key@,
            decreases entries@.len() - i,
        {
            if same_text(entries[i].0.as_str(), key) {
                return Some(i);
            }
            i += 1;
        }
        None
    }

    /// The member of an object under `key`.
    pub fn get(&self, key: &str) -> (r: Option<&Json>)
        ensures
            match r {
                Some(v) => at(self@, key@) == Some(v@),
                None => at(self@, key@) is None,
            },
    {
        match self {
            Json::Object(entries) => match Json::position(entries, key) {
                Some(i) => {
                    proof {
                        lemma_members_found(entries@, i as int, key@);
                    }
                    Some(&entries[i].1)
                },
                None => {
                    proof {
                        lemma_members_absent(entries@, key@);
                    }
                    None
                },
            },
            _ => None,
        }
    }

    /// The text of a string value.
    pub fn as_str(&self) -> (r: Option<&str>)
        ensures
            match r {
                Some(s) => text_of(Some(self@)) == Some(s@),
                None => text_of(Some(self@)) is None,
            },
    {
        match self {
            Json::Str(s) => Some(s.as_str()),
            _ => None,
        }
    }

    /// The value as an unsigned integer.
    pub fn as_u64(&self) -> (r: Option<u64>)
        ensures
            r == u64_of(Some(self@)),
    {
        match self {
            Json::Uint(n) => Some(*n),
            Json::Int(n) => if *n >= 0 {
                Some(*n as u64)
            } else {
                None
            },
            Json::Float(n) => n.as_u64(),
            _ => None,
        }
    }

    /// The value as a signed integer.
    pub fn as_i64(&self) -> (r: Option<i64>)
        ensures
            r == i64_of(Some(self@)),
    {
        match self {
            Json::Uint(n) => if *n <= i64::MAX as u64 {
                Some(*n as i64)
            } else {
                None
            },
            Json::Int(n) => Some(*n),
            Json::Float(n) => n.as_i64(),
            _ => None,
        }
    }

    /// The value as a truth value.
    pub fn as_bool(&self) -> (r: Option<bool>)
        ensures
            r == bool_of(Some(self@)),
    {
        match self {
            Json::Bool(b) => Some(*b),
            _ => None,
        }
    }

    /// Whether the value is null.
    pub fn is_null(&self) -> (r: bool)
        ensures
            r == (self@ is Null),
    {
        match self {
            Json::Null => true,
            _ => false,
        }
    }

    /// Whether the value is an object.
    pub fn is_object(&self) -> (r: bool)
        ensures
            r == (self@ is Object),
    {
        match self {
            Json::Object(_) => true,
            _ => false,
        }
    }

    /// The items of an array.
    pub fn as_array(&self) -> (r: Option<&Vec<Json>>)
        ensures
            match r {
                Some(v) => items_of(Some(self@)) == Some(models(v@)),
                None => items_of(Some(self@)) is None,
            },
    {
        match self {
            Json::Array(v) => {
                proof {
                    lemma_array_model(*v);
                }
                Some(v)
            },
            _ => None,
        }
    }

    /// The text under `key`.
    pub fn get_str(&self, key: &str) -> (r: Option<&str>)
        ensures
            match r {
                Some(s) => text_of(at(self@, key@)) == Some(s@),
                None => text_of(at(self@, key@)) is None,
            },
    {
        match self.get(key) {
            Some(v) => v.as_str(),
            None => None,
        }
    }

    /// The unsigned integer under `key`.
    pub fn get_u64(&self, key: &str) -> (r: Option<u64>)
        ensures
            r == u64_of(at(self@, key@)),
    {
        match self.get(key) {
            Some(v) => v.as_u64(),
            None => None,
        }
    }

    /// The signed integer under `key`.
    pub fn get_i64(&self, key: &str) -> (r: Option<i64>)
        ensures
            r == i64_of(at(self@, key@)),
    {
        match self.get(key) {
            Some(v) => v.as_i64(),
            None => None,
        }
    }

    /// The truth value under `key`.
    pub fn get_bool(&self, key: &str) -> (r: Option<bool>)
        ensures
            r == bool_of(at(self@, key@)),
    {
        match self.get(key) {
            Some(v) => v.as_bool(),
            None => None,
        }
    }

    /// The items under `key`.
    pub fn get_array(&self, key: &str) -> (r: Option<&Vec<Json>>)
        ensures
            match r {
                Some(v) => items_of(at(self@, key@)) == Some(models(v@)),
                None => items_of(at(self@, key@)) is None,
            },
    {
        match self.get(key) {
            Some(v) => v.as_array(),
            None => None,
        }
    }

    /// Whether the text under `key` is `text`.
    pub fn is_str(&self, key: &str, text: &str) -> (r: bool)
        ensures
            r == (text_of(at(self@, key@)) == Some(text@)),
    {
        match self.get_str(key) {
            Some(s) => same_text(s, text),
            None => false,
        }
    }

    /// Puts `value` under `key` of an object, over what was there.
    pub fn insert(&mut self, key: &str, value: Json)
        ensures
            final(self)@ == put(old(self)@, key@, value@),
    {
        match self {
            Json::Object(entries) => {
                match Json::position(entries, key) {
                    Some(i) => {
                        let entry = (key.to_owned(), value);
                        proof {
                            lemma_members_update(entries@, i as int, entry);
                        }
                        entries.set(i, entry);
                    },
                    None => {
                        let entry = (key.to_owned(), value);
                        proof {
                            lemma_members_absent(entries@, key@);
                            lemma_members_push(entries@, entry);
                        }
                        entries.push(entry);
                    },
                }
            },
            _ => {},
        }
    }

    /// The same object with `value` under `key`.
    pub fn with(self, key: &str, value: Json) -> (r: Json)
        ensures
            r@ == put(self@, key@, value@),
    {
        let mut out = self;
        out.insert(key, value);
        out
    }

    /// The object without members.
    pub fn object() -> (r: Json)
        ensures
            r@ == empty_object(),
    {
        let r = Json::Object(Vec::new());
        assert(members(r->Object_0@) =~= Map::empty());
        r
    }

    /// A string value.
    pub fn text(s: &str) -> (r: Json)
        ensures
            r@ == JsonView::Str(s@),
    {
        Json::Str(s.to_owned())
    }
}

/// Moving a child out of a list of members into its model changes nothing.
proof fn lemma_members_agree(
    entries: Seq<(String, Json)>,
    nodes: Seq<(String, serde_json::Value)>,
)
    requires
        entries.len() == nodes.len(),
        forall|i: int|
            #![trigger entries[i]]
            0 <= i < entries.len() ==> entries[i].0@ == nodes[i].0@ && entries[i].1@
                == value_model(nodes[i].1),
    ensures
        members(entries) == node_members(nodes),
    decreases entries.len(),
{
    if entries.len() > 0 {
        let e = entries.drop_first();
        let n = nodes.drop_first();
        assert forall|i: int| #![trigger e[i]] 0 <= i < e.len() implies e[i].0@ == n[i].0@
            && e[i].1@ == value_model(n[i].1) by {
            assert(e[i] == entries[i + 1]);
            assert(n[i] == nodes[i + 1]);
        }
        lemma_members_agree(e, n);
        assert(entries[0].0@ == nodes[0].0@);
    }
}

proof fn lemma_node_members(s: Seq<(String, serde_json::Value)>, i: int)
    requires
        0 <= i < s.len(),
        distinct(s),
    ensures
        node_members(s).dom().contains(s[i].0@),
        node_members(s)[s[i].0@] == value_model(s[i].1),
        node_members(s).dom().finite(),
    decreases s.len(),
{
    let rest = s.drop_first();
    if s.len() > 1 {
        assert forall|a: int, b: int| 0 <= a < b < rest.len() implies (#[trigger] rest[a]).0@ != (
        #[trigger] rest[b]).0@ by {
            assert(rest[a] == s[a + 1]);
            assert(rest[b] == s[b + 1]);
        }
        lemma_node_members(rest, if i == 0 { 0 } else { i - 1 });
        if i > 0 {
            assert(rest[i - 1] == s[i]);
            assert(s[0].0@ != s[i].0@);
        }
    } else {
        assert(node_members(rest) =~= Map::empty());
    }
}

proof fn lemma_item_smaller(s: Seq<JsonView>, i: int)
    requires
        0 <= i < s.len(),
    ensures
        decreases_to!(JsonView::Array(s) => s[i]),
{
    let v = JsonView::Array(s);
    assert(decreases_to!(v => v->Array_0));
}

proof fn lemma_member_smaller(m: Map<Seq<char>, JsonView>, key: Seq<char>)
    requires
        m.dom().contains(key),
        m.dom().finite(),
    ensures
        decreases_to!(JsonView::Object(m) => m[key]),
{
    let v = JsonView::Object(m);
    assert(decreases_to!(v => v->Object_0));
    assert(decreases_to!(m => m[key]));
}

/// A value as `serde_json` holds it, turned into plain data.
pub fn from_value(v: serde_json::Value) -> (r: Json)
    ensures
        r@ == value_model(v),
    decreases value_model(v),
{
    match split_value(v) {
        Node::Null => Json::Null,
        Node::Bool(b) => Json::Bool(b),
        Node::Number(n) => match n.as_u64() {
            Some(u) => Json::Uint(u),
            None => match n.as_i64() {
                Some(i) => Json::Int(i),
                None => Json::Float(n),
            },
        },
        Node::Str(s) => Json::Str(s),
        Node::Array(children) => {
            let ghost all = children@;
            let ghost model = value_model(v)->Array_0;
            assert(model =~= Seq::new(all.len(), |i: int| value_model(all[i])));
            let mut out: Vec<Json> = Vec::new();
            for child in it: children
                invariant
                    it.seq() == all,
                    value_model(v) == JsonView::Array(model),
                    model == Seq::new(all.len(), |i: int| value_model(all[i])),
                    out@.len() == it.index(),
                    forall|i: int| 0 <= i < out@.len() ==> (#[trigger] out@[i])@ == model[i],
            {
                proof {
                    assert(value_model(child) == model[it.index()]);
                    lemma_item_smaller(model, it.index());
                }
                out.push(from_value(child));
            }
            proof {
                lemma_array_model(out);
                assert(models(out@) =~= model);
            }
            Json::Array(out)
        },
        Node::Object(children) => {
            let ghost all = children@;
            let ghost model = value_model(v)->Object_0;
            let mut out: Vec<(String, Json)> = Vec::new();
            for child in it: children
                invariant
                    it.seq() == all,
                    value_model(v) == JsonView::Object(model),
                    model == node_members(all),
                    distinct(all),
                    out@.len() == it.index(),
                    forall|i: int|
                        #![trigger out@[i]]
                        0 <= i < out@.len() ==> out@[i].0@ == all[i].0@ && out@[i].1@
                            == value_model(all[i].1),
            {
                proof {
                    lemma_node_members(all, it.index());
                    lemma_member_smaller(model, child.0@);
                }
                out.push((child.0, from_value(child.1)));
            }
            proof {
                lemma_members_agree(out@, all);
            }
            Json::Object(out)
        },
    }
}

pub(crate) proof fn lemma_array_smaller(v: Vec<Json>, i: int)
    requires
        0 <= i < v@.len(),
    ensures
        decreases_to!(Json::Array(v) => v@[i]),
{
    let j = Json::Array(v);
    assert(decreases_to!(j => j->Array_0));
    assert(decreases_to!(v => v@));
    assert(decreases_to!(v@ => v@[i]));
}

pub(crate) proof fn lemma_object_smaller(v: Vec<(String, Json)>, i: int)
    requires
        0 <= i < v@.len(),
    ensures
        decreases_to!(Json::Object(v) => v@[i].1),
{
    let j = Json::Object(v);
    assert(decreases_to!(j => j->Object_0));
    assert(decreases_to!(v => v@));
    assert(decreases_to!(v@ => v@[i]));
    assert(decreases_to!(v@[i] => v@[i].1));
}

/// Plain data as `serde_json` holds it.
pub fn to_value(j: &Json) -> (v: serde_json::Value)
    ensures
        value_model(v) == j@,
    decreases j,
{
    match j {
        Json::Null => join_value(Node::Null),
        Json::Bool(b) => join_value(Node::Bool(*b)),
        Json::Uint(n) => join_value(Node::Number(number_from_u64(*n))),
        Json::Int(n) => join_value(Node::Number(number_from_i64(*n))),
        Json::Float(n) => join_value(Node::Number(n.clone())),
        Json::Str(s) => join_value(Node::Str(s.clone())),
        Json::Array(items) => {
            let mut out: Vec<serde_json::Value> = Vec::new();
            let mut i: usize = 0;
            while i < items.len()
                invariant
                    i <= items@.len(),
                    *j == Json::Array(*items),
                    out@.len() == i,
                    forall|k: int| 0 <= k < i ==> value_model(#[trigger] out@[k]) == items@[k]@,
                decreases items@.len() - i,
            {
                proof {
                    lemma_array_smaller(*items, i as int);
                }
                out.push(to_value(&items[i]));
                i += 1;
            }
            let node = Node::Array(out);
            proof {
                lemma_array_model(*items);
                assert(node.model()->Array_0 =~= models(items@));
            }
            join_value(node)
        },
        Json::Object(entries) => {
            let mut out: Vec<(String, serde_json::Value)> = Vec::new();
            let mut i: usize = entries.len();
            proof {
                assert(entries@.skip(i as int) =~= Seq::empty());
                assert(node_members(out@) =~= members(entries@.skip(i as int)));
            }
            while i > 0
                invariant
                    i <= entries@.len(),
                    *j == Json::Object(*entries),
                    node_members(out@) == members(entries@.skip(i as int)),
                    distinct(out@),
                decreases i,
            {
                i -= 1;
                proof {
                    lemma_object_smaller(*entries, i as int);
                }
                let value = to_value(&entries[i].1);
                let ghost before = out@;
                let ghost key = entries@[i as int].0@;
                without_key(&mut out, entries[i].0.as_str());
                let ghost middle = out@;
                out.insert(0, (entries[i].0.clone(), value));
                proof {
                    assert(entries@.skip(i as int).drop_first() =~= entries@.skip(i as int + 1));
                    assert(entries@.skip(i as int)[0] == entries@[i as int]);
                    assert(out@.drop_first() =~= middle);
                    assert(node_members(out@) =~= members(entries@.skip(i as int)));
                    assert(distinct(out@)) by {
                        assert forall|a: int, b: int| 0 <= a < b < out@.len() implies (
                        #[trigger] out@[a]).0@ != (#[trigger] out@[b]).0@ by {
                            assert(out@[b] == middle[b - 1]);
                            if a > 0 {
                                assert(out@[a] == middle[a - 1]);
                            }
                        }
                    }
                }
            }
            assert(entries@.skip(0) =~= entries@);
            join_value(Node::Object(out))
        },
    }
}

proof fn lemma_node_members_absent(s: Seq<(String, serde_json::Value)>, key: Seq<char>)
    requires
        forall|j: int| 0 <= j < s.len() ==> (#[trigger] s[j]).0@ != key,
    ensures
        !node_members(s).dom().contains(key),
    decreases s.len(),
{
    if s.len() > 0 {
        let rest = s.drop_first();
        assert forall|j: int| 0 <= j < rest.len() implies (#[trigger] rest[j]).0@ != key by {
            assert(rest[j] == s[j + 1]);
        }
        lemma_node_members_absent(rest, key);
        assert(s[0].0@ != key);
    }
}

proof fn lemma_node_members_remove(s: Seq<(String, serde_json::Value)>, i: int)
    requires
        0 <= i < s.len(),
    ensures
        node_members(s.remove(i)).remove(s[i].0@) == node_members(s).remove(s[i].0@),
    decreases s.len(),
{
    let rest = s.drop_first();
    if i == 0 {
        assert(s.remove(0) =~= rest);
        assert(node_members(s.remove(i)).remove(s[i].0@) =~= node_members(s).remove(s[i].0@));
    } else {
        assert(s.remove(i).drop_first() =~= rest.remove(i - 1));
        assert(rest[i - 1] == s[i]);
        lemma_node_members_remove(rest, i - 1);
        let m = node_members(rest.remove(i - 1));
        let w = node_members(rest);
        let k = s[i].0@;
        let first = value_model(s[0].1);
        assert(s.remove(i)[0] == s[0]);
        assert(node_members(s.remove(i)) == m.insert(s[0].0@, first));
        assert(node_members(s) == w.insert(s[0].0@, first));
        assert(m.insert(s[0].0@, first).remove(k) =~= m.remove(k).insert(s[0].0@, first).remove(k));
        assert(w.insert(s[0].0@, first).remove(k) =~= w.remove(k).insert(s[0].0@, first).remove(k));
    }
}

/// Takes the members under one key out of a list.
fn without_key(list: &mut Vec<(String, serde_json::Value)>, key: &str)
    requires
        distinct(old(list)@),
    ensures
        node_members(final(list)@) == node_members(old(list)@).remove(key@),
        distinct(final(list)@),
        forall|j: int| 0 <= j < final(list)@.len() ==> (#[trigger] final(list)@[j]).0@ != key@,
{
    let mut i: usize = 0;
    while i < list.len()
        invariant
            i <= list@.len(),
            *list == *old(list),
            distinct(list@),
            forall|j: int| 0 <= j < i ==> (#[trigger] list@[j]).0@ != key@,
        decreases list@.len() - i,
    {
        if same_text(list[i].0.as_str(), key) {
            let ghost before = list@;
            list.remove(i);
            proof {
                lemma_node_members_remove(before, i as int);
                assert(before[i as int].0@ == key@);
                assert forall|j: int| 0 <= j < list@.len() implies (#[trigger] list@[j]).0@
                    != key@ by {
                    if j < i {
                        assert(list@[j] == before[j]);
                    } else {
                        assert(list@[j] == before[j + 1]);
                    }
                }
                assert forall|a: int, b: int| 0 <= a < b < list@.len() implies (
                #[trigger] list@[a]).0@ != (#[trigger] list@[b]).0@ by {
                    let x = if a < i {
                        a
                    } else {
                        a + 1
                    };
                    let y = if b < i {
                        b
                    } else {
                        b + 1
                    };
                    assert(list@[a] == before[x]);
                    assert(list@[b] == before[y]);
                }
                lemma_node_members_absent(list@, key@);
                assert(node_members(list@) =~= node_members(list@).remove(key@));
            }
            return;
        }
        i += 1;
    }
    proof {
        lemma_node_members_absent(list@, key@);
        assert(node_members(list@) =~= node_members(list@).remove(key@));
    }
}

/// Reads a JSON text out of bytes; the error says what is wrong with them.
pub fn read(bytes: &[u8]) -> (r: Result<Json, String>)
    ensures
        match r {
            Ok(v) => json_read(bytes@) == Ok::<JsonView, Seq<char>>(v@),
            Err(e) => json_read(bytes@) == Err::<JsonView, Seq<char>>(e@),
        },
{
    match read_value(bytes) {
        Ok(v) => Ok(from_value(v)),
        Err(e) => Err(e),
    }
}

/// The value that some bytes are the JSON text of.
pub open spec fn json_of_bytes(data: Seq<u8>) -> Option<JsonView> {
    match json_read(data) {
        Ok(v) => Some(v),
        Err(_) => None,
    }
}

/// Reads a JSON text out of bytes; `None` where they hold none.
pub fn parse_bytes(data: &[u8]) -> (r: Option<Json>)
    ensures
        match r {
            Some(v) => json_of_bytes(data@) == Some(v@),
            None => json_of_bytes(data@) is None,
        },
{
    match read(data) {
        Ok(v) => Some(v),
        Err(_) => None,
    }
}

/// The compact JSON text of a value, in one line and without control characters.
pub fn dump(j: &Json) -> (t: String)
    ensures
        t@ == json_text(j@),
        t@.len() > 0,
        forall|i: int| 0 <= i < t@.len() ==> (#[trigger] t@[i]) as u32 >= 0x20,
        readable(j@) ==> json_of_bytes(encode_utf8(t@)) == Some(j@),
{
    value_text(&to_value(j))
}

/// A whole number as it is written with a fraction of zero.
pub open spec fn fraction_text(n: int) -> Seq<char> {
    if n < 0 {
        "-"@ + decimal((-n) as nat) + ".0"@
    } else {
        decimal(n as nat) + ".0"@
    }
}

/// A whole number as one with a fraction, the way `serde_json` reads it.
pub open spec fn with_fraction(n: int) -> JsonView {
    match json_read(encode_utf8(fraction_text(n))) {
        Ok(v) => v,
        Err(_) => JsonView::Null,
    }
}

/// A whole number as one with a fraction, which is no integer any more.
pub fn fraction(n: i128) -> (r: Json)
    requires
        i64::MIN <= n <= u64::MAX,
    ensures
        r@ == with_fraction(n as int),
        r@ is Float,
{
    let digits = if n < 0 {
        glue("-", write_decimal((-n) as u64).as_str())
    } else {
        write_decimal(n as u64)
    };
    let text = glue(digits.as_str(), ".0");
    assert(text@ =~= fraction_text(n as int));
    match read_value(text.as_str().as_bytes()) {
        Ok(v) => from_value(v),
        Err(_) => Json::Null,
    }
}

/// The compact JSON text of a value in ASCII: what is outside it is escaped.
pub fn dump_ascii(j: &Json) -> (t: String)
    ensures
        t@ == escaped(json_text(j@)),
        t@.len() > 0,
        ascii(t@),
        no_control(t@),
        readable(j@) ==> json_of_bytes(encode_utf8(t@)) == Some(j@),
{
    escape_text(value_text(&to_value(j)).as_str())
}

impl Clone for Json {
    fn clone(&self) -> (r: Self)
        ensures
            r@ == self@,
        decreases self,
    {
        match self {
            Json::Null => Json::Null,
            Json::Bool(b) => Json::Bool(*b),
            Json::Uint(n) => Json::Uint(*n),
            Json::Int(n) => Json::Int(*n),
            Json::Float(n) => Json::Float(n.clone()),
            Json::Str(s) => Json::Str(s.clone()),
            Json::Array(items) => {
                let mut out: Vec<Json> = Vec::new();
                let mut i: usize = 0;
                while i < items.len()
                    invariant
                        i <= items@.len(),
                        *self == Json::Array(*items),
                        out@.len() == i,
                        forall|k: int| 0 <= k < i ==> (#[trigger] out@[k])@ == items@[k]@,
                    decreases items@.len() - i,
                {
                    proof {
                        lemma_array_smaller(*items, i as int);
                    }
                    out.push(items[i].clone());
                    i += 1;
                }
                proof {
                    lemma_array_model(*items);
                    lemma_array_model(out);
                    assert(models(out@) =~= models(items@));
                }
                Json::Array(out)
            },
            Json::Object(entries) => {
                let mut out: Vec<(String, Json)> = Vec::new();
                let mut i: usize = 0;
                while i < entries.len()
                    invariant
                        i <= entries@.len(),
                        *self == Json::Object(*entries),
                        out@.len() == i,
                        forall|k: int|
                            #![trigger out@[k]]
                            0 <= k < i ==> out@[k].0@ == entries@[k].0@ && out@[k].1@
                                == entries@[k].1@,
                    decreases entries@.len() - i,
                {
                    proof {
                        lemma_object_smaller(*entries, i as int);
                    }
                    out.push((entries[i].0.clone(), entries[i].1.clone()));
                    i += 1;
                }
                proof {
                    lemma_members_same(out@, entries@);
                }
                Json::Object(out)
            },
        }
    }
}

/// Lists of members that agree one by one stand for the same map.
proof fn lemma_members_same(a: Seq<(String, Json)>, b: Seq<(String, Json)>)
    requires
        a.len() == b.len(),
        forall|i: int|
            #![trigger a[i]]
            0 <= i < a.len() ==> a[i].0@ == b[i].0@ && a[i].1@ == b[i].1@,
    ensures
        members(a) == members(b),
    decreases a.len(),
{
    if a.len() > 0 {
        let x = a.drop_first();
        let y = b.drop_first();
        assert forall|i: int| #![trigger x[i]] 0 <= i < x.len() implies x[i].0@ == y[i].0@
            && x[i].1@ == y[i].1@ by {
            assert(x[i] == a[i + 1]);
            assert(y[i] == b[i + 1]);
        }
        lemma_members_same(x, y);
        assert(a[0].0@ == b[0].0@);
    }
}

proof fn lemma_members_some(s: Seq<(String, Json)>, key: Seq<char>) -> (i: int)
    requires
        members(s).dom().contains(key),
    ensures
        0 <= i < s.len(),
        s[i].0@ == key,
        forall|j: int| 0 <= j < i ==> (#[trigger] s[j]).0@ != key,
    decreases s.len(),
{
    if s[0].0@ == key {
        0
    } else {
        let rest = s.drop_first();
        let i = lemma_members_some(rest, key) + 1;
        assert(s[i] == rest[i - 1]);
        assert forall|j: int| 0 <= j < i implies (#[trigger] s[j]).0@ != key by {
            if j > 0 {
                assert(rest[j - 1] == s[j]);
            }
        }
        i
    }
}

impl Json {
    /// Whether two values are equal, objects whatever the order of their members.
    pub fn same(&self, other: &Json) -> (r: bool)
        ensures
            r == same(self@, other@),
        decreases self,
    {
        match (self, other) {
            (Json::Array(a), Json::Array(b)) => {
                proof {
                    lemma_array_model(*a);
                    lemma_array_model(*b);
                }
                if a.len() != b.len() {
                    return false;
                }
                let mut i: usize = 0;
                while i < a.len()
                    invariant
                        i <= a@.len(),
                        a@.len() == b@.len(),
                        *self == Json::Array(*a),
                        self@ == JsonView::Array(models(a@)),
                        other@ == JsonView::Array(models(b@)),
                        forall|k: int| 0 <= k < i ==> same(#[trigger] models(a@)[k], models(b@)[k]),
                    decreases a@.len() - i,
                {
                    proof {
                        lemma_array_smaller(*a, i as int);
                        assert(models(a@)[i as int] == a@[i as int]@);
                        assert(models(b@)[i as int] == b@[i as int]@);
                    }
                    if !a[i].same(&b[i]) {
                        assert(!same(models(a@)[i as int], models(b@)[i as int]));
                        return false;
                    }
                    i += 1;
                }
                true
            },
            (Json::Object(a), Json::Object(b)) => {
                let ghost x = members(a@);
                let ghost y = members(b@);
                let mut i: usize = 0;
                while i < a.len()
                    invariant
                        i <= a@.len(),
                        *self == Json::Object(*a),
                        *other == Json::Object(*b),
                        x == members(a@),
                        y == members(b@),
                        forall|k: int|
                            #![trigger a@[k]]
                            0 <= k < i ==> y.dom().contains(a@[k].0@) && same(
                                x[a@[k].0@],
                                y[a@[k].0@],
                            ),
                    decreases a@.len() - i,
                {
                    let key = a[i].0.as_str();
                    let first = match Json::position(a, key) {
                        Some(n) => n,
                        None => i,
                    };
                    if first == i {
                        proof {
                            lemma_object_smaller(*a, i as int);
                            lemma_members_found(a@, i as int, key@);
                        }
                        match other.get(key) {
                            Some(v) => {
                                if !a[i].1.same(v) {
                                    assert(!same(x[key@], y[key@]));
                                    return false;
                                }
                            },
                            None => {
                                return false;
                            },
                        }
                    }
                    i += 1;
                }
                i = 0;
                while i < b.len()
                    invariant
                        i <= b@.len(),
                        *self == Json::Object(*a),
                        *other == Json::Object(*b),
                        x == members(a@),
                        y == members(b@),
                        forall|k: int| 0 <= k < i ==> x.dom().contains((#[trigger] b@[k]).0@),
                    decreases b@.len() - i,
                {
                    let key = b[i].0.as_str();
                    if self.get(key).is_none() {
                        proof {
                            if !y.dom().contains(key@) {
                                lemma_members_has(b@, i as int);
                            }
                        }
                        return false;
                    }
                    i += 1;
                }
                proof {
                    assert forall|k: Seq<char>| #[trigger] x.dom().contains(k) implies y.dom().contains(
                        k,
                    ) && same(x[k], y[k]) by {
                        let n = lemma_members_some(a@, k);
                        assert(a@[n].0@ == k);
                    }
                    assert forall|k: Seq<char>| y.dom().contains(k) implies x.dom().contains(k) by {
                        let n = lemma_members_some(b@, k);
                        assert(b@[n].0@ == k);
                    }
                    assert(x.dom() =~= y.dom());
                }
                true
            },
            (Json::Null, Json::Null) => true,
            (Json::Bool(a), Json::Bool(b)) => *a == *b,
            (Json::Str(a), Json::Str(b)) => same_text(a.as_str(), b.as_str()),
            (Json::Uint(a), Json::Uint(b)) => *a == *b,
            (Json::Int(a), Json::Int(b)) => *a == *b,
            (Json::Uint(a), Json::Int(b)) => *b >= 0 && *a == *b as u64,
            (Json::Int(a), Json::Uint(b)) => *a >= 0 && *b == *a as u64,
            (Json::Float(a), Json::Float(b)) => numbers_equal(a, b),
            (Json::Float(a), Json::Uint(b)) => numbers_equal(a, &number_from_u64(*b)),
            (Json::Float(a), Json::Int(b)) => numbers_equal(a, &number_from_i64(*b)),
            (Json::Uint(a), Json::Float(b)) => numbers_equal(&number_from_u64(*a), b),
            (Json::Int(a), Json::Float(b)) => numbers_equal(&number_from_i64(*a), b),
            _ => false,
        }
    }

    /// Takes the member under `key` out of an object.
    pub fn remove(&mut self, key: &str)
        ensures
            final(self)@ == without(old(self)@, key@),
    {
        match self {
            Json::Object(entries) => {
                let ghost start = entries@;
                let mut kept: Vec<(String, Json)> = Vec::new();
                let mut i: usize = entries.len();
                proof {
                    assert(start.skip(i as int) =~= Seq::empty());
                    assert(members(kept@) =~= members(start.skip(i as int)).remove(key@));
                }
                while i > 0
                    invariant
                        i == entries@.len(),
                        i <= start.len(),
                        entries@ == start.take(i as int),
                        members(kept@) == members(start.skip(i as int)).remove(key@),
                    decreases i,
                {
                    i -= 1;
                    let entry = entries.remove(i);
                    proof {
                        assert(entries@ =~= start.take(i as int));
                        assert(entry == start[i as int]);
                        assert(start.skip(i as int).drop_first() =~= start.skip(i as int + 1));
                        assert(start.skip(i as int)[0] == entry);
                    }
                    let ghost before = kept@;
                    if !same_text(entry.0.as_str(), key) {
                        kept.insert(0, entry);
                        proof {
                            assert(kept@.drop_first() =~= before);
                            assert(members(kept@) =~= members(start.skip(i as int)).remove(key@));
                        }
                    } else {
                        proof {
                            assert(members(kept@) =~= members(start.skip(i as int)).remove(key@));
                        }
                    }
                }
                assert(start.skip(0) =~= start);
                *entries = kept;
            },
            _ => {},
        }
    }
}

proof fn lemma_members_has(s: Seq<(String, Json)>, i: int)
    requires
        0 <= i < s.len(),
    ensures
        members(s).dom().contains(s[i].0@),
    decreases s.len(),
{
    if i > 0 {
        assert(s[i] == s.drop_first()[i - 1]);
        lemma_members_has(s.drop_first(), i - 1);
    }
}

impl Json {
    /// An array value.
    pub fn list(items: Vec<Json>) -> (r: Json)
        ensures
            r@ == JsonView::Array(models(items@)),
    {
        proof {
            lemma_array_model(items);
        }
        Json::Array(items)
    }
}

/// A list of values once more.
pub fn copy_values(items: &Vec<Json>) -> (r: Vec<Json>)
    ensures
        models(r@) == models(items@),
{
    let mut out: Vec<Json> = Vec::new();
    let mut i: usize = 0;
    while i < items.len()
        invariant
            i <= items@.len(),
            out@.len() == i,
            forall|k: int| 0 <= k < i ==> (#[trigger] out@[k])@ == items@[k]@,
        decreases items@.len() - i,
    {
        out.push(items[i].clone());
        i += 1;
    }
    assert(models(out@) =~= models(items@));
    out
}

/// An object with a member put into one of its members.
pub open spec fn put_in(v: JsonView, outer: Seq<char>, key: Seq<char>, value: JsonView) -> JsonView {
    match at(v, outer) {
        Some(inner) => put(v, outer, put(inner, key, value)),
        None => v,
    }
}

/// The member of a member.
pub open spec fn at_in(v: JsonView, outer: Seq<char>, key: Seq<char>) -> Option<JsonView> {
    match at(v, outer) {
        Some(inner) => at(inner, key),
        None => None,
    }
}

/// Whether two values that may be missing are equal, or both missing.
pub open spec fn same_option(a: Option<JsonView>, b: Option<JsonView>) -> bool {
    match (a, b) {
        (Some(x), Some(y)) => same(x, y),
        (None, None) => true,
        _ => false,
    }
}

/// The model of a value that may be missing.
pub open spec fn option_view(v: Option<&Json>) -> Option<JsonView> {
    match v {
        Some(j) => Some(j@),
        None => None,
    }
}

/// Whether two values that may be missing are equal, or both missing.
pub fn options_same(a: Option<&Json>, b: Option<&Json>) -> (r: bool)
    ensures
        r == same_option(option_view(a), option_view(b)),
{
    match (a, b) {
        (Some(x), Some(y)) => x.same(y),
        (None, None) => true,
        _ => false,
    }
}

impl Json {
    /// The member of a member.
    pub fn get_in(&self, outer: &str, key: &str) -> (r: Option<&Json>)
        ensures
            option_view(r) == at_in(self@, outer@, key@),
    {
        match self.get(outer) {
            Some(inner) => inner.get(key),
            None => None,
        }
    }

    /// Puts `value` under `key` of the member `outer`.
    pub fn insert_in(&mut self, outer: &str, key: &str, value: Json)
        ensures
            final(self)@ == put_in(old(self)@, outer@, key@, value@),
    {
        let changed = match self.get(outer) {
            Some(inner) => Some(inner.clone().with(key, value)),
            None => None,
        };
        match changed {
            Some(inner) => {
                self.insert(outer, inner);
            },
            None => {},
        }
    }
}

impl Json {
    /// The keys of an object, each as often as it occurs.
    pub fn keys(&self) -> (r: Vec<String>)
        ensures
            forall|k: Seq<char>|
                at(self@, k) is Some <==> exists|n: int|
                    0 <= n < r@.len() && (#[trigger] r@[n])@ == k,
    {
        let mut out: Vec<String> = Vec::new();
        match self {
            Json::Object(entries) => {
                let mut i: usize = 0;
                while i < entries.len()
                    invariant
                        i <= entries@.len(),
                        out@.len() == i,
                        forall|n: int| 0 <= n < i ==> (#[trigger] out@[n])@ == entries@[n].0@,
                    decreases entries@.len() - i,
                {
                    out.push(entries[i].0.clone());
                    i += 1;
                }
                proof {
                    assert forall|k: Seq<char>|
                        at(self@, k) is Some implies exists|n: int|
                        0 <= n < out@.len() && (#[trigger] out@[n])@ == k by {
                        let n = lemma_members_some(entries@, k);
                        assert(out@[n]@ == k);
                    }
                    assert forall|k: Seq<char>|
                        (exists|n: int| 0 <= n < out@.len() && (#[trigger] out@[n])@ == k) implies at(
                        self@,
                        k,
                    ) is Some by {
                        let n = choose|n: int| 0 <= n < out@.len() && (#[trigger] out@[n])@ == k;
                        lemma_members_has(entries@, n);
                    }
                }
            },
            _ => {},
        }
        out
    }
}

/// The characters of a text that may be missing.
pub open spec fn opt_text(t: Option<&str>) -> Option<Seq<char>> {
    match t {
        Some(s) => Some(s@),
        None => None,
    }
}

/// Whether a text that may be missing is there and is `text`.
pub fn is_text(t: Option<&str>, text: &str) -> (r: bool)
    ensures
        r == (opt_text(t) == Some(text@)),
{
    match t {
        Some(s) => same_text(s, text),
        None => false,
    }
}

/// A member, null where it is missing.
pub open spec fn member(v: JsonView, key: Seq<char>) -> JsonView {
    match at(v, key) {
        Some(x) => x,
        None => JsonView::Null,
    }
}

/// A member, null where it is missing.
pub fn copy_member(v: &Json, key: &str) -> (r: Json)
    ensures
        r@ == member(v@, key@),
{
    match v.get(key) {
        Some(x) => x.clone(),
        None => Json::Null,
    }
}

/// The text under a key, or another where there is none.
pub open spec fn text_at(v: JsonView, key: Seq<char>, other: Seq<char>) -> Seq<char> {
    match text_of(at(v, key)) {
        Some(s) => s,
        None => other,
    }
}

/// The text under a key, or another where there is none.
pub fn text_under<'a>(v: &'a Json, key: &str, other: &'a str) -> (r: &'a str)
    ensures
        r@ == text_at(v@, key@, other@),
{
    match v.get_str(key) {
        Some(s) => s,
        None => other,
    }
}

/// An object keeps what is put into it under its key and everything else as it was, and
/// what is taken out is gone; a member is read as what it is and as nothing else.
pub proof fn law_members_are_kept(v: JsonView, key: Seq<char>, value: JsonView, other: Seq<char>)
    requires
        v is Object,
    ensures
        at(put(v, key, value), key) == Some(value),
        other != key ==> at(put(v, key, value), other) == at(v, other),
        at(without(v, key), key) is None,
        other != key ==> at(without(v, key), other) == at(v, other),
        at(empty_object(), key) is None,
        text_of(Some(value)) is Some <==> value is Str,
        items_of(Some(value)) is Some <==> value is Array,
        bool_of(Some(value)) is Some <==> value is Bool,
        u64_of(Some(value)) is Some <==> (value matches JsonView::Int(n) && 0 <= n
            <= 18446744073709551615),
        i64_of(Some(value)) is Some <==> (value matches JsonView::Int(n) && -9223372036854775808
            <= n <= 9223372036854775807),
        value matches JsonView::Int(n) ==> (u64_of(Some(value)) matches Some(m) ==> m == n),
        value matches JsonView::Int(n) ==> (i64_of(Some(value)) matches Some(m) ==> m == n),
{
}

} // verus!
