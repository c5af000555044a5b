//! The radar scene: the data that the device keeps, and what the host shows of it.

use vstd::prelude::*;

use crate::json::{
    at, bool_of, i64_of, items_of, models, opt_text, option_view, same_text, text_of, u64_of,
    without, Json, JsonView,
};
use crate::model::{duration_text, format_duration};
use crate::radar_data::{card_json, data_json, series_json};
use crate::text::{ascii, decimal, glue, hexadecimal, is_ascii_text, is_short_sum, write_decimal};
use crate::typed::{
    all_fine, exact_field, fault_view, field_at, field_views, find_exact, find_field,
    law_nothing_said_of_good_lists, law_nothing_said_of_good_records, list_field, name_views,
    plain_field, record_fault, row_fault, said, say, try_list, try_plain, try_record, try_row,
    Field, Plain,
};

verus! {

/// The largest number that the device keeps.
pub const COUNT_LIMIT: i64 = 10_000_000;

/// A card: label, number of tasks, colour, hundredths of a point, cents and
/// tenths of a minute; a value that is missing is -1.
#[derive(Debug)]
pub struct Card(pub String, pub u32, pub u32, pub i32, pub i32, pub i32);

/// A curve: short model name, colour, number of requests and one count for
/// each of 24 hours.
#[derive(Debug)]
pub struct Series(pub String, pub u32, pub u64, pub Vec<u64>);

/// The data of the radar scene, as the device keeps it.
#[derive(Debug)]
pub struct DeviceData {
    pub cards: Vec<Card>,
    pub series: Vec<Series>,
    pub total: i64,
    pub reset: i64,
    pub age: u64,
    pub warn: bool,
    pub tasks: bool,
}

#[verifier::ext_equal]
pub struct CardView {
    pub label: Seq<char>,
    pub count: int,
    pub color: int,
    pub score: int,
    pub price: int,
    pub minutes: int,
}

#[verifier::ext_equal]
pub struct SeriesView {
    pub name: Seq<char>,
    pub color: int,
    pub count: int,
    pub bins: Seq<int>,
}

#[verifier::ext_equal]
pub struct DataView {
    pub cards: Seq<CardView>,
    pub series: Seq<SeriesView>,
    pub total: int,
    pub reset: int,
    pub age: int,
    pub warn: bool,
    pub tasks: bool,
}

impl View for Card {
    type V = CardView;

    open spec fn view(&self) -> CardView {
        CardView {
            label: self.0@,
            count: self.1 as int,
            color: self.2 as int,
            score: self.3 as int,
            price: self.4 as int,
            minutes: self.5 as int,
        }
    }
}

/// Numbers as integers.
pub open spec fn ints(v: Seq<u64>) -> Seq<int> {
    Seq::new(v.len(), |i: int| v[i] as int)
}

impl View for Series {
    type V = SeriesView;

    open spec fn view(&self) -> SeriesView {
        SeriesView {
            name: self.0@,
            color: self.1 as int,
            count: self.2 as int,
            bins: ints(self.3@),
        }
    }
}

pub open spec fn card_views(v: Seq<Card>) -> Seq<CardView> {
    Seq::new(v.len(), |i: int| v[i]@)
}

pub open spec fn series_views(v: Seq<Series>) -> Seq<SeriesView> {
    Seq::new(v.len(), |i: int| v[i]@)
}

impl View for DeviceData {
    type V = DataView;

    open spec fn view(&self) -> DataView {
        DataView {
            cards: card_views(self.cards@),
            series: series_views(self.series@),
            total: self.total as int,
            reset: self.reset as int,
            age: self.age as int,
            warn: self.warn,
            tasks: self.tasks,
        }
    }
}

/// The sum of some numbers.
pub open spec fn total_of(v: Seq<int>) -> int
    decreases v.len(),
{
    if v.len() == 0 {
        0
    } else {
        total_of(v.drop_last()) + v.last()
    }
}

/// The requests of all curves together.
pub open spec fn counts_total(v: Seq<SeriesView>) -> int
    decreases v.len(),
{
    if v.len() == 0 {
        0
    } else {
        counts_total(v.drop_last()) + v.last().count
    }
}

/// A number that the device keeps, or -1 for one that is missing.
pub open spec fn known_or_missing(n: int) -> bool {
    -1 <= n <= COUNT_LIMIT
}

impl CardView {
    /// A card that the device can show.
    pub open spec fn valid(&self) -> bool {
        &&& ascii(self.label)
        &&& self.label.len() <= 20
        &&& 0 <= self.count <= 10
        &&& 0 <= self.color <= 0xffffff
        &&& known_or_missing(self.score)
        &&& known_or_missing(self.price)
        &&& known_or_missing(self.minutes)
    }
}

impl SeriesView {
    /// A curve that the device can show, whose hours add up to its count.
    pub open spec fn valid(&self) -> bool {
        &&& ascii(self.name)
        &&& self.name.len() <= 10
        &&& 0 <= self.color <= 0xffffff
        &&& 0 <= self.count <= COUNT_LIMIT
        &&& self.bins.len() == 24
        &&& forall|i: int| 0 <= i < self.bins.len() ==> 0 <= #[trigger] self.bins[i] <= COUNT_LIMIT
        &&& total_of(self.bins) == self.count
    }
}

impl DataView {
    /// Data in the range of the device, whose counts add up.
    pub open spec fn valid(&self) -> bool {
        &&& self.cards.len() <= 10
        &&& forall|i: int| 0 <= i < self.cards.len() ==> (#[trigger] self.cards[i]).valid()
        &&& self.series.len() <= 4
        &&& forall|i: int| 0 <= i < self.series.len() ==> (#[trigger] self.series[i]).valid()
        &&& known_or_missing(self.total)
        &&& known_or_missing(self.reset)
        &&& 0 <= self.age <= 30
        &&& self.total == -1 ==> self.series.len() == 0
        &&& self.total >= 0 ==> counts_total(self.series) == self.total
    }
}

impl Card {
    fn is_valid(&self) -> (r: bool)
        ensures
            r == self@.valid(),
    {
        is_ascii_text(self.0.as_str()) && self.0.as_str().unicode_len() <= 20 && self.1 <= 10 && self.2
            <= 0xffffff && -1 <= self.3 && self.3 <= 10_000_000 && -1 <= self.4 && self.4
            <= 10_000_000 && -1 <= self.5 && self.5 <= 10_000_000
    }
}

impl Series {
    fn is_valid(&self) -> (r: bool)
        ensures
            r == self@.valid(),
    {
        if !is_ascii_text(self.0.as_str()) || self.0.as_str().unicode_len() > 10 || self.1 > 0xffffff
            || self.2 > 10_000_000 || self.3.len() != 24 {
            return false;
        }
        let mut sum: u64 = 0;
        let mut i: usize = 0;
        while i < self.3.len()
            invariant
                i <= self.3@.len() == 24,
                forall|k: int| 0 <= k < i ==> 0 <= #[trigger] self@.bins[k] <= COUNT_LIMIT,
                sum == total_of(self@.bins.take(i as int)),
                sum <= i * 10_000_000,
            decreases self.3@.len() - i,
        {
            proof {
                assert(self@.bins.take(i as int + 1).drop_last() =~= self@.bins.take(i as int));
                assert(self@.bins[i as int] == self.3@[i as int]);
            }
            if self.3[i] > 10_000_000 {
                return false;
            }
            sum = sum + self.3[i];
            i += 1;
        }
        assert(self@.bins.take(24) =~= self@.bins);
        sum == self.2
    }
}

impl DeviceData {
    /// Checks the ranges of the device and that the counts add up.
    pub fn validate(&self) -> (r: Result<(), String>)
        ensures
            match r {
                Ok(_) => self@.valid(),
                Err(e) => !self@.valid() && e@ == "设备雷达数据超出范围或计数不一致"@,
            },
    {
        if self.is_valid() {
            Ok(())
        } else {
            Err("设备雷达数据超出范围或计数不一致".to_owned())
        }
    }

    fn is_valid(&self) -> (r: bool)
        ensures
            r == self@.valid(),
    {
        if self.cards.len() > 10 || self.series.len() > 4 {
            return false;
        }
        let mut i: usize = 0;
        while i < self.cards.len()
            invariant
                i <= self.cards@.len(),
                forall|k: int| 0 <= k < i ==> (#[trigger] self@.cards[k]).valid(),
            decreases self.cards@.len() - i,
        {
            assert(self@.cards[i as int] == self.cards@[i as int]@);
            if !self.cards[i].is_valid() {
                return false;
            }
            i += 1;
        }
        let mut sum: u64 = 0;
        let mut j: usize = 0;
        while j < self.series.len()
            invariant
                j <= self.series@.len() <= 4,
                forall|k: int| 0 <= k < j ==> (#[trigger] self@.series[k]).valid(),
                sum == counts_total(self@.series.take(j as int)),
                sum <= j * 10_000_000,
            decreases self.series@.len() - j,
        {
            proof {
                assert(self@.series[j as int] == self.series@[j as int]@);
                assert(self@.series.take(j as int + 1).drop_last() =~= self@.series.take(j as int));
            }
            if !self.series[j].is_valid() {
                return false;
            }
            sum = sum + self.series[j].2;
            j += 1;
        }
        assert(self@.series.take(self@.series.len() as int) =~= self@.series);
        if self.total < -1 || self.total > COUNT_LIMIT || self.reset < -1 || self.reset > COUNT_LIMIT
            || self.age > 30 {
            return false;
        }
        if self.total == -1 {
            return self.series.len() == 0;
        }
        sum == self.total as u64
    }
}

/// A number of 32 bits.
pub open spec fn u32_of(v: Option<JsonView>) -> Option<int> {
    match u64_of(v) {
        Some(n) => if n <= u32::MAX {
            Some(n as int)
        } else {
            None
        },
        None => None,
    }
}

/// A number of 32 bits with a sign.
pub open spec fn i32_of(v: Option<JsonView>) -> Option<int> {
    match i64_of(v) {
        Some(n) => if i32::MIN <= n <= i32::MAX {
            Some(n as int)
        } else {
            None
        },
        None => None,
    }
}

/// A card, as the list of its fields.
pub open spec fn card_fields(v: JsonView) -> Option<CardView> {
    match v {
        JsonView::Array(a) => if a.len() != 6 {
            None
        } else {
            match (
                text_of(Some(a[0])),
                u32_of(Some(a[1])),
                u32_of(Some(a[2])),
                i32_of(Some(a[3])),
                i32_of(Some(a[4])),
                i32_of(Some(a[5])),
            ) {
                (
                    Some(label),
                    Some(count),
                    Some(color),
                    Some(score),
                    Some(price),
                    Some(minutes),
                ) => Some(CardView { label, count, color, score, price, minutes }),
                _ => None,
            }
        },
        _ => None,
    }
}

/// The counts of 24 hours.
pub open spec fn bins_of(v: JsonView) -> Option<Seq<int>> {
    match v {
        JsonView::Array(a) => if a.len() == 24 && forall|i: int|
            0 <= i < a.len() ==> u64_of(Some(#[trigger] a[i])) is Some {
            Some(Seq::new(24, |i: int| u64_of(Some(a[i]))->0 as int))
        } else {
            None
        },
        _ => None,
    }
}

/// A curve, as the list of its fields.
pub open spec fn series_fields(v: JsonView) -> Option<SeriesView> {
    match v {
        JsonView::Array(a) => if a.len() != 4 {
            None
        } else {
            match (text_of(Some(a[0])), u32_of(Some(a[1])), u64_of(Some(a[2])), bins_of(a[3])) {
                (Some(name), Some(color), Some(count), Some(bins)) => Some(
                    SeriesView { name, color, count: count as int, bins },
                ),
                _ => None,
            }
        },
        _ => None,
    }
}

/// The cards, where every one of them can be read.
pub open spec fn all_cards(v: Option<JsonView>) -> Option<Seq<CardView>> {
    match items_of(v) {
        Some(a) => if forall|i: int| 0 <= i < a.len() ==> card_fields(#[trigger] a[i]) is Some {
            Some(Seq::new(a.len(), |i: int| card_fields(a[i])->0))
        } else {
            None
        },
        None => None,
    }
}

/// The curves, where every one of them can be read.
pub open spec fn all_curves(v: Option<JsonView>) -> Option<Seq<SeriesView>> {
    match items_of(v) {
        Some(a) => if forall|i: int| 0 <= i < a.len() ==> series_fields(#[trigger] a[i]) is Some {
            Some(Seq::new(a.len(), |i: int| series_fields(a[i])->0))
        } else {
            None
        },
        None => None,
    }
}

/// The radar data, where all fields are there and of their type.
pub open spec fn data_of(v: JsonView) -> Option<DataView> {
    match (
        all_cards(exact_field(v, "cards"@, 0, 7)),
        all_curves(exact_field(v, "series"@, 1, 7)),
        i64_of(exact_field(v, "total"@, 2, 7)),
        i64_of(exact_field(v, "reset"@, 3, 7)),
    ) {
        (Some(cards), Some(series), Some(total), Some(reset)) => match (
            u64_of(exact_field(v, "age"@, 4, 7)),
            bool_of(exact_field(v, "warn"@, 5, 7)),
            bool_of(exact_field(v, "tasks"@, 6, 7)),
        ) {
            (Some(age), Some(warn), Some(tasks)) => Some(
                DataView {
                    cards,
                    series,
                    total: total as int,
                    reset: reset as int,
                    age: age as int,
                    warn,
                    tasks,
                },
            ),
            _ => None,
        },
        _ => None,
    }
}

proof fn lemma_data_keys()
    ensures
        "cards"@ != "series"@,
        "cards"@ != "total"@,
        "cards"@ != "reset"@,
        "cards"@ != "age"@,
        "cards"@ != "warn"@,
        "cards"@ != "tasks"@,
        "series"@ != "total"@,
        "series"@ != "reset"@,
        "series"@ != "age"@,
        "series"@ != "warn"@,
        "series"@ != "tasks"@,
        "total"@ != "reset"@,
        "total"@ != "age"@,
        "total"@ != "warn"@,
        "total"@ != "tasks"@,
        "reset"@ != "age"@,
        "reset"@ != "warn"@,
        "reset"@ != "tasks"@,
        "age"@ != "warn"@,
        "age"@ != "tasks"@,
        "warn"@ != "tasks"@,
{
    reveal_strlit("cards");
    reveal_strlit("series");
    reveal_strlit("total");
    reveal_strlit("reset");
    reveal_strlit("age");
    reveal_strlit("warn");
    reveal_strlit("tasks");
    assert("cards"@[0] == 'c' && "total"@[0] == 't' && "reset"@[0] == 'r' && "tasks"@[0] == 't');
    assert("total"@[1] == 'o' && "tasks"@[1] == 'a');
    assert("series"@.len() == 6 && "age"@.len() == 3 && "warn"@.len() == 4);
}

/// Valid radar data can be read back from what is sent of it.
pub proof fn law_radar_data_read_back(d: DataView)
    requires
        d.valid(),
    ensures
        data_of(data_json(d)) == Some(d),
{
    lemma_data_keys();
    let v = data_json(d);
    let cards = Seq::new(d.cards.len(), |i: int| card_json(d.cards[i]));
    let curves = Seq::new(d.series.len(), |i: int| series_json(d.series[i]));
    assert(at(v, "cards"@) == Some(JsonView::Array(cards)));
    assert(at(v, "series"@) == Some(JsonView::Array(curves)));
    assert forall|i: int| 0 <= i < cards.len() implies card_fields(#[trigger] cards[i]) == Some(
        d.cards[i],
    ) by {
        assert(d.cards[i].valid());
    }
    assert forall|i: int| 0 <= i < curves.len() implies series_fields(#[trigger] curves[i]) == Some(
        d.series[i],
    ) by {
        let s = d.series[i];
        assert(s.valid());
        let bins = Seq::new(s.bins.len(), |i: int| JsonView::Int(s.bins[i]));
        assert(series_json(s)->Array_0[3] == JsonView::Array(bins));
        assert forall|k: int| 0 <= k < bins.len() implies u64_of(Some(#[trigger] bins[k])) == Some(
            s.bins[k] as u64,
        ) by {
            assert(0 <= s.bins[k] <= COUNT_LIMIT);
        }
        assert(bins_of(JsonView::Array(bins))->0 =~= s.bins);
    }
    assert(all_cards(at(v, "cards"@))->0 =~= d.cards);
    assert(all_curves(at(v, "series"@))->0 =~= d.series);
}

fn read_u32(v: &Json) -> (r: Option<u32>)
    ensures
        match r {
            Some(n) => u32_of(Some(v@)) == Some(n as int),
            None => u32_of(Some(v@)) is None,
        },
{
    match v.as_u64() {
        Some(n) => if n <= u32::MAX as u64 {
            Some(n as u32)
        } else {
            None
        },
        None => None,
    }
}

fn read_i32(v: &Json) -> (r: Option<i32>)
    ensures
        match r {
            Some(n) => i32_of(Some(v@)) == Some(n as int),
            None => i32_of(Some(v@)) is None,
        },
{
    match v.as_i64() {
        Some(n) => if i32::MIN as i64 <= n && n <= i32::MAX as i64 {
            Some(n as i32)
        } else {
            None
        },
        None => None,
    }
}

impl Card {
    fn read(v: &Json) -> (r: Option<Card>)
        ensures
            match r {
                Some(c) => card_fields(v@) == Some(c@),
                None => card_fields(v@) is None,
            },
    {
        let a = match v.as_array() {
            Some(a) => a,
            None => {
                return None;
            },
        };
        let ghost all = models(a@);
        if a.len() != 6 {
            return None;
        }
        assert(all[0] == a@[0]@ && all[1] == a@[1]@ && all[2] == a@[2]@);
        assert(all[3] == a@[3]@ && all[4] == a@[4]@ && all[5] == a@[5]@);
        match (
            a[0].as_str(),
            read_u32(&a[1]),
            read_u32(&a[2]),
            read_i32(&a[3]),
            read_i32(&a[4]),
            read_i32(&a[5]),
        ) {
            (Some(label), Some(count), Some(color), Some(score), Some(price), Some(minutes)) => Some(
                Card(label.to_owned(), count, color, score, price, minutes),
            ),
            _ => None,
        }
    }

    fn read_all(v: Option<&Json>) -> (r: Option<Vec<Card>>)
        ensures
            match r {
                Some(c) => all_cards(option_view(v)) == Some(card_views(c@)),
                None => all_cards(option_view(v)) is None,
            },
    {
        let a = match v {
            Some(v) => match v.as_array() {
                Some(a) => a,
                None => {
                    return None;
                },
            },
            None => {
                return None;
            },
        };
        let ghost all = models(a@);
        let mut out: Vec<Card> = Vec::new();
        let mut i: usize = 0;
        while i < a.len()
            invariant
                i <= a@.len(),
                all == models(a@),
                items_of(option_view(v)) == Some(all),
                out@.len() == i,
                forall|k: int|
                    #![trigger all[k]]
                    #![trigger out@[k]]
                    0 <= k < i ==> card_fields(all[k]) == Some(out@[k]@),
            decreases a@.len() - i,
        {
            assert(all[i as int] == a@[i as int]@);
            match Card::read(&a[i]) {
                Some(c) => {
                    out.push(c);
                },
                None => {
                    return None;
                },
            }
            i += 1;
        }
        assert(card_views(out@) =~= Seq::new(all.len(), |i: int| card_fields(all[i])->0));
        Some(out)
    }
}

impl Clone for Card {
    fn clone(&self) -> (r: Self)
        ensures
            r@ == self@,
    {
        Card(self.0.clone(), self.1, self.2, self.3, self.4, self.5)
    }
}

fn read_bins(v: &Json) -> (r: Option<Vec<u64>>)
    ensures
        match r {
            Some(b) => bins_of(v@) == Some(ints(b@)),
            None => bins_of(v@) is None,
        },
{
    let a = match v.as_array() {
        Some(a) => a,
        None => {
            return None;
        },
    };
    let ghost all = models(a@);
    if a.len() != 24 {
        return None;
    }
    let mut out: Vec<u64> = Vec::new();
    let mut i: usize = 0;
    while i < a.len()
        invariant
            i <= a@.len() == 24,
            all == models(a@),
            v@ == JsonView::Array(all),
            out@.len() == i,
            forall|k: int|
                #![trigger all[k]]
                #![trigger out@[k]]
                0 <= k < i ==> u64_of(Some(all[k])) == Some(out@[k]),
        decreases a@.len() - i,
    {
        assert(all[i as int] == a@[i as int]@);
        match a[i].as_u64() {
            Some(n) => {
                out.push(n);
            },
            None => {
                return None;
            },
        }
        i += 1;
    }
    assert(ints(out@) =~= Seq::new(24, |i: int| u64_of(Some(all[i]))->0 as int));
    Some(out)
}

impl Series {
    fn read(v: &Json) -> (r: Option<Series>)
        ensures
            match r {
                Some(s) => series_fields(v@) == Some(s@),
                None => series_fields(v@) is None,
            },
    {
        let a = match v.as_array() {
            Some(a) => a,
            None => {
                return None;
            },
        };
        let ghost all = models(a@);
        if a.len() != 4 {
            return None;
        }
        assert(all[0] == a@[0]@ && all[1] == a@[1]@ && all[2] == a@[2]@ && all[3] == a@[3]@);
        match (a[0].as_str(), read_u32(&a[1]), a[2].as_u64(), read_bins(&a[3])) {
            (Some(name), Some(color), Some(count), Some(bins)) => Some(
                Series(name.to_owned(), color, count, bins),
            ),
            _ => None,
        }
    }

    fn read_all(v: Option<&Json>) -> (r: Option<Vec<Series>>)
        ensures
            match r {
                Some(s) => all_curves(option_view(v)) == Some(series_views(s@)),
                None => all_curves(option_view(v)) is None,
            },
    {
        let a = match v {
            Some(v) => match v.as_array() {
                Some(a) => a,
                None => {
                    return None;
                },
            },
            None => {
                return None;
            },
        };
        let ghost all = models(a@);
        let mut out: Vec<Series> = Vec::new();
        let mut i: usize = 0;
        while i < a.len()
            invariant
                i <= a@.len(),
                all == models(a@),
                items_of(option_view(v)) == Some(all),
                out@.len() == i,
                forall|k: int|
                    #![trigger all[k]]
                    #![trigger out@[k]]
                    0 <= k < i ==> series_fields(all[k]) == Some(out@[k]@),
            decreases a@.len() - i,
        {
            assert(all[i as int] == a@[i as int]@);
            match Series::read(&a[i]) {
                Some(s) => {
                    out.push(s);
                },
                None => {
                    return None;
                },
            }
            i += 1;
        }
        assert(series_views(out@) =~= Seq::new(all.len(), |i: int| series_fields(all[i])->0));
        Some(out)
    }
}

impl Clone for Series {
    fn clone(&self) -> (r: Self)
        ensures
            r@ == self@,
    {
        let mut bins: Vec<u64> = Vec::new();
        let mut i: usize = 0;
        while i < self.3.len()
            invariant
                i <= self.3@.len(),
                bins@ == self.3@.take(i as int),
            decreases self.3@.len() - i,
        {
            bins.push(self.3[i]);
            i += 1;
        }
        assert(bins@ =~= self.3@);
        Series(self.0.clone(), self.1, self.2, bins)
    }
}

fn i64_in(v: Option<&Json>) -> (r: Option<i64>)
    ensures
        r == i64_of(option_view(v)),
{
    match v {
        Some(v) => v.as_i64(),
        None => None,
    }
}

fn u64_in(v: Option<&Json>) -> (r: Option<u64>)
    ensures
        r == u64_of(option_view(v)),
{
    match v {
        Some(v) => v.as_u64(),
        None => None,
    }
}

fn bool_in(v: Option<&Json>) -> (r: Option<bool>)
    ensures
        r == bool_of(option_view(v)),
{
    match v {
        Some(v) => v.as_bool(),
        None => None,
    }
}

impl DeviceData {
    /// Reads radar data that came from the device.
    pub fn read(v: &Json) -> (r: Option<DeviceData>)
        ensures
            match r {
                Some(d) => data_of(v@) == Some(d@),
                None => data_of(v@) is None,
            },
    {
        match (
            Card::read_all(find_exact(v, "cards", 0, 7)),
            Series::read_all(find_exact(v, "series", 1, 7)),
            i64_in(find_exact(v, "total", 2, 7)),
            i64_in(find_exact(v, "reset", 3, 7)),
        ) {
            (Some(cards), Some(series), Some(total), Some(reset)) => match (
                u64_in(find_exact(v, "age", 4, 7)),
                bool_in(find_exact(v, "warn", 5, 7)),
                bool_in(find_exact(v, "tasks", 6, 7)),
            ) {
                (Some(age), Some(warn), Some(tasks)) => Some(
                    DeviceData { cards, series, total, reset, age, warn, tasks },
                ),
                _ => None,
            },
            _ => None,
        }
    }
}

impl Clone for DeviceData {
    fn clone(&self) -> (r: Self)
        ensures
            r@ == self@,
    {
        let mut cards: Vec<Card> = Vec::new();
        let mut i: usize = 0;
        while i < self.cards.len()
            invariant
                i <= self.cards@.len(),
                cards@.len() == i,
                forall|k: int| 0 <= k < i ==> (#[trigger] cards@[k])@ == self.cards@[k]@,
            decreases self.cards@.len() - i,
        {
            cards.push(self.cards[i].clone());
            i += 1;
        }
        assert(card_views(cards@) =~= card_views(self.cards@));
        let mut series: Vec<Series> = Vec::new();
        let mut j: usize = 0;
        while j < self.series.len()
            invariant
                j <= self.series@.len(),
                series@.len() == j,
                forall|k: int| 0 <= k < j ==> (#[trigger] series@[k])@ == self.series@[k]@,
            decreases self.series@.len() - j,
        {
            series.push(self.series[j].clone());
            j += 1;
        }
        assert(series_views(series@) =~= series_views(self.series@));
        DeviceData {
            cards,
            series,
            total: self.total,
            reset: self.reset,
            age: self.age,
            warn: self.warn,
            tasks: self.tasks,
        }
    }
}

/// What the device shows: the data that it keeps and the data before them, with
/// their sum, their age and the seconds that the scene has run.
#[derive(Debug)]
pub struct DeviceView {
    pub data: DeviceData,
    pub previous: DeviceData,
    pub crc: String,
    pub age: u64,
    pub scene_seconds: u64,
}

#[verifier::ext_equal]
pub struct ScreenView {
    pub data: DataView,
    pub previous: DataView,
    pub crc: Seq<char>,
    pub age: int,
    pub scene_seconds: int,
}

impl View for DeviceView {
    type V = ScreenView;

    open spec fn view(&self) -> ScreenView {
        ScreenView {
            data: self.data@,
            previous: self.previous@,
            crc: self.crc@,
            age: self.age as int,
            scene_seconds: self.scene_seconds as int,
        }
    }
}

impl ScreenView {
    /// The data are sound and not younger than they were when they were sent.
    pub open spec fn wf(&self) -> bool {
        &&& self.data.valid()
        &&& self.previous.valid()
        &&& self.data.age <= self.age
        &&& self.crc.len() == 8
        &&& hexadecimal(self.crc)
    }

    /// How many pages of two cards there are.
    pub open spec fn pages(&self) -> int {
        if self.data.cards.len() == 0 {
            1
        } else {
            (self.data.cards.len() as int + 1) / 2
        }
    }

    /// The page that is up, `elapsed` seconds after the device said how long the
    /// scene has run: each page for six seconds.
    pub open spec fn page(&self, elapsed: int) -> int {
        (self.scene_seconds + elapsed) / 6 % self.pages()
    }

    /// The seconds until the announced reset.
    pub open spec fn remaining(&self, elapsed: int) -> int {
        self.data.reset - (self.age - self.data.age + elapsed)
    }

    /// What is said of the announced reset.
    pub open spec fn reset_text(&self, elapsed: int) -> Seq<char> {
        if self.data.reset < 0 {
            "NO DEADLINE / SEE PC"@
        } else if self.remaining(elapsed) <= 0 {
            "WINDOW ENDED / CHECK PC"@
        } else {
            "EST. "@ + duration_text(self.remaining(elapsed) as nat)
        }
    }

    /// What the badge says: that the data are old, that a source failed, or that
    /// all is well.
    pub open spec fn badge(&self, elapsed: int) -> Seq<char> {
        if self.age + elapsed > 15 {
            "STALE "@ + decimal((self.age + elapsed) as nat) + "s"@
        } else if self.data.warn {
            "SOURCE WARN"@
        } else {
            "USB LIVE"@
        }
    }

    /// What is said below the cards.
    pub open spec fn pages_text(&self, elapsed: int) -> Seq<char> {
        if !self.data.tasks {
            "TASK DATA UNAVAILABLE"@
        } else if self.data.cards.len() == 0 {
            "NO TASKS"@
        } else {
            "CODE  "@ + decimal((self.page(elapsed) + 1) as nat) + "/"@ + decimal(
                self.pages() as nat,
            )
        }
    }
}

/// Every card comes up: its page is among the pages, and is up within the time
/// that all pages take.
pub proof fn law_every_card_comes_up(s: ScreenView, card: int, from: int) -> (elapsed: int)
    requires
        s.wf(),
        0 <= s.scene_seconds,
        0 <= card < s.data.cards.len(),
        0 <= from,
    ensures
        from <= elapsed < from + 6 * s.pages(),
        s.page(elapsed) == card / 2,
        2 * s.page(elapsed) <= card < 2 * s.page(elapsed) + 2,
{
    let n = s.pages();
    let wanted = card / 2;
    assert(0 <= wanted < n);
    let turn = (s.scene_seconds + from) / 6;
    let now = turn % n;
    vstd::arithmetic::div_mod::lemma_mod_bound(turn, n);
    let wait = if wanted >= now {
        wanted - now
    } else {
        wanted + n - now
    };
    let elapsed = from + 6 * wait;
    assert((s.scene_seconds + elapsed) / 6 == turn + wait);
    if wanted >= now {
        vstd::arithmetic::div_mod::lemma_fundamental_div_mod(turn, n);
        let q = turn / n;
        assert(turn + wait == n * q + wanted);
        vstd::arithmetic::div_mod::lemma_mod_multiples_vanish(q, wanted, n);
        vstd::arithmetic::div_mod::lemma_small_mod(wanted as nat, n as nat);
    } else {
        vstd::arithmetic::div_mod::lemma_fundamental_div_mod(turn, n);
        let q = turn / n;
        assert(turn + wait == n * (q + 1) + wanted) by (nonlinear_arith)
            requires
                turn == n * q + now,
                wait == wanted + n - now,
        ;
        vstd::arithmetic::div_mod::lemma_mod_multiples_vanish(q + 1, wanted, n);
        vstd::arithmetic::div_mod::lemma_small_mod(wanted as nat, n as nat);
    }
    elapsed
}

impl DeviceView {
    /// How many pages of two cards there are.
    pub fn pages(&self) -> (r: usize)
        ensures
            r == self@.pages(),
            r >= 1,
    {
        let n = self.data.cards.len();
        if n == 0 {
            1
        } else {
            n / 2 + n % 2
        }
    }

    /// The page that is up, `elapsed` seconds after the device said how long the
    /// scene has run.
    pub fn page(&self, elapsed: u64) -> (r: usize)
        ensures
            r == self@.page(elapsed as int),
            r < self@.pages(),
    {
        let turn = (self.scene_seconds as u128 + elapsed as u128) / 6;
        (turn % self.pages() as u128) as usize
    }

    /// What is said of the announced reset.
    pub fn reset_text(&self, elapsed: u64) -> (r: String)
        requires
            self@.wf(),
        ensures
            r@ == self@.reset_text(elapsed as int),
    {
        if self.data.reset < 0 {
            return "NO DEADLINE / SEE PC".to_owned();
        }
        let passed = (self.age - self.data.age) as u128 + elapsed as u128;
        let reset = self.data.reset as u128;
        if passed >= reset {
            "WINDOW ENDED / CHECK PC".to_owned()
        } else {
            glue("EST. ", format_duration((reset - passed) as u32).as_str())
        }
    }

    /// What the badge says.
    pub fn badge(&self, elapsed: u64) -> (r: String)
        requires
            self.age + elapsed <= u64::MAX,
        ensures
            r@ == self@.badge(elapsed as int),
    {
        let age = self.age + elapsed;
        if age > 15 {
            glue(glue("STALE ", write_decimal(age).as_str()).as_str(), "s")
        } else if self.data.warn {
            "SOURCE WARN".to_owned()
        } else {
            "USB LIVE".to_owned()
        }
    }

    /// What is said below the cards.
    pub fn pages_text(&self, elapsed: u64) -> (r: String)
        requires
            self@.wf(),
        ensures
            r@ == self@.pages_text(elapsed as int),
    {
        if !self.data.tasks {
            return "TASK DATA UNAVAILABLE".to_owned();
        }
        if self.data.cards.len() == 0 {
            return "NO TASKS".to_owned();
        }
        let mut out = glue("CODE  ", write_decimal(self.page(elapsed) as u64 + 1).as_str());
        out.append("/");
        out.append(write_decimal(self.pages() as u64).as_str());
        out
    }
}

/// The radar page: what was collected to be sent, and apart from it what the
/// device confirmed.
#[derive(Debug)]
pub struct RadarPage {
    data: Option<Json>,
    device: Option<DeviceView>,
    error: Option<String>,
    attempted: bool,
    revision: u64,
}

#[verifier::ext_equal]
pub struct PageView {
    pub data: Option<JsonView>,
    pub device: Option<ScreenView>,
    pub error: Option<Seq<char>>,
    pub attempted: bool,
    pub revision: int,
}

impl View for RadarPage {
    type V = PageView;

    closed spec fn view(&self) -> PageView {
        PageView {
            data: match self.data {
                Some(d) => Some(d@),
                None => None,
            },
            device: match self.device {
                Some(d) => Some(d@),
                None => None,
            },
            error: match self.error {
                Some(e) => Some(e@),
                None => None,
            },
            attempted: self.attempted,
            revision: self.revision as int,
        }
    }
}

/// A screen that takes over data from the device: the data before them stay in
/// sight for as long as the sum is the same.
pub open spec fn screen_after(
    old_screen: Option<ScreenView>,
    data: DataView,
    crc: Seq<char>,
    age: int,
    scene_seconds: int,
) -> ScreenView {
    ScreenView {
        data,
        previous: match old_screen {
            Some(o) => if o.crc == crc {
                o.previous
            } else {
                o.data
            },
            None => data,
        },
        crc,
        age,
        scene_seconds,
    }
}

/// What is said of a card that cannot be read.
pub open spec fn card_fault(v: JsonView) -> Option<Seq<char>> {
    row_fault(
        v,
        "tuple struct Card"@,
        seq![
            plain_field(field_at(v, ""@, 0), Plain::Text),
            plain_field(field_at(v, ""@, 1), Plain::Small),
            plain_field(field_at(v, ""@, 2), Plain::Small),
            plain_field(field_at(v, ""@, 3), Plain::Short),
            plain_field(field_at(v, ""@, 4), Plain::Short),
            plain_field(field_at(v, ""@, 5), Plain::Short),
        ],
    )
}

/// What is said of a card that cannot be read.
fn check_card(v: &Json) -> (r: Option<String>)
    ensures
        fault_view(r) == card_fault(v@),
{
    let fields: Vec<Field> = vec![
        try_plain(find_field(v, "", 0), Plain::Text),
        try_plain(find_field(v, "", 1), Plain::Small),
        try_plain(find_field(v, "", 2), Plain::Small),
        try_plain(find_field(v, "", 3), Plain::Short),
        try_plain(find_field(v, "", 4), Plain::Short),
        try_plain(find_field(v, "", 5), Plain::Short),
    ];
    assert(field_views(fields@) =~= seq![
        plain_field(field_at(v@, ""@, 0), Plain::Text),
        plain_field(field_at(v@, ""@, 1), Plain::Small),
        plain_field(field_at(v@, ""@, 2), Plain::Small),
        plain_field(field_at(v@, ""@, 3), Plain::Short),
        plain_field(field_at(v@, ""@, 4), Plain::Short),
        plain_field(field_at(v@, ""@, 5), Plain::Short),
    ]);
    try_row(v, "tuple struct Card", &fields)
}

/// What is said of a curve that cannot be read.
pub open spec fn curve_fault(v: JsonView) -> Option<Seq<char>> {
    row_fault(
        v,
        "tuple struct Series"@,
        seq![
            plain_field(field_at(v, ""@, 0), Plain::Text),
            plain_field(field_at(v, ""@, 1), Plain::Small),
            plain_field(field_at(v, ""@, 2), Plain::Whole),
            plain_field(field_at(v, ""@, 3), Plain::Hours),
        ],
    )
}

/// What is said of a curve that cannot be read.
fn check_curve(v: &Json) -> (r: Option<String>)
    ensures
        fault_view(r) == curve_fault(v@),
{
    let fields: Vec<Field> = vec![
        try_plain(find_field(v, "", 0), Plain::Text),
        try_plain(find_field(v, "", 1), Plain::Small),
        try_plain(find_field(v, "", 2), Plain::Whole),
        try_plain(find_field(v, "", 3), Plain::Hours),
    ];
    assert(field_views(fields@) =~= seq![
        plain_field(field_at(v@, ""@, 0), Plain::Text),
        plain_field(field_at(v@, ""@, 1), Plain::Small),
        plain_field(field_at(v@, ""@, 2), Plain::Whole),
        plain_field(field_at(v@, ""@, 3), Plain::Hours),
    ]);
    try_row(v, "tuple struct Series", &fields)
}

/// What is said of radar data that cannot be read.
pub open spec fn data_fault(v: JsonView) -> Option<Seq<char>> {
    record_fault(
        v,
        "struct DeviceData"@,
        seq![
            "cards"@,
            "series"@,
            "total"@,
            "reset"@,
            "age"@,
            "warn"@,
            "tasks"@,
        ],
        seq![
            list_field(field_at(v, "cards"@, 0), |e: JsonView| card_fault(e)),
            list_field(field_at(v, "series"@, 1), |e: JsonView| curve_fault(e)),
            plain_field(field_at(v, "total"@, 2), Plain::Long),
            plain_field(field_at(v, "reset"@, 3), Plain::Long),
            plain_field(field_at(v, "age"@, 4), Plain::Whole),
            plain_field(field_at(v, "warn"@, 5), Plain::Flag),
            plain_field(field_at(v, "tasks"@, 6), Plain::Flag),
        ],
    )
}

/// What is said of radar data that cannot be read.
fn check_data(v: &Json) -> (r: Option<String>)
    ensures
        fault_view(r) == data_fault(v@),
{
    let cards = try_list(find_field(v, "cards", 0), check_card, Ghost(|e: JsonView| card_fault(e)));
    let series = try_list(find_field(v, "series", 1), check_curve, Ghost(|e: JsonView| curve_fault(e)));
    let fields: Vec<Field> = vec![
        cards,
        series,
        try_plain(find_field(v, "total", 2), Plain::Long),
        try_plain(find_field(v, "reset", 3), Plain::Long),
        try_plain(find_field(v, "age", 4), Plain::Whole),
        try_plain(find_field(v, "warn", 5), Plain::Flag),
        try_plain(find_field(v, "tasks", 6), Plain::Flag),
    ];
    assert(field_views(fields@) =~= seq![
        list_field(field_at(v@, "cards"@, 0), |e: JsonView| card_fault(e)),
        list_field(field_at(v@, "series"@, 1), |e: JsonView| curve_fault(e)),
        plain_field(field_at(v@, "total"@, 2), Plain::Long),
        plain_field(field_at(v@, "reset"@, 3), Plain::Long),
        plain_field(field_at(v@, "age"@, 4), Plain::Whole),
        plain_field(field_at(v@, "warn"@, 5), Plain::Flag),
        plain_field(field_at(v@, "tasks"@, 6), Plain::Flag),
    ]);
    let names: Vec<&str> = vec![
        "cards",
        "series",
        "total",
        "reset",
        "age",
        "warn",
        "tasks",
    ];
    assert(name_views(names@) =~= seq![
        "cards"@,
        "series"@,
        "total"@,
        "reset"@,
        "age"@,
        "warn"@,
        "tasks"@,
    ]);
    try_record(v, "struct DeviceData", &names, &fields)
}

proof fn lemma_card_reason(v: JsonView)
    ensures
        card_fields(v) is Some <==> card_fault(v) is None,
{
    let fields = seq![
        plain_field(field_at(v, ""@, 0), Plain::Text),
        plain_field(field_at(v, ""@, 1), Plain::Small),
        plain_field(field_at(v, ""@, 2), Plain::Small),
        plain_field(field_at(v, ""@, 3), Plain::Short),
        plain_field(field_at(v, ""@, 4), Plain::Short),
        plain_field(field_at(v, ""@, 5), Plain::Short),
    ];
    law_nothing_said_of_good_records(v, "tuple struct Card"@, Seq::empty(), fields);
    assert(all_fine(fields) <==> fields[0] is Fine && fields[1] is Fine && fields[2] is Fine
        && fields[3] is Fine && fields[4] is Fine && fields[5] is Fine);
}

proof fn lemma_curve_reason(v: JsonView)
    ensures
        series_fields(v) is Some <==> curve_fault(v) is None,
{
    let fields = seq![
        plain_field(field_at(v, ""@, 0), Plain::Text),
        plain_field(field_at(v, ""@, 1), Plain::Small),
        plain_field(field_at(v, ""@, 2), Plain::Whole),
        plain_field(field_at(v, ""@, 3), Plain::Hours),
    ];
    law_nothing_said_of_good_records(v, "tuple struct Series"@, Seq::empty(), fields);
    assert(all_fine(fields) <==> fields[0] is Fine && fields[1] is Fine && fields[2] is Fine
        && fields[3] is Fine);
}

/// Radar data are read just where nothing can be said of them.
pub proof fn law_data_are_refused_for_a_reason(v: JsonView)
    ensures
        data_of(v) is Some <==> data_fault(v) is None,
{
    let fields = seq![
        list_field(field_at(v, "cards"@, 0), |e: JsonView| card_fault(e)),
        list_field(field_at(v, "series"@, 1), |e: JsonView| curve_fault(e)),
        plain_field(field_at(v, "total"@, 2), Plain::Long),
        plain_field(field_at(v, "reset"@, 3), Plain::Long),
        plain_field(field_at(v, "age"@, 4), Plain::Whole),
        plain_field(field_at(v, "warn"@, 5), Plain::Flag),
        plain_field(field_at(v, "tasks"@, 6), Plain::Flag),
    ];
    let names = seq![
        "cards"@,
        "series"@,
        "total"@,
        "reset"@,
        "age"@,
        "warn"@,
        "tasks"@,
    ];
    law_nothing_said_of_good_records(v, "struct DeviceData"@, names, fields);
    assert(all_fine(fields) <==> fields[0] is Fine && fields[1] is Fine && fields[2] is Fine
        && fields[3] is Fine && fields[4] is Fine && fields[5] is Fine && fields[6] is Fine);
    if let Some(items) = items_of(field_at(v, "cards"@, 0)) {
        law_nothing_said_of_good_lists(items, |e: JsonView| card_fault(e));
        assert forall|i: int| 0 <= i < items.len() implies (card_fields(#[trigger] items[i]) is Some
            <==> card_fault(items[i]) is None) by {
            lemma_card_reason(items[i]);
        }
    }
    if let Some(items) = items_of(field_at(v, "series"@, 1)) {
        law_nothing_said_of_good_lists(items, |e: JsonView| curve_fault(e));
        assert forall|i: int| 0 <= i < items.len() implies (series_fields(#[trigger] items[i])
            is Some <==> curve_fault(items[i]) is None) by {
            lemma_curve_reason(items[i]);
        }
    }
}

/// The data that an answer of the device is about: those that came with it, or
/// the known ones, where they have the right sum.
pub open spec fn data_confirmed(
    screen: Option<ScreenView>,
    raw: Option<JsonView>,
    crc: Seq<char>,
) -> Result<DataView, Seq<char>> {
    let data = match raw {
        Some(raw) => match data_of(raw) {
            Some(d) => Ok(d),
            None => Err("设备雷达数据无效："@ + said(data_fault(raw))),
        },
        None => match screen {
            Some(s) => if s.crc == crc {
                Ok(s.data)
            } else {
                Err("尚未完整回读雷达，请重新检测连接"@)
            },
            None => Err("尚未完整回读雷达，请重新检测连接"@),
        },
    };
    match data {
        Ok(d) => if d.valid() {
            Ok(d)
        } else {
            Err("设备雷达数据超出范围或计数不一致"@)
        },
        Err(e) => Err(e),
    }
}

/// The screen after the device said what it shows, first things first.
pub open spec fn screen_accepted(screen: Option<ScreenView>, v: JsonView) -> Result<
    Option<ScreenView>,
    Seq<char>,
> {
    if text_of(at(v, "mode"@)) != Some("radar"@) {
        Ok(None)
    } else if i64_of(at(v, "radar_mirror_protocol"@)) != Some(1i64) {
        Err("请更新设备程序以回读雷达预览"@)
    } else {
        match text_of(at(v, "crc32"@)) {
            None => Err("设备缺少雷达 CRC"@),
            Some(crc) => match u64_of(at(v, "age"@)) {
                None => Err("设备缺少雷达数据年龄"@),
                Some(age) => match u64_of(at(v, "scene_seconds"@)) {
                    None => Err("设备缺少雷达轮播时钟"@),
                    Some(seconds) => match data_confirmed(screen, at(v, "radar_data"@), crc) {
                        Err(e) => Err(e),
                        Ok(data) => if age < data.age || crc.len() != 8 || !hexadecimal(crc) {
                            Err("雷达时钟或校验值无效"@)
                        } else {
                            Ok(
                                Some(screen_after(screen, data, crc, age as int, seconds as int)),
                            )
                        },
                    },
                },
            },
        }
    }
}

/// What is left of the answer of the device: the data are taken out of one that
/// has all that goes with them, whether or not they turn out to be sound.
pub open spec fn data_taken(v: JsonView) -> JsonView {
    if text_of(at(v, "mode"@)) == Some("radar"@) && i64_of(at(v, "radar_mirror_protocol"@)) == Some(
        1i64,
    ) && text_of(at(v, "crc32"@)) is Some && u64_of(at(v, "age"@)) is Some && u64_of(
        at(v, "scene_seconds"@),
    ) is Some {
        without(v, "radar_data"@)
    } else {
        v
    }
}

/// What the device sends keeps the screen sound, and an answer without data can
/// follow one with data: it confirms them.
pub proof fn law_screen_stays_sound(screen: Option<ScreenView>, v: JsonView)
    requires
        match screen {
            Some(s) => s.wf(),
            None => true,
        },
    ensures
        match screen_accepted(screen, v) {
            Ok(Some(s)) => s.wf() && screen_accepted(Some(s), without(v, "radar_data"@)) == Ok::<
                Option<ScreenView>,
                Seq<char>,
            >(Some(s)),
            _ => true,
        },
{
    reveal_strlit("radar_data");
    reveal_strlit("mode");
    reveal_strlit("radar_mirror_protocol");
    reveal_strlit("crc32");
    reveal_strlit("age");
    reveal_strlit("scene_seconds");
    assert("radar_data"@.len() == 10);
    let w = without(v, "radar_data"@);
    assert(at(w, "mode"@) == at(v, "mode"@));
    assert(at(w, "radar_mirror_protocol"@) == at(v, "radar_mirror_protocol"@));
    assert(at(w, "crc32"@) == at(v, "crc32"@));
    assert(at(w, "age"@) == at(v, "age"@));
    assert(at(w, "scene_seconds"@) == at(v, "scene_seconds"@));
    assert(at(w, "radar_data"@) is None);
}

impl Default for RadarPage {
    fn default() -> (r: Self)
        ensures
            r@ == (PageView {
                data: None,
                device: None,
                error: None,
                attempted: false,
                revision: 0,
            }),
    {
        RadarPage { data: None, device: None, error: None, attempted: false, revision: 0 }
    }
}

impl RadarPage {
    /// Takes over what a collection came to. Data make a new version to be sent;
    /// what the device shows stays as it is.
    pub fn collected(&mut self, result: Result<Json, String>)
        requires
            old(self)@.revision < u64::MAX,
        ensures
            final(self)@ == match result {
                Ok(data) => PageView {
                    data: Some(data@),
                    device: old(self)@.device,
                    error: None,
                    attempted: true,
                    revision: old(self)@.revision + 1,
                },
                Err(e) => PageView { error: Some(e@), attempted: true, ..old(self)@ },
            },
    {
        self.attempted = true;
        match result {
            Ok(data) => {
                self.data = Some(data);
                self.revision = self.revision + 1;
                self.error = None;
            },
            Err(e) => {
                self.error = Some(e);
            },
        }
    }

    /// Whether a collection has come to an end, well or not.
    pub fn ready(&self) -> (r: bool)
        ensures
            r == self@.attempted,
    {
        self.attempted
    }

    /// How many collections have brought data.
    pub fn revision(&self) -> (r: u64)
        ensures
            r == self@.revision,
    {
        self.revision
    }

    /// A copy of the data that were collected.
    pub fn snapshot(&self) -> (r: Option<Json>)
        ensures
            match r {
                Some(d) => self@.data == Some(d@),
                None => self@.data is None,
            },
    {
        match &self.data {
            Some(d) => Some(d.clone()),
            None => None,
        }
    }

    /// What went wrong with the last collection.
    pub fn error(&self) -> (r: Option<&str>)
        ensures
            opt_text(r) == self@.error,
    {
        match &self.error {
            Some(e) => Some(e.as_str()),
            None => None,
        }
    }

    /// What the device confirmed that it shows.
    pub fn device(&self) -> (r: Option<&DeviceView>)
        ensures
            match r {
                Some(d) => self@.device == Some(d@),
                None => self@.device is None,
            },
    {
        match &self.device {
            Some(d) => Some(d),
            None => None,
        }
    }

    /// The sum of the data that the device confirmed.
    pub fn device_crc(&self) -> (r: Option<&str>)
        ensures
            opt_text(r) == match self@.device {
                Some(d) => Some(d.crc),
                None => None,
            },
    {
        match &self.device {
            Some(d) => Some(d.crc.as_str()),
            None => None,
        }
    }

    /// Forgets what the device confirmed.
    pub fn clear_device(&mut self)
        ensures
            final(self)@ == (PageView { device: None, ..old(self)@ }),
    {
        self.device = None;
    }

    /// Takes over what the device says that it shows. Only a whole and sound
    /// answer changes anything, and its data leave the answer.
    pub fn accept_device(&mut self, value: &mut Json) -> (r: Result<(), String>)
        ensures
            final(value)@ == data_taken(old(value)@),
            match r {
                Ok(_) => screen_accepted(old(self)@.device, old(value)@) == Ok::<
                    Option<ScreenView>,
                    Seq<char>,
                >(final(self)@.device) && final(self)@ == (PageView {
                    device: final(self)@.device,
                    ..old(self)@
                }),
                Err(e) => screen_accepted(old(self)@.device, old(value)@) == Err::<
                    Option<ScreenView>,
                    Seq<char>,
                >(e@) && final(self)@ == old(self)@,
            },
    {
        if !value.is_str("mode", "radar") {
            self.device = None;
            return Ok(());
        }
        match value.get_i64("radar_mirror_protocol") {
            Some(1) => {},
            _ => {
                return Err("请更新设备程序以回读雷达预览".to_owned());
            },
        }
        let crc = match value.get_str("crc32") {
            Some(c) => c.to_owned(),
            None => {
                return Err("设备缺少雷达 CRC".to_owned());
            },
        };
        let age = match value.get_u64("age") {
            Some(n) => n,
            None => {
                return Err("设备缺少雷达数据年龄".to_owned());
            },
        };
        let scene_seconds = match value.get_u64("scene_seconds") {
            Some(n) => n,
            None => {
                return Err("设备缺少雷达轮播时钟".to_owned());
            },
        };
        let came = match value.get("radar_data") {
            Some(raw) => Some(
                match DeviceData::read(raw) {
                    Some(d) => Ok(d),
                    None => Err(glue("设备雷达数据无效：", say(check_data(raw)).as_str())),
                },
            ),
            None => None,
        };
        value.remove("radar_data");
        let data = match came {
            Some(Ok(d)) => d,
            Some(Err(e)) => {
                return Err(e);
            },
            None => match &self.device {
                Some(d) => if same_text(&d.crc, &crc) {
                    d.data.clone()
                } else {
                    return Err("尚未完整回读雷达，请重新检测连接".to_owned());
                },
                None => {
                    return Err("尚未完整回读雷达，请重新检测连接".to_owned());
                },
            },
        };
        match data.validate() {
            Ok(_) => {},
            Err(e) => {
                return Err(e);
            },
        }
        if age < data.age || !is_short_sum(&crc) {
            return Err("雷达时钟或校验值无效".to_owned());
        }
        let previous = match &self.device {
            Some(d) => if same_text(&d.crc, &crc) {
                d.previous.clone()
            } else {
                d.data.clone()
            },
            None => data.clone(),
        };
        self.device = Some(DeviceView { data, previous, crc, age, scene_seconds });
        Ok(())
    }
}

/// Whether it is time to collect again: the page is in use, no collection is
/// under way, and the last one began at least five seconds ago.
pub fn refresh_due(active: bool, busy: bool, elapsed_ms: Option<u64>) -> (r: bool)
    ensures
        r == (active && !busy && match elapsed_ms {
            Some(ms) => ms >= 5000,
            None => true,
        }),
{
    let rested = match elapsed_ms {
        Some(ms) => ms >= 5000,
        None => true,
    };
    active && !busy && rested
}

/// What the device says of a card is read in its order: what it is called, how many
/// tasks there are, its colour, its score, its price and its minutes; and of a curve its
/// name, its colour, its requests, and those of every hour.
pub proof fn law_rows_are_read_in_order(a: Seq<JsonView>)
    ensures
        card_fields(JsonView::Array(a)) matches Some(c) ==> {
            &&& a.len() == 6
            &&& text_of(Some(a[0])) == Some(c.label)
            &&& a[1] == JsonView::Int(c.count) && 0 <= c.count <= u32::MAX
            &&& a[2] == JsonView::Int(c.color) && 0 <= c.color <= u32::MAX
            &&& a[3] == JsonView::Int(c.score)
            &&& a[4] == JsonView::Int(c.price)
            &&& a[5] == JsonView::Int(c.minutes)
        },
        series_fields(JsonView::Array(a)) matches Some(s) ==> {
            &&& a.len() == 4
            &&& text_of(Some(a[0])) == Some(s.name)
            &&& a[1] == JsonView::Int(s.color) && 0 <= s.color <= u32::MAX
            &&& a[2] == JsonView::Int(s.count) && 0 <= s.count
            &&& items_of(Some(a[3])) matches Some(h) && h.len() == 24 && s.bins.len() == 24 && forall|
                i: int,
            |
                0 <= i < 24 ==> #[trigger] h[i] == JsonView::Int(s.bins[i])
        },
{
    if series_fields(JsonView::Array(a)) is Some {
        let s = series_fields(JsonView::Array(a))->0;
        let h = a[3]->Array_0;
        assert forall|i: int| 0 <= i < 24 implies #[trigger] h[i] == JsonView::Int(s.bins[i]) by {
            assert(u64_of(Some(h[i])) is Some);
        }
    }
}

/// Radar data are what the device says they are, member by member.
pub proof fn law_data_are_what_the_device_says(v: JsonView)
    requires
        v is Object,
    ensures
        data_of(v) matches Some(d) ==> {
            let cards = items_of(at(v, "cards"@));
            let curves = items_of(at(v, "series"@));
            &&& cards is Some && cards->0.len() == d.cards.len()
            &&& forall|i: int|
                0 <= i < d.cards.len() ==> card_fields(#[trigger] cards->0[i]) == Some(d.cards[i])
            &&& curves is Some && curves->0.len() == d.series.len()
            &&& forall|i: int|
                0 <= i < d.series.len() ==> series_fields(#[trigger] curves->0[i]) == Some(
                    d.series[i],
                )
            &&& at(v, "total"@) == Some(JsonView::Int(d.total))
            &&& at(v, "reset"@) == Some(JsonView::Int(d.reset))
            &&& at(v, "age"@) == Some(JsonView::Int(d.age))
            &&& at(v, "warn"@) == Some(JsonView::Bool(d.warn))
            &&& at(v, "tasks"@) == Some(JsonView::Bool(d.tasks))
        },
{
    if data_of(v) is Some {
        let d = data_of(v)->0;
        let cards = items_of(at(v, "cards"@))->0;
        assert forall|i: int| 0 <= i < d.cards.len() implies card_fields(#[trigger] cards[i])
            == Some(d.cards[i]) by {}
        let curves = items_of(at(v, "series"@))->0;
        assert forall|i: int| 0 <= i < d.series.len() implies series_fields(#[trigger] curves[i])
            == Some(d.series[i]) by {}
    }
}

/// Two cards are on a page, and every six seconds the next page is up, after the last
/// one the first.
pub proof fn law_pages_turn_every_six_seconds(s: ScreenView, elapsed: int)
    requires
        s.scene_seconds >= 0,
        elapsed >= 0,
    ensures
        s.data.cards.len() == 0 ==> s.pages() == 1,
        s.data.cards.len() > 0 ==> 2 * s.pages() - 1 <= s.data.cards.len() <= 2 * s.pages(),
        0 <= s.page(elapsed) < s.pages(),
        s.page(elapsed + 6) == if s.page(elapsed) + 1 < s.pages() {
            s.page(elapsed) + 1
        } else {
            0
        },
        s.scene_seconds + elapsed < 6 ==> s.page(elapsed) == 0,
        (s.scene_seconds + elapsed) % 6 < 5 ==> s.page(elapsed + 1) == s.page(elapsed),
{
    let n = s.pages();
    let turn = (s.scene_seconds + elapsed) / 6;
    vstd::arithmetic::div_mod::lemma_mod_bound(turn, n);
    vstd::arithmetic::div_mod::lemma_fundamental_div_mod(turn, n);
    let q = turn / n;
    let r = turn % n;
    if r + 1 < n {
        vstd::arithmetic::div_mod::lemma_fundamental_div_mod_converse(turn + 1, n, q, r + 1);
    } else {
        assert(turn + 1 == (q + 1) * n) by (nonlinear_arith)
            requires
                turn == n * q + r,
                r + 1 == n,
        ;
        vstd::arithmetic::div_mod::lemma_fundamental_div_mod_converse(turn + 1, n, q + 1, 0);
    }
    if turn == 0 {
        vstd::arithmetic::div_mod::lemma_small_mod(0, n as nat);
    }
}

/// The time until the announced reset counts down by the second, from what it was when
/// the data were sent; it is written out while any of it is left, and the device says so
/// when it is over or when none is announced.
pub proof fn law_reset_counts_down(s: ScreenView, elapsed: int)
    ensures
        s.remaining(elapsed + 1) == s.remaining(elapsed) - 1,
        s.age == s.data.age ==> s.remaining(0) == s.data.reset,
        s.remaining(elapsed) == s.data.reset + s.data.age - s.age - elapsed,
        s.reset_text(elapsed) == if s.data.reset < 0 {
            "NO DEADLINE / SEE PC"@
        } else if s.remaining(elapsed) > 0 {
            "EST. "@ + duration_text(s.remaining(elapsed) as nat)
        } else {
            "WINDOW ENDED / CHECK PC"@
        },
{
}

/// Data count as old once more than fifteen seconds have passed since they were
/// collected; before that a warning is passed on.
pub proof fn law_old_data_are_called_old(s: ScreenView, elapsed: int)
    ensures
        s.badge(elapsed) == "USB LIVE"@ <== s.age + elapsed <= 15 && !s.data.warn,
        s.badge(elapsed) == "SOURCE WARN"@ <== s.age + elapsed <= 15 && s.data.warn,
        s.badge(elapsed) == "STALE "@ + decimal((s.age + elapsed) as nat) + "s"@ <== s.age + elapsed
            >= 16,
        s.pages_text(elapsed) == if !s.data.tasks {
            "TASK DATA UNAVAILABLE"@
        } else if s.data.cards.len() == 0 {
            "NO TASKS"@
        } else {
            "CODE  "@ + decimal((s.page(elapsed) + 1) as nat) + "/"@ + decimal(s.pages() as nat)
        },
{
}

/// The screen is what the device confirmed: the data that came along, or the known ones
/// where none came and the sum is the same, with the sum, the age and the time of the
/// scene that it named. What was in sight before stays behind until the sum changes.
pub proof fn law_screen_is_what_was_confirmed(screen: Option<ScreenView>, v: JsonView)
    ensures
        text_of(at(v, "mode"@)) != Some("radar"@) ==> screen_accepted(screen, v) == Ok::<
            Option<ScreenView>,
            Seq<char>,
        >(None),
        text_of(at(v, "mode"@)) == Some("radar"@) ==> match screen_accepted(screen, v) {
            Ok(Some(s)) => {
                &&& text_of(at(v, "crc32"@)) == Some(s.crc)
                &&& at(v, "age"@) == Some(JsonView::Int(s.age))
                &&& at(v, "scene_seconds"@) == Some(JsonView::Int(s.scene_seconds))
                &&& s.data.valid() && s.data.age <= s.age
                &&& at(v, "radar_data"@) matches Some(raw) ==> data_of(raw) == Some(s.data)
                &&& at(v, "radar_data"@) is None ==> screen is Some && screen->0.crc == s.crc
                    && screen->0.data == s.data
                &&& screen is None ==> s.previous == s.data
                &&& screen is Some && screen->0.crc == s.crc ==> s.previous == screen->0.previous
                &&& screen is Some && screen->0.crc != s.crc ==> s.previous == screen->0.data
            },
            Ok(None) => false,
            Err(_) => {
                let crc = text_of(at(v, "crc32"@));
                let age = u64_of(at(v, "age"@));
                let data = match at(v, "radar_data"@) {
                    Some(raw) => data_of(raw),
                    None => if screen is Some && crc == Some(screen->0.crc) {
                        Some(screen->0.data)
                    } else {
                        None
                    },
                };
                ||| i64_of(at(v, "radar_mirror_protocol"@)) != Some(1i64)
                ||| crc is None || age is None || u64_of(at(v, "scene_seconds"@)) is None
                ||| data is None || !data->0.valid() || age->0 < data->0.age
                ||| crc->0.len() != 8 || !hexadecimal(crc->0)
            },
        },
{
}

/// The bytes of radar data are taken out of an answer that has all that goes with them,
/// and nothing else is.
pub proof fn law_only_the_data_are_taken_out(v: JsonView, key: Seq<char>)
    ensures
        key != "radar_data"@ ==> at(data_taken(v), key) == at(v, key),
        at(v, "mode"@) != Some(JsonView::Str("radar"@)) ==> data_taken(v) == v,
        screen_accepted(None, v) matches Ok(Some(_)) ==> at(data_taken(v), "radar_data"@) is None,
{
}

} // verus!
