//! The radar snapshot: counting tasks and requests, reading what the public
//! site says, and packing all of it for the device.

use vstd::prelude::*;

use crate::json::{
    at, at_in, empty_object, i64_of, items_of, member, models, put, same_text, text_at, text_of,
    Json, JsonView,
};
use crate::radar::{
    card_views, counts_total, data_of, ints, law_radar_data_read_back, series_views, total_of, Card,
    CardView, DataView, DeviceData, Series, SeriesView, COUNT_LIMIT,
};
use crate::text::{ascii, ascii_head, ascii_label, glue};

verus! {

/// The scores of one model, scaled to whole hundredths of a point, cents and
/// tenths of a minute; `None` for a number that is negative or not finite.
#[derive(Debug, Clone, Copy)]
pub struct Scaled {
    pub score: Option<i64>,
    pub price: Option<i64>,
    pub minutes: Option<i64>,
}

/// Name and colour of the models that have their own.
pub open spec fn palette(model: Seq<char>) -> Option<(Seq<char>, int)> {
    if model == "gpt-6-astra"@ {
        Some(("Astra"@, 0xFF7E1D))
    } else if model == "gpt-5.6-sol"@ {
        Some(("Sol"@, 0xF2C20E))
    } else if model == "gpt-5.6-terra"@ {
        Some(("Terra"@, 0x589FFF))
    } else if model == "gpt-5.6-luna"@ {
        Some(("Luna"@, 0xB6C4D7))
    } else if model == "gpt-5.5"@ {
        Some(("5.5"@, 0x24D7EA))
    } else {
        None
    }
}

/// Name and colour of any model.
pub open spec fn named(model: Seq<char>, length: nat) -> (Seq<char>, int) {
    match palette(model) {
        Some(entry) => entry,
        None => (ascii_head(model, length), 0xB186EF),
    }
}

fn name_model(model: &str, length: usize) -> (r: (String, u32))
    requires
        5 <= length,
    ensures
        (r.0@, r.1 as int) == named(model@, length as nat),
        r.1 <= 0xffffff,
        ascii(r.0@),
        r.0@.len() <= length,
{
    proof {
        reveal_strlit("Astra");
        reveal_strlit("Sol");
        reveal_strlit("Terra");
        reveal_strlit("Luna");
        reveal_strlit("5.5");
    }
    if same_text(model, "gpt-6-astra") {
        ("Astra".to_owned(), 0xFF7E1D)
    } else if same_text(model, "gpt-5.6-sol") {
        ("Sol".to_owned(), 0xF2C20E)
    } else if same_text(model, "gpt-5.6-terra") {
        ("Terra".to_owned(), 0x589FFF)
    } else if same_text(model, "gpt-5.6-luna") {
        ("Luna".to_owned(), 0xB6C4D7)
    } else if same_text(model, "gpt-5.5") {
        ("5.5".to_owned(), 0x24D7EA)
    } else {
        (ascii_label(model, length), 0xB186EF)
    }
}

/// A number in the range of the device.
pub open spec fn bounded(n: int, maximum: int) -> Result<int, Seq<char>> {
    if 0 <= n <= maximum {
        Ok(n)
    } else {
        Err("雷达计数超出设备范围"@)
    }
}

fn check_bound(n: i128, maximum: i64) -> (r: Result<i64, String>)
    requires
        maximum >= 0,
    ensures
        match r {
            Ok(v) => bounded(n as int, maximum as int) == Ok::<int, Seq<char>>(v as int) && v == n,
            Err(e) => bounded(n as int, maximum as int) == Err::<int, Seq<char>>(e@),
        },
{
    if 0 <= n && n <= maximum as i128 {
        Ok(n as i64)
    } else {
        Err("雷达计数超出设备范围".to_owned())
    }
}

/// Whether a point holds the scores of a model at an effort.
pub open spec fn scores_of(point: JsonView, model: Seq<char>, effort: Seq<char>) -> bool {
    text_of(at(point, "model"@)) == Some(model) && text_of(at(point, "effort"@)) == Some(effort)
}

/// The last point with the scores of a model at an effort, -1 without one.
pub open spec fn score_index(points: Seq<JsonView>, model: Seq<char>, effort: Seq<char>) -> int
    decreases points.len(),
{
    if points.len() == 0 {
        -1
    } else if scores_of(points.last(), model, effort) {
        points.len() - 1
    } else {
        score_index(points.drop_last(), model, effort)
    }
}

fn find_scores(points: &Vec<Json>, model: &str, effort: &str) -> (r: Option<usize>)
    ensures
        match r {
            Some(i) => i < points@.len() && score_index(models(points@), model@, effort@) == i,
            None => score_index(models(points@), model@, effort@) == -1,
        },
{
    let mut i: usize = points.len();
    assert(models(points@).take(i as int) =~= models(points@));
    while i > 0
        invariant
            i <= points@.len(),
            score_index(models(points@), model@, effort@) == score_index(
                models(points@).take(i as int),
                model@,
                effort@,
            ),
        decreases i,
    {
        proof {
            assert(models(points@).take(i as int).drop_last() =~= models(points@).take(i - 1));
            assert(models(points@).take(i as int).last() == points@[i - 1]@);
        }
        i -= 1;
        if points[i].is_str("model", model) && points[i].is_str("effort", effort) {
            return Some(i);
        }
    }
    None
}

/// One value of a card: missing, or scaled and in the range of the device.
pub open spec fn score_value(
    points: Seq<JsonView>,
    i: int,
    key: Seq<char>,
    scaled: Option<i64>,
) -> Result<int, Seq<char>> {
    if i < 0 {
        Ok(-1)
    } else {
        match at(points[i], key) {
            None => Ok(-1),
            Some(JsonView::Null) => Ok(-1),
            Some(_) => match scaled {
                Some(n) => bounded(n as int, COUNT_LIMIT as int),
                None => Err("编码评分字段无效"@),
            },
        }
    }
}

fn pick_value(points: &Vec<Json>, i: Option<usize>, key: &str, scaled: Option<i64>) -> (r: Result<
    i32,
    String,
>)
    requires
        match i {
            Some(n) => n < points@.len(),
            None => true,
        },
    ensures
        ({
            let n = match i {
                Some(n) => n as int,
                None => -1,
            };
            match r {
                Ok(v) => score_value(models(points@), n, key@, scaled) == Ok::<int, Seq<char>>(
                    v as int,
                ) && -1 <= v <= 10_000_000,
                Err(e) => score_value(models(points@), n, key@, scaled) == Err::<int, Seq<char>>(e@),
            }
        }),
{
    match i {
        None => Ok(-1),
        Some(n) => {
            assert(models(points@)[n as int] == points@[n as int]@);
            match points[n].get(key) {
                None => Ok(-1),
                Some(v) => {
                    if v.is_null() {
                        return Ok(-1);
                    }
                    match scaled {
                        Some(x) => match check_bound(x as i128, COUNT_LIMIT) {
                            Ok(b) => Ok(b as i32),
                            Err(e) => Err(e),
                        },
                        None => Err("编码评分字段无效".to_owned()),
                    }
                },
            }
        },
    }
}

/// The scaled scores of a point.
pub open spec fn scaled_at(scaled: Seq<Scaled>, i: int) -> Scaled {
    if 0 <= i < scaled.len() {
        scaled[i]
    } else {
        Scaled { score: None, price: None, minutes: None }
    }
}

/// A number, or zero where it is missing.
pub open spec fn int_or_zero(v: Option<JsonView>) -> int {
    match i64_of(v) {
        Some(n) => n as int,
        None => 0,
    }
}

/// The label of a card.
pub open spec fn caption(name: Seq<char>, effort: Seq<char>) -> Seq<char> {
    if effort == "unknown"@ {
        name
    } else {
        name + " "@ + effort
    }
}

/// The card of one combination of model and effort.
pub open spec fn card_of(
    combo: JsonView,
    points: Seq<JsonView>,
    scaled: Seq<Scaled>,
) -> Result<CardView, Seq<char>> {
    let model = text_at(combo, "model"@, ""@);
    let effort = text_at(combo, "effort"@, "unknown"@);
    let (name, color) = named(model, 10);
    let i = score_index(points, model, effort);
    let values = scaled_at(scaled, i);
    match score_value(points, i, "score"@, values.score) {
        Err(e) => Err(e),
        Ok(score) => match score_value(points, i, "price"@, values.price) {
            Err(e) => Err(e),
            Ok(price) => match score_value(points, i, "minutes"@, values.minutes) {
                Err(e) => Err(e),
                Ok(minutes) => match bounded(int_or_zero(at(combo, "count"@)), 10) {
                    Err(e) => Err(e),
                    Ok(count) => Ok(
                        CardView {
                            label: ascii_head(caption(name, effort), 20),
                            count,
                            color,
                            score,
                            price,
                            minutes,
                        },
                    ),
                },
            },
        },
    }
}

fn make_card(combo: &Json, points: &Vec<Json>, scaled: &Vec<Scaled>) -> (r: Result<Card, String>)
    ensures
        match r {
            Ok(c) => card_of(combo@, models(points@), scaled@) == Ok::<CardView, Seq<char>>(c@)
                && c@.valid(),
            Err(e) => card_of(combo@, models(points@), scaled@) == Err::<CardView, Seq<char>>(e@),
        },
{
    let model = match combo.get_str("model") {
        Some(s) => s,
        None => "",
    };
    let effort = match combo.get_str("effort") {
        Some(s) => s,
        None => "unknown",
    };
    let (name, color) = name_model(model, 10);
    let i = find_scores(points, model, effort);
    let mut values = Scaled { score: None, price: None, minutes: None };
    match i {
        Some(n) => {
            if n < scaled.len() {
                values = scaled[n];
            }
        },
        None => {},
    }
    let score = pick_value(points, i, "score", values.score)?;
    let price = pick_value(points, i, "price", values.price)?;
    let minutes = pick_value(points, i, "minutes", values.minutes)?;
    let title = if same_text(effort, "unknown") {
        name
    } else {
        let head = glue(name.as_str(), " ");
        glue(head.as_str(), effort)
    };
    let count = match combo.get_i64("count") {
        Some(n) => n,
        None => 0,
    };
    let count = check_bound(count as i128, 10)?;
    Ok(Card(ascii_label(title.as_str(), 20), count as u32, color, score, price, minutes))
}

/// The cards of some combinations, or what is wrong with the first bad one.
pub open spec fn cards_of(
    combos: Seq<JsonView>,
    points: Seq<JsonView>,
    scaled: Seq<Scaled>,
) -> Result<Seq<CardView>, Seq<char>>
    decreases combos.len(),
{
    if combos.len() == 0 {
        Ok(Seq::empty())
    } else {
        match cards_of(combos.drop_last(), points, scaled) {
            Err(e) => Err(e),
            Ok(done) => match card_of(combos.last(), points, scaled) {
                Err(e) => Err(e),
                Ok(card) => Ok(done.push(card)),
            },
        }
    }
}

proof fn lemma_cards_fail(
    combos: Seq<JsonView>,
    points: Seq<JsonView>,
    scaled: Seq<Scaled>,
    n: int,
)
    requires
        0 <= n <= combos.len(),
        cards_of(combos.take(n), points, scaled) is Err,
    ensures
        cards_of(combos, points, scaled) == cards_of(combos.take(n), points, scaled),
    decreases combos.len() - n,
{
    if n < combos.len() {
        assert(combos.take(n + 1).drop_last() =~= combos.take(n));
        lemma_cards_fail(combos, points, scaled, n + 1);
    } else {
        assert(combos.take(n) =~= combos);
    }
}

fn make_cards(combos: &Vec<Json>, points: &Vec<Json>, scaled: &Vec<Scaled>) -> (r: Result<
    Vec<Card>,
    String,
>)
    ensures
        match r {
            Ok(cards) => cards_of(models(combos@), models(points@), scaled@) == Ok::<
                Seq<CardView>,
                Seq<char>,
            >(card_views(cards@)) && forall|i: int|
                0 <= i < cards@.len() ==> (#[trigger] card_views(cards@)[i]).valid(),
            Err(e) => cards_of(models(combos@), models(points@), scaled@) == Err::<
                Seq<CardView>,
                Seq<char>,
            >(e@),
        },
{
    let ghost all = models(combos@);
    let mut cards: Vec<Card> = Vec::new();
    let mut i: usize = 0;
    assert(all.take(0) =~= Seq::empty());
    assert(card_views(cards@) =~= Seq::empty());
    while i < combos.len()
        invariant
            i <= combos@.len(),
            all == models(combos@),
            cards_of(all.take(i as int), models(points@), scaled@) == Ok::<
                Seq<CardView>,
                Seq<char>,
            >(card_views(cards@)),
            forall|k: int| 0 <= k < cards@.len() ==> (#[trigger] card_views(cards@)[k]).valid(),
        decreases combos@.len() - i,
    {
        proof {
            assert(all.take(i as int + 1).drop_last() =~= all.take(i as int));
            assert(all.take(i as int + 1).last() == combos@[i as int]@);
        }
        match make_card(&combos[i], points, scaled) {
            Ok(card) => {
                let ghost before = cards@;
                cards.push(card);
                assert(card_views(cards@) =~= card_views(before).push(card@));
            },
            Err(e) => {
                proof {
                    lemma_cards_fail(all, models(points@), scaled@, i as int + 1);
                }
                return Err(e);
            },
        }
        i += 1;
    }
    assert(all.take(all.len() as int) =~= all);
    Ok(cards)
}

/// The numbers of an array, zero for what is none.
pub open spec fn numbers(items: Seq<JsonView>) -> Seq<int> {
    Seq::new(items.len(), |i: int| int_or_zero(Some(items[i])))
}

/// Quarters of an hour, four by four.
pub open spec fn hours(quarters: Seq<int>) -> Seq<int> {
    Seq::new(
        24,
        |h: int|
            quarters[4 * h] + quarters[4 * h + 1] + quarters[4 * h + 2] + quarters[4 * h + 3],
    )
}

/// Whether every number is in the range of the device.
pub open spec fn all_bounded(v: Seq<int>) -> bool {
    forall|i: int| 0 <= i < v.len() ==> 0 <= #[trigger] v[i] <= COUNT_LIMIT
}

/// The hours of a model whose 96 quarters add up to its count.
pub open spec fn row_hours(row: JsonView) -> Result<Seq<int>, Seq<char>> {
    match items_of(at(row, "bins"@)) {
        None => Err("请求趋势与计数不一致"@),
        Some(bins) => if bins.len() != 96 || total_of(numbers(bins)) != int_or_zero(
            at(row, "count"@),
        ) {
            Err("请求趋势与计数不一致"@)
        } else if !all_bounded(hours(numbers(bins))) {
            Err("雷达计数超出设备范围"@)
        } else {
            Ok(hours(numbers(bins)))
        },
    }
}

/// Summing up in groups of four changes nothing.
proof fn lemma_hours_total(quarters: Seq<int>, n: int)
    requires
        quarters.len() == 96,
        0 <= n <= 24,
    ensures
        total_of(hours(quarters).take(n)) == total_of(quarters.take(4 * n)),
    decreases n,
{
    if n == 0 {
        assert(hours(quarters).take(0) =~= Seq::empty());
        assert(quarters.take(0) =~= Seq::empty());
    } else {
        lemma_hours_total(quarters, n - 1);
        let h = hours(quarters).take(n);
        assert(h.drop_last() =~= hours(quarters).take(n - 1));
        let a = quarters.take(4 * n);
        assert(a.drop_last() =~= quarters.take(4 * n - 1));
        assert(a.drop_last().drop_last() =~= quarters.take(4 * n - 2));
        assert(a.drop_last().drop_last().drop_last() =~= quarters.take(4 * n - 3));
        assert(a.drop_last().drop_last().drop_last().drop_last() =~= quarters.take(4 * (n - 1)));
        assert(total_of(quarters.take(4 * n)) == total_of(quarters.take(4 * n - 1)) + quarters[4 * n
            - 1]);
        assert(total_of(quarters.take(4 * n - 1)) == total_of(quarters.take(4 * n - 2))
            + quarters[4 * n - 2]);
        assert(total_of(quarters.take(4 * n - 2)) == total_of(quarters.take(4 * n - 3))
            + quarters[4 * n - 3]);
        assert(total_of(quarters.take(4 * n - 3)) == total_of(quarters.take(4 * (n - 1)))
            + quarters[4 * n - 4]);
    }
}

/// Numbers read out of an array, with their sum.
fn read_numbers(items: &Vec<Json>) -> (r: (Vec<i64>, i128))
    requires
        items@.len() <= 96,
    ensures
        r.0@.len() == items@.len(),
        forall|i: int| 0 <= i < r.0@.len() ==> (#[trigger] r.0@[i]) == numbers(models(items@))[i],
        r.1 == total_of(numbers(models(items@))),
{
    let ghost all = numbers(models(items@));
    let mut out: Vec<i64> = Vec::new();
    let mut sum: i128 = 0;
    let mut i: usize = 0;
    while i < items.len()
        invariant
            i <= items@.len() <= 96,
            all == numbers(models(items@)),
            out@.len() == i,
            forall|k: int| 0 <= k < i ==> (#[trigger] out@[k]) == all[k],
            sum == total_of(all.take(i as int)),
            -0x8000_0000_0000_0000 * i <= sum <= 0x7fff_ffff_ffff_ffff * i,
        decreases items@.len() - i,
    {
        let n = match items[i].as_i64() {
            Some(v) => v,
            None => 0,
        };
        proof {
            assert(models(items@)[i as int] == items@[i as int]@);
            assert(all.take(i as int + 1).drop_last() =~= all.take(i as int));
        }
        out.push(n);
        sum = sum + n as i128;
        i += 1;
    }
    assert(all.take(all.len() as int) =~= all);
    (out, sum)
}

fn read_hours(row: &Json) -> (r: Result<Vec<u64>, String>)
    ensures
        match r {
            Ok(v) => row_hours(row@) == Ok::<Seq<int>, Seq<char>>(ints(v@)) && v@.len() == 24
                && all_bounded(ints(v@)) && total_of(ints(v@)) == int_or_zero(at(row@, "count"@)),
            Err(e) => row_hours(row@) == Err::<Seq<int>, Seq<char>>(e@),
        },
{
    let bins = match row.get_array("bins") {
        Some(b) => b,
        None => {
            return Err("请求趋势与计数不一致".to_owned());
        },
    };
    let count = match row.get_i64("count") {
        Some(n) => n,
        None => 0,
    };
    if bins.len() != 96 {
        return Err("请求趋势与计数不一致".to_owned());
    }
    let (quarters, sum) = read_numbers(bins);
    if sum != count as i128 {
        return Err("请求趋势与计数不一致".to_owned());
    }
    let ghost all = numbers(models(bins@));
    let ghost target = hours(all);
    let mut out: Vec<u64> = Vec::new();
    let mut h: usize = 0;
    while h < 24
        invariant
            h <= 24,
            quarters@.len() == 96,
            all.len() == 96,
            forall|i: int| 0 <= i < 96 ==> (#[trigger] quarters@[i]) == all[i],
            target == hours(all),
            items_of(at(row@, "bins"@)) == Some(models(bins@)),
            all == numbers(models(bins@)),
            total_of(all) == int_or_zero(at(row@, "count"@)),
            out@.len() == h,
            forall|k: int|
                0 <= k < h ==> (#[trigger] out@[k]) == target[k] && 0 <= target[k] <= COUNT_LIMIT,
        decreases 24 - h,
    {
        let i: usize = 4 * h;
        let four: i128 = quarters[i] as i128 + quarters[i + 1] as i128 + quarters[i + 2] as i128
            + quarters[i + 3] as i128;
        assert(four == target[h as int]);
        match check_bound(four, COUNT_LIMIT) {
            Ok(v) => {
                out.push(v as u64);
            },
            Err(e) => {
                return Err(e);
            },
        }
        h += 1;
    }
    proof {
        assert(ints(out@) =~= target);
        lemma_hours_total(all, 24);
        assert(target.take(24) =~= target);
        assert(all.take(96) =~= all);
    }
    Ok(out)
}

/// Two curves added up, hour by hour.
pub open spec fn sums(a: Seq<int>, b: Seq<int>) -> Seq<int> {
    Seq::new(a.len(), |i: int| a[i] + b[i])
}

proof fn lemma_sums_total(a: Seq<int>, b: Seq<int>)
    requires
        a.len() == b.len(),
    ensures
        total_of(sums(a, b)) == total_of(a) + total_of(b),
    decreases a.len(),
{
    if a.len() > 0 {
        lemma_sums_total(a.drop_last(), b.drop_last());
        assert(sums(a, b).drop_last() =~= sums(a.drop_last(), b.drop_last()));
    }
}

/// The curves with one more model: the first three for themselves, all others
/// together as the fourth.
pub open spec fn with_row(series: Seq<SeriesView>, index: int, row: JsonView) -> Result<
    Seq<SeriesView>,
    Seq<char>,
> {
    let count = int_or_zero(at(row, "count"@));
    match row_hours(row) {
        Err(e) => Err(e),
        Ok(bins) => if index <= 3 {
            let (name, color) = if index < 3 {
                named(text_at(row, "model"@, ""@), 8)
            } else {
                ("Other"@, 0xB186EF)
            };
            match bounded(count, COUNT_LIMIT as int) {
                Err(e) => Err(e),
                Ok(n) => Ok(series.push(SeriesView { name, color, count: n, bins })),
            }
        } else {
            let other = series[3];
            match bounded(other.count + count, COUNT_LIMIT as int) {
                Err(e) => Err(e),
                Ok(n) => if all_bounded(sums(other.bins, bins)) {
                    Ok(
                        series.update(
                            3,
                            SeriesView {
                                name: other.name,
                                color: other.color,
                                count: n,
                                bins: sums(other.bins, bins),
                            },
                        ),
                    )
                } else {
                    Err("雷达计数超出设备范围"@)
                },
            }
        },
    }
}

/// The curves of some models, or what is wrong with the first bad one.
pub open spec fn series_of(rows: Seq<JsonView>) -> Result<Seq<SeriesView>, Seq<char>>
    decreases rows.len(),
{
    if rows.len() == 0 {
        Ok(Seq::empty())
    } else {
        match series_of(rows.drop_last()) {
            Err(e) => Err(e),
            Ok(done) => with_row(done, rows.len() - 1, rows.last()),
        }
    }
}

proof fn lemma_series_fail(rows: Seq<JsonView>, n: int)
    requires
        0 <= n <= rows.len(),
        series_of(rows.take(n)) is Err,
    ensures
        series_of(rows) == series_of(rows.take(n)),
    decreases rows.len() - n,
{
    if n < rows.len() {
        assert(rows.take(n + 1).drop_last() =~= rows.take(n));
        lemma_series_fail(rows, n + 1);
    } else {
        assert(rows.take(n) =~= rows);
    }
}

/// Whether curves are those of a number of models.
pub open spec fn series_sound(series: Seq<SeriesView>, rows: int) -> bool {
    &&& series.len() == if rows <= 4 {
        rows
    } else {
        4
    }
    &&& forall|i: int| 0 <= i < series.len() ==> (#[trigger] series[i]).valid()
}

fn add_row(series: &mut Vec<Series>, index: usize, row: &Json) -> (r: Result<(), String>)
    requires
        series_sound(series_views(old(series)@), index as int),
    ensures
        match r {
            Ok(_) => with_row(series_views(old(series)@), index as int, row@) == Ok::<
                Seq<SeriesView>,
                Seq<char>,
            >(series_views(final(series)@)) && series_sound(
                series_views(final(series)@),
                index + 1,
            ),
            Err(e) => with_row(series_views(old(series)@), index as int, row@) == Err::<
                Seq<SeriesView>,
                Seq<char>,
            >(e@),
        },
{
    let ghost before = series_views(series@);
    let bins = read_hours(row)?;
    let count = match row.get_i64("count") {
        Some(n) => n,
        None => 0,
    };
    if index <= 3 {
        let (name, color): (String, u32) = if index < 3 {
            let model = match row.get_str("model") {
                Some(s) => s,
                None => "",
            };
            name_model(model, 8)
        } else {
            proof {
                reveal_strlit("Other");
            }
            ("Other".to_owned(), 0xB186EF)
        };
        let n = check_bound(count as i128, COUNT_LIMIT)?;
        let entry = Series(name, color, n as u64, bins);
        series.push(entry);
        proof {
            assert(series_views(series@) =~= before.push(entry@));
            assert(series_views(series@)[index as int] == entry@);
            assert forall|i: int| 0 <= i < series_views(series@).len() implies (
            #[trigger] series_views(series@)[i]).valid() by {
                if i < index {
                    assert(series_views(series@)[i] == before[i]);
                }
            }
        }
        Ok(())
    } else {
        assert(before[3] == series@[3]@);
        let n = check_bound(series[3].2 as i128 + count as i128, COUNT_LIMIT)?;
        let ghost old_bins = before[3].bins;
        let ghost target = sums(old_bins, ints(bins@));
        let mut merged: Vec<u64> = Vec::new();
        let mut i: usize = 0;
        while i < 24
            invariant
                i <= 24,
                bins@.len() == 24,
                series@.len() == 4,
                series@[3].3@.len() == 24,
                before == series_views(series@),
                series_views(series@) == series_views(old(series)@),
                old_bins == ints(series@[3].3@),
                all_bounded(old_bins),
                all_bounded(ints(bins@)),
                target == sums(old_bins, ints(bins@)),
                merged@.len() == i,
                forall|k: int|
                    0 <= k < i ==> (#[trigger] merged@[k]) == target[k] && 0 <= target[k]
                        <= COUNT_LIMIT,
                before[3].bins == old_bins,
                index > 3,
                row_hours(row@) == Ok::<Seq<int>, Seq<char>>(ints(bins@)),
                bounded(before[3].count + int_or_zero(at(row@, "count"@)), COUNT_LIMIT as int)
                    == Ok::<int, Seq<char>>(n as int),
            decreases 24 - i,
        {
            proof {
                assert(old_bins[i as int] == series@[3].3@[i as int]);
                assert(ints(bins@)[i as int] == bins@[i as int]);
            }
            match check_bound(series[3].3[i] as i128 + bins[i] as i128, COUNT_LIMIT) {
                Ok(v) => {
                    merged.push(v as u64);
                },
                Err(e) => {
                    assert(!all_bounded(target)) by {
                        assert(target[i as int] > COUNT_LIMIT || target[i as int] < 0);
                    }
                    return Err(e);
                },
            }
            i += 1;
        }
        let name = series[3].0.clone();
        let color = series[3].1;
        let entry = Series(name, color, n as u64, merged);
        series.set(3, entry);
        proof {
            assert(ints(merged@) =~= target);
            lemma_sums_total(old_bins, ints(bins@));
            assert(series_views(series@) =~= before.update(3, entry@));
            assert(entry@.valid());
            assert forall|i: int| 0 <= i < series_views(series@).len() implies (
            #[trigger] series_views(series@)[i]).valid() by {
                if i != 3 {
                    assert(series_views(series@)[i] == before[i]);
                }
            }
        }
        Ok(())
    }
}

fn make_series(rows: &Vec<Json>) -> (r: Result<Vec<Series>, String>)
    ensures
        match r {
            Ok(v) => series_of(models(rows@)) == Ok::<Seq<SeriesView>, Seq<char>>(series_views(v@))
                && series_sound(series_views(v@), rows@.len() as int),
            Err(e) => series_of(models(rows@)) == Err::<Seq<SeriesView>, Seq<char>>(e@),
        },
{
    let ghost all = models(rows@);
    let mut series: Vec<Series> = Vec::new();
    let mut i: usize = 0;
    assert(all.take(0) =~= Seq::empty());
    assert(series_views(series@) =~= Seq::empty());
    while i < rows.len()
        invariant
            i <= rows@.len(),
            all == models(rows@),
            series_of(all.take(i as int)) == Ok::<Seq<SeriesView>, Seq<char>>(
                series_views(series@),
            ),
            series_sound(series_views(series@), i as int),
        decreases rows@.len() - i,
    {
        proof {
            assert(all.take(i as int + 1).drop_last() =~= all.take(i as int));
            assert(all.take(i as int + 1).last() == rows@[i as int]@);
            assert(all.take(i as int + 1).len() == i + 1);
        }
        match add_row(&mut series, i, &rows[i]) {
            Ok(_) => {},
            Err(e) => {
                proof {
                    lemma_series_fail(all, i as int + 1);
                }
                return Err(e);
            },
        }
        i += 1;
    }
    assert(all.take(all.len() as int) =~= all);
    Ok(series)
}

/// The requests of a snapshot: their number, -1 where it is unknown, and the
/// curves, whose counts must add up to it.
pub open spec fn usage_of(usage: Option<JsonView>) -> Result<(int, Seq<SeriesView>), Seq<char>> {
    match usage {
        None => Ok((-1, Seq::empty())),
        Some(JsonView::Null) => Ok((-1, Seq::empty())),
        Some(u) => match bounded(int_or_zero(at(u, "total"@)), COUNT_LIMIT as int) {
            Err(e) => Err(e),
            Ok(total) => match items_of(at(u, "models"@)) {
                None => Err("请求趋势与计数不一致"@),
                Some(rows) => match series_of(rows) {
                    Err(e) => Err(e),
                    Ok(series) => if counts_total(series) == total {
                        Ok((total, series))
                    } else {
                        Err("模型计数与总请求数不一致"@)
                    },
                },
            },
        },
    }
}

fn make_usage(usage: Option<&Json>) -> (r: Result<(i64, Vec<Series>), String>)
    ensures
        match r {
            Ok((total, series)) => {
                &&& usage_of(crate::json::option_view(usage)) == Ok::<
                    (int, Seq<SeriesView>),
                    Seq<char>,
                >((total as int, series_views(series@)))
                &&& -1 <= total <= COUNT_LIMIT
                &&& total == -1 ==> series@.len() == 0
                &&& total >= 0 ==> counts_total(series_views(series@)) == total
                &&& series@.len() <= 4
                &&& forall|i: int|
                    0 <= i < series@.len() ==> (#[trigger] series_views(series@)[i]).valid()
            },
            Err(e) => usage_of(crate::json::option_view(usage)) == Err::<
                (int, Seq<SeriesView>),
                Seq<char>,
            >(e@),
        },
{
    let empty: Vec<Series> = Vec::new();
    assert(series_views(empty@) =~= Seq::empty());
    let u = match usage {
        Some(u) => u,
        None => {
            return Ok((-1, empty));
        },
    };
    if u.is_null() {
        return Ok((-1, empty));
    }
    let total = match u.get_i64("total") {
        Some(n) => n,
        None => 0,
    };
    let total = check_bound(total as i128, COUNT_LIMIT)?;
    let rows = match u.get_array("models") {
        Some(r) => r,
        None => {
            return Err("请求趋势与计数不一致".to_owned());
        },
    };
    let series = make_series(rows)?;
    let mut sum: i64 = 0;
    let mut i: usize = 0;
    while i < series.len()
        invariant
            i <= series@.len() <= 4,
            series_views(series@).len() == series@.len(),
            forall|k: int| 0 <= k < series@.len() ==> (#[trigger] series_views(series@)[k]).valid(),
            sum == counts_total(series_views(series@).take(i as int)),
            0 <= sum <= i * 10_000_000,
        decreases series@.len() - i,
    {
        proof {
            assert(series_views(series@).take(i as int + 1).drop_last() =~= series_views(
                series@,
            ).take(i as int));
            assert(series_views(series@)[i as int] == series@[i as int]@);
        }
        sum = sum + series[i].2 as i64;
        i += 1;
    }
    assert(series_views(series@).take(series@.len() as int) =~= series_views(series@));
    if sum != total {
        return Err("模型计数与总请求数不一致".to_owned());
    }
    Ok((total, series))
}

/// The seconds until the announced reset, -1 without an announcement.
pub open spec fn reset_of(snapshot: JsonView, now: int) -> Result<int, Seq<char>> {
    match i64_of(at_in(snapshot, "reset"@, "deadline"@)) {
        None => Ok(-1),
        Some(deadline) => {
            let left = if deadline > now {
                deadline - now
            } else {
                0
            };
            if left > COUNT_LIMIT {
                Err("重置预告时间超出设备范围"@)
            } else {
                Ok(left)
            }
        },
    }
}

/// A snapshot packed for the device; what is too old or out of range is refused.
pub open spec fn compacted(snapshot: JsonView, now: int, scaled: Seq<Scaled>) -> Result<
    DataView,
    Seq<char>,
> {
    match i64_of(at(snapshot, "collected_at"@)) {
        None => Err("雷达数据已过期，请等待新采集结果"@),
        Some(collected) => if !(0 <= now - collected <= 30) {
            Err("雷达数据已过期，请等待新采集结果"@)
        } else {
            let points = match items_of(at_in(snapshot, "scores"@, "points"@)) {
                Some(p) => p,
                None => Seq::empty(),
            };
            let combos = match items_of(at_in(snapshot, "tasks"@, "combos"@)) {
                Some(c) => c,
                None => Seq::empty(),
            };
            match cards_of(combos, points, scaled) {
                Err(e) => Err(e),
                Ok(cards) => if cards.len() > 10 {
                    Err("任务卡片超过十种组合"@)
                } else {
                    match usage_of(at(snapshot, "usage"@)) {
                        Err(e) => Err(e),
                        Ok((total, series)) => match reset_of(snapshot, now) {
                            Err(e) => Err(e),
                            Ok(reset) => Ok(
                                DataView {
                                    cards,
                                    series,
                                    total,
                                    reset,
                                    age: now - collected,
                                    warn: match items_of(at(snapshot, "errors"@)) {
                                        Some(errors) => errors.len() > 0,
                                        None => false,
                                    },
                                    tasks: at(snapshot, "tasks"@) is Some && !(at(
                                        snapshot,
                                        "tasks"@,
                                    )->0 is Null),
                                },
                            ),
                        },
                    }
                },
            }
        },
    }
}

/// Packs a snapshot for the device.
///
/// What comes out is in the range of the device, and its counts add up.
pub fn compact_data(snapshot: &Json, now: i64, scaled: &Vec<Scaled>) -> (r: Result<
    DeviceData,
    String,
>)
    ensures
        match r {
            Ok(d) => compacted(snapshot@, now as int, scaled@) == Ok::<DataView, Seq<char>>(d@)
                && d@.valid(),
            Err(e) => compacted(snapshot@, now as int, scaled@) == Err::<DataView, Seq<char>>(e@),
        },
{
    let collected = match snapshot.get_i64("collected_at") {
        Some(n) => n,
        None => {
            return Err("雷达数据已过期，请等待新采集结果".to_owned());
        },
    };
    let age: i128 = now as i128 - collected as i128;
    if age < 0 || age > 30 {
        return Err("雷达数据已过期，请等待新采集结果".to_owned());
    }
    let nothing: Vec<Json> = Vec::new();
    assert(models(nothing@) =~= Seq::empty());
    let points = match snapshot.get_in("scores", "points") {
        Some(v) => match v.as_array() {
            Some(p) => p,
            None => &nothing,
        },
        None => &nothing,
    };
    let combos = match snapshot.get_in("tasks", "combos") {
        Some(v) => match v.as_array() {
            Some(c) => c,
            None => &nothing,
        },
        None => &nothing,
    };
    let cards = make_cards(combos, points, scaled)?;
    assert(card_views(cards@).len() == cards@.len());
    if cards.len() > 10 {
        return Err("任务卡片超过十种组合".to_owned());
    }
    let (total, series) = make_usage(snapshot.get("usage"))?;
    let deadline = match snapshot.get_in("reset", "deadline") {
        Some(v) => v.as_i64(),
        None => None,
    };
    let reset: i64 = match deadline {
        None => -1,
        Some(d) => {
            let left: i128 = if d > now {
                d as i128 - now as i128
            } else {
                0
            };
            if left > COUNT_LIMIT as i128 {
                return Err("重置预告时间超出设备范围".to_owned());
            }
            left as i64
        },
    };
    let warn = match snapshot.get_array("errors") {
        Some(errors) => errors.len() > 0,
        None => false,
    };
    let tasks = match snapshot.get("tasks") {
        Some(t) => !t.is_null(),
        None => false,
    };
    Ok(DeviceData { cards, series, total, reset, age: age as u64, warn, tasks })
}

/// A card as JSON.
pub open spec fn card_json(c: CardView) -> JsonView {
    JsonView::Array(
        seq![
            JsonView::Str(c.label),
            JsonView::Int(c.count),
            JsonView::Int(c.color),
            JsonView::Int(c.score),
            JsonView::Int(c.price),
            JsonView::Int(c.minutes),
        ],
    )
}

/// A curve as JSON.
pub open spec fn series_json(s: SeriesView) -> JsonView {
    JsonView::Array(
        seq![
            JsonView::Str(s.name),
            JsonView::Int(s.color),
            JsonView::Int(s.count),
            JsonView::Array(Seq::new(s.bins.len(), |i: int| JsonView::Int(s.bins[i]))),
        ],
    )
}

/// The data of the radar scene as JSON.
pub open spec fn data_json(d: DataView) -> JsonView {
    put(
        put(
            put(
                put(
                    put(
                        put(
                            put(
                                empty_object(),
                                "cards"@,
                                JsonView::Array(
                                    Seq::new(d.cards.len(), |i: int| card_json(d.cards[i])),
                                ),
                            ),
                            "series"@,
                            JsonView::Array(
                                Seq::new(d.series.len(), |i: int| series_json(d.series[i])),
                            ),
                        ),
                        "total"@,
                        JsonView::Int(d.total),
                    ),
                    "reset"@,
                    JsonView::Int(d.reset),
                ),
                "age"@,
                JsonView::Int(d.age),
            ),
            "warn"@,
            JsonView::Bool(d.warn),
        ),
        "tasks"@,
        JsonView::Bool(d.tasks),
    )
}

impl Card {
    fn to_json(&self) -> (r: Json)
        ensures
            r@ == card_json(self@),
    {
        let mut out: Vec<Json> = Vec::new();
        out.push(Json::text(self.0.as_str()));
        out.push(Json::Uint(self.1 as u64));
        out.push(Json::Uint(self.2 as u64));
        out.push(Json::Int(self.3 as i64));
        out.push(Json::Int(self.4 as i64));
        out.push(Json::Int(self.5 as i64));
        assert(models(out@) =~= card_json(self@)->Array_0);
        Json::list(out)
    }
}

impl Series {
    fn to_json(&self) -> (r: Json)
        ensures
            r@ == series_json(self@),
    {
        let mut bins: Vec<Json> = Vec::new();
        let mut i: usize = 0;
        while i < self.3.len()
            invariant
                i <= self.3@.len(),
                bins@.len() == i,
                forall|k: int| 0 <= k < i ==> (#[trigger] bins@[k])@ == JsonView::Int(self.3@[k] as int),
            decreases self.3@.len() - i,
        {
            bins.push(Json::Uint(self.3[i]));
            i += 1;
        }
        assert(models(bins@) =~= Seq::new(self@.bins.len(), |i: int| JsonView::Int(self@.bins[i])));
        let mut out: Vec<Json> = Vec::new();
        out.push(Json::text(self.0.as_str()));
        out.push(Json::Uint(self.1 as u64));
        out.push(Json::Uint(self.2));
        out.push(Json::list(bins));
        assert(models(out@) =~= series_json(self@)->Array_0);
        Json::list(out)
    }
}

impl DeviceData {
    /// The data as JSON.
    pub fn to_json(&self) -> (r: Json)
        ensures
            r@ == data_json(self@),
    {
        let mut cards: Vec<Json> = Vec::new();
        let mut i: usize = 0;
        while i < self.cards.len()
            invariant
                i <= self.cards@.len(),
                cards@.len() == i,
                forall|k: int| 0 <= k < i ==> (#[trigger] cards@[k])@ == card_json(self.cards@[k]@),
            decreases self.cards@.len() - i,
        {
            cards.push(self.cards[i].to_json());
            i += 1;
        }
        let mut series: Vec<Json> = Vec::new();
        let mut j: usize = 0;
        while j < self.series.len()
            invariant
                j <= self.series@.len(),
                series@.len() == j,
                forall|k: int|
                    0 <= k < j ==> (#[trigger] series@[k])@ == series_json(self.series@[k]@),
            decreases self.series@.len() - j,
        {
            series.push(self.series[j].to_json());
            j += 1;
        }
        assert(models(cards@) =~= Seq::new(self@.cards.len(), |i: int| card_json(self@.cards[i])));
        assert(models(series@) =~= Seq::new(
            self@.series.len(),
            |i: int| series_json(self@.series[i]),
        ));
        Json::object().with("cards", Json::list(cards)).with("series", Json::list(series)).with(
            "total",
            Json::Int(self.total),
        ).with("reset", Json::Int(self.reset)).with("age", Json::Uint(self.age)).with(
            "warn",
            Json::Bool(self.warn),
        ).with("tasks", Json::Bool(self.tasks))
    }
}

/// A snapshot packed for the device, as the JSON that is sent.
pub open spec fn compacted_json(snapshot: JsonView, now: int, scaled: Seq<Scaled>) -> Result<
    JsonView,
    Seq<char>,
> {
    match compacted(snapshot, now, scaled) {
        Ok(d) => Ok(data_json(d)),
        Err(e) => Err(e),
    }
}

/// Packs a snapshot for the device, as the JSON that is sent.
///
/// What is sent reads as data that the device can show.
pub fn compact(snapshot: &Json, now: i64, scaled: &Vec<Scaled>) -> (r: Result<Json, String>)
    ensures
        match r {
            Ok(v) => compacted_json(snapshot@, now as int, scaled@) == Ok::<JsonView, Seq<char>>(
                v@,
            ) && match data_of(v@) {
                Some(d) => d.valid(),
                None => false,
            },
            Err(e) => compacted_json(snapshot@, now as int, scaled@) == Err::<JsonView, Seq<char>>(
                e@,
            ),
        },
{
    match compact_data(snapshot, now, scaled) {
        Ok(d) => {
            proof {
                law_radar_data_read_back(d@);
            }
            Ok(d.to_json())
        },
        Err(e) => Err(e),
    }
}

proof fn lemma_payload_names()
    ensures
        "cards"@.len() == 5,
        "series"@.len() == 6,
        "total"@.len() == 5,
        "reset"@.len() == 5,
        "age"@.len() == 3,
        "warn"@.len() == 4,
        "tasks"@.len() == 5,
        "cards"@[0] == 'c',
        "total"@[0] == 't',
        "reset"@[0] == 'r',
        "tasks"@[0] == 't',
        "total"@[1] == 'o',
        "tasks"@[1] == 'a',
{
    reveal_strlit("cards");
    reveal_strlit("series");
    reveal_strlit("total");
    reveal_strlit("reset");
    reveal_strlit("age");
    reveal_strlit("warn");
    reveal_strlit("tasks");
}

proof fn lemma_payload_members(d: DataView)
    ensures
        items_of(at(data_json(d), "cards"@)) == Some(
            Seq::new(d.cards.len(), |i: int| card_json(d.cards[i])),
        ),
        items_of(at(data_json(d), "series"@)) == Some(
            Seq::new(d.series.len(), |i: int| series_json(d.series[i])),
        ),
        at(data_json(d), "total"@) == Some(JsonView::Int(d.total)),
        at(data_json(d), "reset"@) == Some(JsonView::Int(d.reset)),
        at(data_json(d), "age"@) == Some(JsonView::Int(d.age)),
        at(data_json(d), "warn"@) == Some(JsonView::Bool(d.warn)),
        at(data_json(d), "tasks"@) == Some(JsonView::Bool(d.tasks)),
{
    lemma_payload_names();
}

proof fn lemma_each_card(combos: Seq<JsonView>, points: Seq<JsonView>, scaled: Seq<Scaled>, i: int)
    requires
        cards_of(combos, points, scaled) is Ok,
        0 <= i < combos.len(),
    ensures
        cards_of(combos, points, scaled)->Ok_0.len() == combos.len(),
        card_of(combos[i], points, scaled) == Ok::<CardView, Seq<char>>(
            cards_of(combos, points, scaled)->Ok_0[i],
        ),
    decreases combos.len(),
{
    let front = combos.drop_last();
    lemma_cards_count(combos, points, scaled);
    lemma_cards_count(front, points, scaled);
    if i < front.len() {
        lemma_each_card(front, points, scaled, i);
    }
}

proof fn lemma_cards_count(combos: Seq<JsonView>, points: Seq<JsonView>, scaled: Seq<Scaled>)
    ensures
        cards_of(combos, points, scaled) is Ok ==> cards_of(combos, points, scaled)->Ok_0.len()
            == combos.len(),
    decreases combos.len(),
{
    if combos.len() > 0 {
        lemma_cards_count(combos.drop_last(), points, scaled);
    }
}

proof fn lemma_last_match(points: Seq<JsonView>, model: Seq<char>, effort: Seq<char>)
    ensures
        ({
            let j = score_index(points, model, effort);
            &&& -1 <= j < points.len()
            &&& j >= 0 ==> text_of(at(points[j], "model"@)) == Some(model) && text_of(
                at(points[j], "effort"@),
            ) == Some(effort)
            &&& forall|k: int|
                j < k < points.len() ==> text_of(at(#[trigger] points[k], "model"@)) != Some(model)
                    || text_of(at(points[k], "effort"@)) != Some(effort)
        }),
    decreases points.len(),
{
    if points.len() > 0 && !scores_of(points.last(), model, effort) {
        let front = points.drop_last();
        lemma_last_match(front, model, effort);
        let j = score_index(points, model, effort);
        if j >= 0 {
            assert(front[j] == points[j]);
        }
        assert forall|k: int| j < k < points.len() implies text_of(
            at(#[trigger] points[k], "model"@),
        ) != Some(model) || text_of(at(points[k], "effort"@)) != Some(effort) by {
            if k < front.len() {
                assert(front[k] == points[k]);
            }
        }
    }
}

/// What is sent of every combination of model and effort: a card of six values, in
/// the order of the combinations. The last scores of that model and effort are on
/// it: score, price in cents and tenths of a minute, in this order, each of them -1
/// where the scores do not give it.
pub proof fn law_card_shows_the_last_scores(
    snapshot: JsonView,
    now: int,
    scaled: Seq<Scaled>,
    i: int,
    j: int,
)
    requires
        compacted_json(snapshot, now, scaled) is Ok,
        items_of(at_in(snapshot, "tasks"@, "combos"@)) is Some,
        items_of(at_in(snapshot, "scores"@, "points"@)) is Some,
        0 <= i < items_of(at_in(snapshot, "tasks"@, "combos"@))->0.len(),
        ({
            let combo = items_of(at_in(snapshot, "tasks"@, "combos"@))->0[i];
            let points = items_of(at_in(snapshot, "scores"@, "points"@))->0;
            &&& 0 <= j < points.len()
            &&& text_of(at(points[j], "model"@)) == text_of(at(combo, "model"@))
            &&& text_of(at(points[j], "effort"@)) == text_of(at(combo, "effort"@))
            &&& text_of(at(combo, "model"@)) is Some
            &&& text_of(at(combo, "effort"@)) is Some
            &&& forall|k: int|
                j < k < points.len() ==> text_of(at(#[trigger] points[k], "model"@)) != text_of(
                    at(combo, "model"@),
                ) || text_of(at(points[k], "effort"@)) != text_of(at(combo, "effort"@))
        }),
    ensures
        ({
            let point = items_of(at_in(snapshot, "scores"@, "points"@))->0[j];
            let cards = items_of(at(compacted_json(snapshot, now, scaled)->Ok_0, "cards"@))->0;
            let card = items_of(Some(cards[i]))->0;
            let given = |key: Seq<char>| at(point, key) is Some && !(at(point, key)->0 is Null);
            &&& cards.len() == items_of(at_in(snapshot, "tasks"@, "combos"@))->0.len() <= 10
            &&& items_of(Some(cards[i])) is Some && card.len() == 6
            &&& card[3] == JsonView::Int(
                if given("score"@) {
                    scaled[j].score->0 as int
                } else {
                    -1
                },
            )
            &&& card[4] == JsonView::Int(
                if given("price"@) {
                    scaled[j].price->0 as int
                } else {
                    -1
                },
            )
            &&& card[5] == JsonView::Int(
                if given("minutes"@) {
                    scaled[j].minutes->0 as int
                } else {
                    -1
                },
            )
            &&& given("score"@) ==> j < scaled.len() && scaled[j].score is Some && 0
                <= scaled[j].score->0 <= 10_000_000
            &&& given("price"@) ==> j < scaled.len() && scaled[j].price is Some && 0
                <= scaled[j].price->0 <= 10_000_000
            &&& given("minutes"@) ==> j < scaled.len() && scaled[j].minutes is Some && 0
                <= scaled[j].minutes->0 <= 10_000_000
        }),
{
    let combos = items_of(at_in(snapshot, "tasks"@, "combos"@))->0;
    let points = items_of(at_in(snapshot, "scores"@, "points"@))->0;
    let d = compacted(snapshot, now, scaled)->Ok_0;
    lemma_payload_members(d);
    lemma_each_card(combos, points, scaled, i);
    let model = text_of(at(combos[i], "model"@))->0;
    let effort = text_of(at(combos[i], "effort"@))->0;
    lemma_last_match(points, model, effort);
    assert(score_index(points, model, effort) == j) by {
        let k = score_index(points, model, effort);
        if k < j {
            assert(text_of(at(points[j], "model"@)) == Some(model));
        }
        if k > j {
            assert(text_of(at(points[k], "model"@)) == Some(model));
        }
    }
}

/// A combination that no scores are about has a card with -1 in their places.
pub proof fn law_card_without_scores(snapshot: JsonView, now: int, scaled: Seq<Scaled>, i: int)
    requires
        compacted_json(snapshot, now, scaled) is Ok,
        items_of(at_in(snapshot, "tasks"@, "combos"@)) is Some,
        0 <= i < items_of(at_in(snapshot, "tasks"@, "combos"@))->0.len(),
        ({
            let combo = items_of(at_in(snapshot, "tasks"@, "combos"@))->0[i];
            let model = text_at(combo, "model"@, ""@);
            let effort = text_at(combo, "effort"@, "unknown"@);
            match items_of(at_in(snapshot, "scores"@, "points"@)) {
                None => true,
                Some(points) => forall|k: int|
                    0 <= k < points.len() ==> text_of(at(#[trigger] points[k], "model"@)) != Some(
                        model,
                    ) || text_of(at(points[k], "effort"@)) != Some(effort),
            }
        }),
    ensures
        ({
            let cards = items_of(at(compacted_json(snapshot, now, scaled)->Ok_0, "cards"@))->0;
            let card = items_of(Some(cards[i]))->0;
            &&& card.len() == 6
            &&& card[3] == JsonView::Int(-1)
            &&& card[4] == JsonView::Int(-1)
            &&& card[5] == JsonView::Int(-1)
        }),
{
    let combos = items_of(at_in(snapshot, "tasks"@, "combos"@))->0;
    let points = match items_of(at_in(snapshot, "scores"@, "points"@)) {
        Some(p) => p,
        None => Seq::empty(),
    };
    lemma_payload_members(compacted(snapshot, now, scaled)->Ok_0);
    lemma_each_card(combos, points, scaled, i);
    let model = text_at(combos[i], "model"@, ""@);
    let effort = text_at(combos[i], "effort"@, "unknown"@);
    lemma_last_match(points, model, effort);
    let k = score_index(points, model, effort);
    assert(k == -1) by {
        if k >= 0 {
            assert(text_of(at(points[k], "model"@)) == Some(model));
        }
    }
}

/// The first three values of a card: what it is called, how many tasks there are,
/// and its colour. It is called by the short name of the model, with the effort
/// behind it where that is known, in at most twenty characters of ASCII.
pub proof fn law_card_is_named_and_counted(snapshot: JsonView, now: int, scaled: Seq<Scaled>, i: int)
    requires
        compacted_json(snapshot, now, scaled) is Ok,
        items_of(at_in(snapshot, "tasks"@, "combos"@)) is Some,
        0 <= i < items_of(at_in(snapshot, "tasks"@, "combos"@))->0.len(),
    ensures
        ({
            let combo = items_of(at_in(snapshot, "tasks"@, "combos"@))->0[i];
            let cards = items_of(at(compacted_json(snapshot, now, scaled)->Ok_0, "cards"@))->0;
            let card = items_of(Some(cards[i]))->0;
            let label = text_of(Some(card[0]))->0;
            let model = match text_of(at(combo, "model"@)) {
                Some(m) => m,
                None => Seq::empty(),
            };
            let short = short_name(model, 10);
            let whole = match text_of(at(combo, "effort"@)) {
                Some(effort) => if effort == "unknown"@ {
                    short.0
                } else {
                    short.0 + seq![' '] + effort
                },
                None => short.0,
            };
            let count = match i64_of(at(combo, "count"@)) {
                Some(n) => n as int,
                None => 0,
            };
            &&& card.len() == 6
            &&& text_of(Some(card[0])) is Some
            &&& label.len() == if whole.len() <= 20 {
                whole.len()
            } else {
                20
            }
            &&& forall|k: int|
                0 <= k < label.len() ==> #[trigger] label[k] == if (whole[k] as u32) < 128 {
                    whole[k]
                } else {
                    '?'
                }
            &&& card[1] == JsonView::Int(count) && 0 <= count <= 10
            &&& card[2] == JsonView::Int(short.1)
        }),
{
    let combos = items_of(at_in(snapshot, "tasks"@, "combos"@))->0;
    let points = match items_of(at_in(snapshot, "scores"@, "points"@)) {
        Some(p) => p,
        None => Seq::empty(),
    };
    lemma_payload_members(compacted(snapshot, now, scaled)->Ok_0);
    lemma_each_card(combos, points, scaled, i);
    reveal_strlit(" ");
    reveal_strlit("");
    assert(" "@ =~= seq![' ']);
    assert(""@ =~= Seq::<char>::empty());
    law_models_have_short_names(text_at(combos[i], "model"@, ""@), 10);
}

/// What a model is called in short, and its colour: five models have names and
/// colours of their own, and any other is called by its first characters.
pub open spec fn short_name(model: Seq<char>, length: nat) -> (Seq<char>, int) {
    let names = seq![
        ("gpt-6-astra"@, "Astra"@, 0xFF7E1Dint),
        ("gpt-5.6-sol"@, "Sol"@, 0xF2C20Eint),
        ("gpt-5.6-terra"@, "Terra"@, 0x589FFFint),
        ("gpt-5.6-luna"@, "Luna"@, 0xB6C4D7int),
        ("gpt-5.5"@, "5.5"@, 0x24D7EAint),
    ];
    if exists|k: int| 0 <= k < 5 && (#[trigger] names[k]).0 == model {
        let k = choose|k: int| 0 <= k < 5 && (#[trigger] names[k]).0 == model;
        (names[k].1, names[k].2)
    } else {
        (
            Seq::new(
                if model.len() <= length {
                    model.len()
                } else {
                    length
                },
                |i: int|
                    if (model[i] as u32) < 128 {
                        model[i]
                    } else {
                        '?'
                    },
            ),
            0xB186EF,
        )
    }
}

/// Every model is called by its short name and has its colour.
pub proof fn law_models_have_short_names(model: Seq<char>, length: nat)
    ensures
        named(model, length) == short_name(model, length),
{
    lemma_model_names();
    let names = seq![
        ("gpt-6-astra"@, "Astra"@, 0xFF7E1Dint),
        ("gpt-5.6-sol"@, "Sol"@, 0xF2C20Eint),
        ("gpt-5.6-terra"@, "Terra"@, 0x589FFFint),
        ("gpt-5.6-luna"@, "Luna"@, 0xB6C4D7int),
        ("gpt-5.5"@, "5.5"@, 0x24D7EAint),
    ];
    if palette(model) is Some {
        let k = if model == "gpt-6-astra"@ {
            0int
        } else if model == "gpt-5.6-sol"@ {
            1
        } else if model == "gpt-5.6-terra"@ {
            2
        } else if model == "gpt-5.6-luna"@ {
            3
        } else {
            4
        };
        assert(names[k].0 == model);
    } else {
        assert(named(model, length).0 =~= short_name(model, length).0);
    }
}

proof fn lemma_model_names()
    ensures
        "gpt-6-astra"@.len() == 11,
        "gpt-5.6-sol"@.len() == 11,
        "gpt-5.6-terra"@.len() == 13,
        "gpt-5.6-luna"@.len() == 12,
        "gpt-5.5"@.len() == 7,
        "gpt-6-astra"@[4] == '6',
        "gpt-5.6-sol"@[4] == '5',
{
    reveal_strlit("gpt-6-astra");
    reveal_strlit("gpt-5.6-sol");
    reveal_strlit("gpt-5.6-terra");
    reveal_strlit("gpt-5.6-luna");
    reveal_strlit("gpt-5.5");
}

/// A total is what its parts come to, in whatever way they are parted.
pub proof fn law_totals_add_up(a: Seq<int>, b: Seq<int>)
    ensures
        total_of(a + b) == total_of(a) + total_of(b),
        a.len() == 0 ==> total_of(a) == 0,
        a.len() == 1 ==> total_of(a) == a[0],
    decreases b.len(),
{
    reveal_with_fuel(total_of, 2);
    if b.len() == 0 {
        assert(a + b =~= a);
    } else {
        law_totals_add_up(a, b.drop_last());
        assert((a + b).drop_last() =~= a + b.drop_last());
    }
}

/// The requests of a row in one hour, out of four quarters of an hour.
pub open spec fn hour_of(row: JsonView, h: int) -> int {
    let bins = items_of(at(row, "bins"@))->0;
    number_in(bins[4 * h]) + number_in(bins[4 * h + 1]) + number_in(bins[4 * h + 2]) + number_in(
        bins[4 * h + 3],
    )
}

/// An integer, or nothing where it is none.
pub open spec fn number_in(v: JsonView) -> int {
    match i64_of(Some(v)) {
        Some(n) => n as int,
        None => 0,
    }
}

/// The requests of a row in all.
pub open spec fn row_count(row: JsonView) -> int {
    match i64_of(at(row, "count"@)) {
        Some(n) => n as int,
        None => 0,
    }
}

proof fn lemma_row_hours(row: JsonView)
    ensures
        match row_hours(row) {
            Ok(h) => {
                &&& items_of(at(row, "bins"@)) is Some
                &&& items_of(at(row, "bins"@))->0.len() == 96
                &&& h.len() == 24
                &&& forall|k: int| 0 <= k < 24 ==> #[trigger] h[k] == hour_of(row, k)
            },
            Err(_) => true,
        },
{
}

proof fn lemma_series_rows(rows: Seq<JsonView>)
    ensures
        match series_of(rows) {
            Ok(s) => {
                &&& s.len() == if rows.len() <= 4 {
                    rows.len()
                } else {
                    4
                }
                &&& forall|i: int|
                    #![trigger s[i]]
                    0 <= i < s.len() && i < 3 ==> s[i].count == row_count(rows[i]) && s[i].name
                        == named(text_at(rows[i], "model"@, ""@), 8).0 && s[i].color == named(
                        text_at(rows[i], "model"@, ""@),
                        8,
                    ).1 && s[i].bins.len() == 24 && forall|h: int|
                        0 <= h < 24 ==> #[trigger] s[i].bins[h] == hour_of(rows[i], h)
                &&& rows.len() >= 4 ==> {
                    &&& s[3].name == "Other"@
                    &&& s[3].color == 0xB186EF
                    &&& s[3].count == total_of(
                        Seq::new((rows.len() - 3) as nat, |r: int| row_count(rows[r + 3])),
                    )
                    &&& s[3].bins.len() == 24
                    &&& forall|h: int|
                        0 <= h < 24 ==> #[trigger] s[3].bins[h] == total_of(
                            Seq::new((rows.len() - 3) as nat, |r: int| hour_of(rows[r + 3], h)),
                        )
                }
            },
            Err(_) => true,
        },
    decreases rows.len(),
{
    if rows.len() > 0 {
        let front = rows.drop_last();
        let n = rows.len() - 1;
        lemma_series_rows(front);
        match series_of(rows) {
            Ok(s) => {
                let before = series_of(front)->Ok_0;
                let row = rows[n];
                lemma_row_hours(row);
                assert forall|i: int|
                    #![trigger s[i]]
                    0 <= i < s.len() && i < 3 implies s[i].count == row_count(rows[i]) && s[i].name
                    == named(text_at(rows[i], "model"@, ""@), 8).0 && s[i].color == named(
                    text_at(rows[i], "model"@, ""@),
                    8,
                ).1 && s[i].bins.len() == 24 && forall|h: int|
                    0 <= h < 24 ==> #[trigger] s[i].bins[h] == hour_of(rows[i], h) by {
                    if i < n {
                        assert(s[i] == before[i]);
                        assert(front[i] == rows[i]);
                    }
                }
                if rows.len() >= 4 {
                    let counts = Seq::new((rows.len() - 3) as nat, |r: int| row_count(rows[r + 3]));
                    let earlier = Seq::new(
                        (front.len() - 3) as nat,
                        |r: int| row_count(front[r + 3]),
                    );
                    assert(counts.drop_last() =~= earlier);
                    assert(counts.last() == row_count(row));
                    assert forall|h: int| 0 <= h < 24 implies #[trigger] s[3].bins[h] == total_of(
                        Seq::new((rows.len() - 3) as nat, |r: int| hour_of(rows[r + 3], h)),
                    ) by {
                        let all = Seq::new(
                            (rows.len() - 3) as nat,
                            |r: int| hour_of(rows[r + 3], h),
                        );
                        let some = Seq::new(
                            (front.len() - 3) as nat,
                            |r: int| hour_of(front[r + 3], h),
                        );
                        assert(all.drop_last() =~= some);
                        assert(all.last() == hour_of(row, h));
                        if n > 3 {
                            assert(before[3].bins[h] == total_of(some));
                        } else {
                            reveal_with_fuel(total_of, 2);
                        }
                    }
                    if n == 3 {
                        reveal_with_fuel(total_of, 2);
                    }
                }
            },
            Err(_) => {},
        }
    }
}

/// What is sent of the requests: the first three models by themselves, each with its
/// short name, its colour, its requests and those of every hour, four quarters taken
/// together; and all others as one curve, with what they come to together.
pub proof fn law_curves_are_the_requests(snapshot: JsonView, now: int, scaled: Seq<Scaled>)
    ensures
        match (compacted_json(snapshot, now, scaled), at(snapshot, "usage"@)) {
            (Ok(v), Some(JsonView::Object(u))) => {
                let usage = JsonView::Object(u);
                let rows = items_of(at(usage, "models"@))->0;
                let curves = items_of(at(v, "series"@))->0;
                &&& items_of(at(usage, "models"@)) is Some
                &&& items_of(at(v, "series"@)) is Some
                &&& at(v, "total"@) == Some(
                    JsonView::Int(
                        match i64_of(at(usage, "total"@)) {
                            Some(n) => n as int,
                            None => 0,
                        },
                    ),
                )
                &&& curves.len() == if rows.len() <= 4 {
                    rows.len()
                } else {
                    4
                }
                &&& forall|i: int|
                    #![trigger curves[i]]
                    0 <= i < curves.len() && i < 3 ==> {
                        let curve = items_of(Some(curves[i]))->0;
                        let hours = items_of(Some(curve[3]))->0;
                        let short = short_name(text_at(rows[i], "model"@, ""@), 8);
                        &&& curve.len() == 4
                        &&& curve[0] == JsonView::Str(short.0)
                        &&& curve[1] == JsonView::Int(short.1)
                        &&& curve[2] == JsonView::Int(row_count(rows[i]))
                        &&& items_of(Some(curve[3])) is Some && hours.len() == 24
                        &&& forall|h: int|
                            0 <= h < 24 ==> #[trigger] hours[h] == JsonView::Int(hour_of(rows[i], h))
                    }
                &&& rows.len() >= 4 ==> {
                    let curve = items_of(Some(curves[3]))->0;
                    let hours = items_of(Some(curve[3]))->0;
                    &&& curve.len() == 4
                    &&& curve[0] == JsonView::Str("Other"@)
                    &&& curve[1] == JsonView::Int(0xB186EF)
                    &&& curve[2] == JsonView::Int(
                        total_of(Seq::new((rows.len() - 3) as nat, |r: int| row_count(rows[r + 3]))),
                    )
                    &&& items_of(Some(curve[3])) is Some && hours.len() == 24
                    &&& forall|h: int|
                        0 <= h < 24 ==> #[trigger] hours[h] == JsonView::Int(
                            total_of(
                                Seq::new((rows.len() - 3) as nat, |r: int| hour_of(rows[r + 3], h)),
                            ),
                        )
                }
            },
            (Ok(v), usage) => (usage is None || usage->0 is Null) ==> at(v, "total"@) == Some(
                JsonView::Int(-1),
            ) && items_of(at(v, "series"@)) == Some(Seq::<JsonView>::empty()),
            _ => true,
        },
{
    match (compacted_json(snapshot, now, scaled), at(snapshot, "usage"@)) {
        (Ok(v), Some(JsonView::Object(u))) => {
            let usage = JsonView::Object(u);
            let rows = items_of(at(usage, "models"@))->0;
            let d = compacted(snapshot, now, scaled)->Ok_0;
            lemma_payload_members(d);
            lemma_series_rows(rows);
            let curves = items_of(at(v, "series"@))->0;
            assert forall|i: int|
                #![trigger curves[i]]
                0 <= i < curves.len() && i < 3 implies {
                let curve = items_of(Some(curves[i]))->0;
                let hours = items_of(Some(curve[3]))->0;
                let short = short_name(text_at(rows[i], "model"@, ""@), 8);
                &&& curve.len() == 4
                &&& curve[0] == JsonView::Str(short.0)
                &&& curve[1] == JsonView::Int(short.1)
                &&& curve[2] == JsonView::Int(row_count(rows[i]))
                &&& items_of(Some(curve[3])) is Some && hours.len() == 24
                &&& forall|h: int|
                    0 <= h < 24 ==> #[trigger] hours[h] == JsonView::Int(hour_of(rows[i], h))
            } by {
                let s = d.series[i];
                assert(curves[i] == series_json(s));
                law_models_have_short_names(text_at(rows[i], "model"@, ""@), 8);
                let hours = items_of(Some(items_of(Some(curves[i]))->0[3]))->0;
                assert forall|h: int| 0 <= h < 24 implies #[trigger] hours[h] == JsonView::Int(
                    hour_of(rows[i], h),
                ) by {
                    assert(s.bins[h] == hour_of(rows[i], h));
                }
            }
            if rows.len() >= 4 {
                let s = d.series[3];
                assert(curves[3] == series_json(s));
                let hours = items_of(Some(items_of(Some(curves[3]))->0[3]))->0;
                assert forall|h: int| 0 <= h < 24 implies #[trigger] hours[h] == JsonView::Int(
                    total_of(Seq::new((rows.len() - 3) as nat, |r: int| hour_of(rows[r + 3], h))),
                ) by {
                    assert(s.bins[h] == hours[h]->Int_0);
                }
            }
        },
        (Ok(v), _) => {
            let d = compacted(snapshot, now, scaled)->Ok_0;
            lemma_payload_members(d);
            assert(Seq::new(0, |i: int| series_json(d.series[i])) =~= Seq::<JsonView>::empty());
        },
        _ => {},
    }
}

/// What else is sent: the seconds until the announced reset, none left where it is
/// over and -1 where none is announced; how old the snapshot is, which is at most
/// half a minute; whether anything went wrong while it was made; and whether tasks
/// were counted at all.
pub proof fn law_packed_in_time(snapshot: JsonView, now: int, scaled: Seq<Scaled>)
    ensures
        match compacted_json(snapshot, now, scaled) {
            Ok(v) => {
                let collected = i64_of(at(snapshot, "collected_at"@));
                &&& collected is Some && 0 <= now - collected->0 <= 30
                &&& at(v, "age"@) == Some(JsonView::Int(now - collected->0))
                &&& at(v, "reset"@) == Some(
                    JsonView::Int(
                        match i64_of(at_in(snapshot, "reset"@, "deadline"@)) {
                            None => -1,
                            Some(deadline) => if deadline > now {
                                deadline - now
                            } else {
                                0
                            },
                        },
                    ),
                )
                &&& at(v, "warn"@) == Some(
                    JsonView::Bool(
                        match items_of(at(snapshot, "errors"@)) {
                            Some(errors) => errors.len() > 0,
                            None => false,
                        },
                    ),
                )
                &&& at(v, "tasks"@) == Some(
                    JsonView::Bool(
                        match at(snapshot, "tasks"@) {
                            Some(JsonView::Null) => false,
                            Some(_) => true,
                            None => false,
                        },
                    ),
                )
            },
            Err(_) => true,
        },
{
    match compacted(snapshot, now, scaled) {
        Ok(d) => {
            lemma_payload_members(d);
        },
        Err(_) => {},
    }
}

/// Whether a row of requests is good: 96 quarters of an hour, no number below zero, and
/// together as many as it says.
pub open spec fn row_is_good(row: JsonView) -> bool {
    &&& items_of(at(row, "bins"@)) matches Some(bins)
    &&& bins.len() == 96
    &&& forall|i: int| 0 <= i < 96 ==> number_in(#[trigger] bins[i]) >= 0
    &&& total_of(Seq::new(96, |i: int| number_in(bins[i]))) == row_count(row)
}

/// The requests of some rows together.
pub open spec fn rows_total(rows: Seq<JsonView>) -> int {
    total_of(Seq::new(rows.len(), |i: int| row_count(rows[i])))
}

proof fn lemma_total_is_more(v: Seq<int>, a: int)
    requires
        forall|i: int| 0 <= i < v.len() ==> #[trigger] v[i] >= 0,
        0 <= a,
        a + 4 <= v.len(),
    ensures
        0 <= v[a] + v[a + 1] + v[a + 2] + v[a + 3] <= total_of(v),
    decreases v.len(),
{
    let front = v.drop_last();
    assert forall|i: int| 0 <= i < front.len() implies #[trigger] front[i] >= 0 by {
        assert(front[i] == v[i]);
    }
    if a + 4 < v.len() {
        lemma_total_is_more(front, a);
        assert(v.last() >= 0);
    } else {
        let n = v.len() as int;
        let b = front.drop_last();
        let c = b.drop_last();
        let d = c.drop_last();
        assert(front.last() == v[n - 2] && b.last() == v[n - 3] && c.last() == v[n - 4]);
        lemma_total_not_negative(d);
        assert(v[a] >= 0 && v[a + 1] >= 0 && v[a + 2] >= 0 && v[a + 3] >= 0);
        assert(total_of(v) == total_of(front) + v[n - 1]);
        assert(total_of(front) == total_of(b) + v[n - 2]);
        assert(total_of(b) == total_of(c) + v[n - 3]);
        assert(total_of(c) == total_of(d) + v[n - 4]);
    }
}

proof fn lemma_total_not_negative(v: Seq<int>)
    requires
        forall|i: int| 0 <= i < v.len() ==> #[trigger] v[i] >= 0,
    ensures
        total_of(v) >= 0,
    decreases v.len(),
{
    if v.len() > 0 {
        let front = v.drop_last();
        assert forall|i: int| 0 <= i < front.len() implies #[trigger] front[i] >= 0 by {
            assert(front[i] == v[i]);
        }
        lemma_total_not_negative(front);
        assert(v[v.len() - 1] >= 0);
    }
}

proof fn lemma_good_row(row: JsonView)
    requires
        row_is_good(row),
        row_count(row) <= COUNT_LIMIT,
    ensures
        0 <= row_count(row),
        row_hours(row) matches Ok(h) && h.len() == 24 && forall|k: int|
            0 <= k < 24 ==> 0 <= #[trigger] h[k] <= row_count(row),
{
    let bins = items_of(at(row, "bins"@))->0;
    let v = numbers(bins);
    assert(v =~= Seq::new(96, |i: int| number_in(bins[i])));
    assert forall|i: int| 0 <= i < v.len() implies #[trigger] v[i] >= 0 by {
        assert(number_in(bins[i]) >= 0);
    }
    lemma_total_not_negative(v);
    let h = hours(v);
    assert forall|k: int| 0 <= k < 24 implies 0 <= #[trigger] h[k] <= row_count(row) by {
        lemma_total_is_more(v, 4 * k);
    }
}

proof fn lemma_counts_update(s: Seq<SeriesView>, x: SeriesView)
    requires
        s.len() == 4,
    ensures
        counts_total(s.update(3, x)) == counts_total(s) - s[3].count + x.count,
{
    assert(s.update(3, x).drop_last() =~= s.drop_last());
}

proof fn lemma_good_rows(rows: Seq<JsonView>)
    requires
        forall|i: int| 0 <= i < rows.len() ==> row_is_good(#[trigger] rows[i]),
        rows_total(rows) <= COUNT_LIMIT,
    ensures
        0 <= rows_total(rows),
        series_of(rows) matches Ok(s) && counts_total(s) == rows_total(rows) && s.len() == (if rows.len()
            <= 4 {
            rows.len()
        } else {
            4
        }) && (rows.len() > 3 ==> s[3].bins.len() == 24 && 0 <= s[3].count <= rows_total(rows)
            && forall|h: int| 0 <= h < 24 ==> 0 <= #[trigger] s[3].bins[h] <= s[3].count),
    decreases rows.len(),
{
    let counts = Seq::new(rows.len(), |i: int| row_count(rows[i]));
    if rows.len() > 0 {
        let front = rows.drop_last();
        let n = rows.len() - 1;
        let row = rows[n];
        assert(row_is_good(row));
        let earlier = Seq::new(front.len(), |i: int| row_count(front[i]));
        assert(counts.drop_last() =~= earlier);
        assert(counts.last() == row_count(row));
        assert forall|i: int| 0 <= i < front.len() implies row_is_good(#[trigger] front[i]) by {
            assert(front[i] == rows[i]);
        }
        lemma_good_count(row);
        lemma_good_rows(front);
        lemma_good_row(row);
        let before = series_of(front)->Ok_0;
        let bins = row_hours(row)->Ok_0;
        if n <= 3 {
            let s = series_of(rows)->Ok_0;
            assert(s.drop_last() =~= before);
        } else {
            let other = before[3];
            let both = sums(other.bins, bins);
            assert forall|h: int| 0 <= h < both.len() implies 0 <= #[trigger] both[h]
                <= other.count + row_count(row) by {
                assert(0 <= other.bins[h] <= other.count);
                assert(0 <= bins[h] <= row_count(row));
            }
            lemma_counts_update(
                before,
                SeriesView {
                    name: other.name,
                    color: other.color,
                    count: other.count + row_count(row),
                    bins: both,
                },
            );
        }
    }
}

proof fn lemma_good_count(row: JsonView)
    requires
        row_is_good(row),
    ensures
        row_count(row) >= 0,
{
    let bins = items_of(at(row, "bins"@))->0;
    let v = Seq::new(96, |i: int| number_in(bins[i]));
    assert forall|i: int| 0 <= i < v.len() implies #[trigger] v[i] >= 0 by {
        assert(number_in(bins[i]) >= 0);
    }
    lemma_total_not_negative(v);
}

proof fn lemma_good_cards(combos: Seq<JsonView>, points: Seq<JsonView>, scaled: Seq<Scaled>)
    requires
        forall|i: int|
            0 <= i < combos.len() ==> 0 <= row_count(#[trigger] combos[i]) <= 10,
        points.len() <= scaled.len(),
        forall|i: int| 0 <= i < points.len() ==> scores_are_good(#[trigger] scaled[i]),
    ensures
        cards_of(combos, points, scaled) matches Ok(cards) && cards.len() == combos.len(),
    decreases combos.len(),
{
    if combos.len() > 0 {
        let front = combos.drop_last();
        assert forall|i: int| 0 <= i < front.len() implies 0 <= row_count(#[trigger] front[i])
            <= 10 by {
            assert(front[i] == combos[i]);
        }
        lemma_good_cards(front, points, scaled);
        let combo = combos[combos.len() - 1];
        assert(0 <= row_count(combo) <= 10);
        let model = text_at(combo, "model"@, ""@);
        let effort = text_at(combo, "effort"@, "unknown"@);
        lemma_last_match(points, model, effort);
        let i = score_index(points, model, effort);
        if i >= 0 {
            assert(scores_are_good(scaled[i]));
        }
    }
}

/// Whether the values of a point can be sent: each a number that the device keeps.
pub open spec fn scores_are_good(s: Scaled) -> bool {
    &&& s.score matches Some(n) && 0 <= n <= 10_000_000
    &&& s.price matches Some(n) && 0 <= n <= 10_000_000
    &&& s.minutes matches Some(n) && 0 <= n <= 10_000_000
}

/// Good data are packed: no older than half a minute, up to ten combinations of up to ten
/// tasks, values that the device keeps, requests that add up, and a reset that is not too
/// far off.
pub proof fn law_good_data_are_packed(snapshot: JsonView, now: int, scaled: Seq<Scaled>)
    requires
        i64_of(at(snapshot, "collected_at"@)) matches Some(t) && now - 30 <= t <= now,
        items_of(at_in(snapshot, "tasks"@, "combos"@)) matches Some(combos) ==> combos.len() <= 10
            && forall|i: int|
            0 <= i < combos.len() ==> 0 <= row_count(#[trigger] combos[i]) <= 10,
        items_of(at_in(snapshot, "scores"@, "points"@)) matches Some(points) ==> points.len()
            <= scaled.len() && forall|i: int|
            0 <= i < points.len() ==> scores_are_good(#[trigger] scaled[i]),
        at(snapshot, "usage"@) matches Some(usage) ==> (usage is Null || (items_of(
            at(usage, "models"@),
        ) matches Some(rows) && (forall|i: int|
            0 <= i < rows.len() ==> row_is_good(#[trigger] rows[i])) && rows_total(rows)
            <= 10_000_000 && number_in(member(usage, "total"@)) == rows_total(rows))),
        i64_of(at_in(snapshot, "reset"@, "deadline"@)) matches Some(t) ==> t - now <= 10_000_000,
    ensures
        compacted_json(snapshot, now, scaled) is Ok,
        at(snapshot, "usage"@) is None || at(snapshot, "usage"@)->0 is Null ==> ({
            let v = compacted_json(snapshot, now, scaled)->Ok_0;
            at(v, "total"@) == Some(JsonView::Int(-1)) && items_of(at(v, "series"@)) == Some(
                Seq::<JsonView>::empty(),
            )
        }),
        items_of(at_in(snapshot, "tasks"@, "combos"@)) is None ==> items_of(
            at(compacted_json(snapshot, now, scaled)->Ok_0, "cards"@),
        ) == Some(Seq::<JsonView>::empty()),
{
    let points = match items_of(at_in(snapshot, "scores"@, "points"@)) {
        Some(p) => p,
        None => Seq::empty(),
    };
    let combos = match items_of(at_in(snapshot, "tasks"@, "combos"@)) {
        Some(c) => c,
        None => Seq::empty(),
    };
    lemma_good_cards(combos, points, scaled);
    if at(snapshot, "usage"@) is Some && !(at(snapshot, "usage"@)->0 is Null) {
        let usage = at(snapshot, "usage"@)->0;
        let rows = items_of(at(usage, "models"@))->0;
        lemma_good_rows(rows);
        assert(number_in(member(usage, "total"@)) == int_or_zero(at(usage, "total"@)));
    }
    let d = compacted(snapshot, now, scaled)->Ok_0;
    lemma_payload_members(d);
    if d.series.len() == 0 {
        assert(items_of(at(data_json(d), "series"@))->0 =~= Seq::<JsonView>::empty());
    }
    if d.cards.len() == 0 {
        assert(items_of(at(data_json(d), "cards"@))->0 =~= Seq::<JsonView>::empty());
    }
}

} // verus!
