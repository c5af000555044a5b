//! What the public site says: scores, the announced reset, and how long a
//! page is kept; and the snapshot in which everything comes together.

use vstd::prelude::*;
use vstd::utf8::encode_utf8;

use crate::dates::{china_text, china_time};
use crate::json::{
    at, copy_member, empty_object, fraction, items_of, member, models, put, same_text,
    text_at, text_of, u64_of, with_fraction, Json, JsonView,
};
use crate::outside::{
    capture, captured, clear, cleared, offset_moment, offset_seconds,
    rfc3339_moment, rfc3339_seconds,
};
use crate::tally::{list_texts, texts_json};
use crate::text::{
    byte_len, glue, integer_of, parse_integer, replace_char, space_words, spaced, texts,
    with_replaced,
};

verus! {

/// The pattern of an element whose class names one part of an announcement.
pub open spec fn part_pattern(part: Seq<char>) -> Seq<char> {
    "(?is)class=\"[^\"]*site-announcement-"@ + part + "[^\"]*\"[^>]*>(.*?)</"@
}

/// The text of one part of an announcement: without tags, in single spaces.
pub open spec fn part_text(section: Seq<char>, part: Seq<char>) -> Seq<char> {
    match captured(part_pattern(part), section, 1) {
        Some(raw) => match cleared("(?is)<[^>]+>"@, raw) {
            Some(plain) => spaced(plain),
            None => Seq::empty(),
        },
        None => Seq::empty(),
    }
}

fn announced_part(section: &str, part: &str) -> (r: String)
    ensures
        r@ == part_text(section@, part@),
{
    let head = glue("(?is)class=\"[^\"]*site-announcement-", part);
    let pattern = glue(head.as_str(), "[^\"]*\"[^>]*>(.*?)</");
    match capture(pattern.as_str(), section, 1) {
        Some(raw) => match clear("(?is)<[^>]+>", raw.as_str()) {
            Some(plain) => space_words(plain.as_str()),
            None => String::new(),
        },
        None => String::new(),
    }
}

/// The moment that a text names, where `Z` stands for no offset.
pub open spec fn moment_of(text: Seq<char>) -> Option<i64> {
    rfc3339_moment(with_replaced(text, 'Z', "+00:00"@))
}

/// The moment that a text names, where `Z` stands for no offset.
pub fn read_moment(text: &str) -> (r: Option<i64>)
    ensures
        r == moment_of(text@),
{
    rfc3339_seconds(replace_char(text, 'Z', "+00:00").as_str())
}

/// The parts of an announced reset, as they stand on the page.
#[derive(Debug)]
pub struct Announcement {
    pub headline: String,
    pub lead: String,
    pub detail: String,
    pub deadline: Option<i64>,
    pub expired: Option<String>,
    pub source: Option<String>,
}

/// A number that may be missing, as JSON.
pub open spec fn moment_json(n: Option<i64>) -> JsonView {
    match n {
        Some(v) => JsonView::Int(v as int),
        None => JsonView::Null,
    }
}

/// A text, or another where it is missing.
pub open spec fn given_or(s: Option<String>, other: Seq<char>) -> Seq<char> {
    match s {
        Some(v) => v@,
        None => other,
    }
}

/// An announced reset as JSON.
pub open spec fn announcement_json(a: Announcement) -> JsonView {
    put(
        put(
            put(
                put(
                    put(
                        put(empty_object(), "headline"@, JsonView::Str(a.headline@)),
                        "lead"@,
                        JsonView::Str(a.lead@),
                    ),
                    "detail"@,
                    JsonView::Str(a.detail@),
                ),
                "deadline"@,
                moment_json(a.deadline),
            ),
            "source"@,
            JsonView::Str(given_or(a.source, ""@)),
        ),
        "expired"@,
        JsonView::Str(given_or(a.expired, "等待网站确认重置状态"@)),
    )
}

/// An announced reset as JSON; one without a headline is none.
pub fn announce(a: Announcement) -> (r: Result<Json, String>)
    ensures
        match r {
            Ok(v) => a.headline@.len() > 0 && v@ == announcement_json(a),
            Err(e) => a.headline@.len() == 0 && e@ == "网站当前没有可识别的重置公告"@,
        },
{
    if a.headline.as_str().is_empty() {
        return Err("网站当前没有可识别的重置公告".to_owned());
    }
    let deadline = match a.deadline {
        Some(n) => Json::Int(n),
        None => Json::Null,
    };
    let source = match &a.source {
        Some(s) => Json::text(s.as_str()),
        None => Json::text(""),
    };
    let expired = match &a.expired {
        Some(s) => Json::text(s.as_str()),
        None => Json::text("等待网站确认重置状态"),
    };
    Ok(
        Json::object().with("headline", Json::text(a.headline.as_str())).with(
            "lead",
            Json::text(a.lead.as_str()),
        ).with("detail", Json::text(a.detail.as_str())).with("deadline", deadline).with(
            "source",
            source,
        ).with("expired", expired),
    )
}

/// The pattern of the section that announces a reset.
pub open spec fn section_pattern() -> Seq<char> {
    "(?is)<section[^>]*class=\"[^\"]*site-announcement-reset[^\"]*\"[^>]*>(.*?)</section>"@
}

/// The pattern of the link to the source of an announcement.
pub open spec fn source_pattern() -> Seq<char> {
    "(?is)<a[^>]*class=\"[^\"]*site-announcement-reset-source[^\"]*\"[^>]*href=\"([^\"]*)\""@
}

/// Whether an announcement holds what the section says.
pub open spec fn announces(a: Announcement, section: Seq<char>) -> bool {
    &&& a.headline@ == part_text(section, "headline"@)
    &&& a.lead@ == part_text(section, "lead"@)
    &&& a.detail@ == part_text(section, "reset-detail"@)
    &&& a.deadline == match captured("data-window-closes-at=\"([^\"]+)\""@, section, 1) {
        Some(raw) => moment_of(raw),
        None => None,
    }
    &&& given_or(a.expired, "等待网站确认重置状态"@) == match captured(
        "data-expired-text=\"([^\"]*)\""@,
        section,
        1,
    ) {
        Some(s) => s,
        None => "等待网站确认重置状态"@,
    }
    &&& given_or(a.source, ""@) == match captured(source_pattern(), section, 1) {
        Some(s) => s,
        None => ""@,
    }
}

/// The reset that a page announces.
pub fn parse_reset_html(html: &str) -> (r: Result<Json, String>)
    ensures
        match captured(section_pattern(), html@, 0) {
            None => r is Err && r->Err_0@ == "网站当前没有可识别的重置公告"@,
            Some(section) => match r {
                Ok(v) => exists|a: Announcement|
                    announces(a, section) && a.headline@.len() > 0 && v@
                        == #[trigger] announcement_json(a),
                Err(e) => part_text(section, "headline"@).len() == 0 && e@
                    == "网站当前没有可识别的重置公告"@,
            },
        },
{
    let section = match capture(
        "(?is)<section[^>]*class=\"[^\"]*site-announcement-reset[^\"]*\"[^>]*>(.*?)</section>",
        html,
        0,
    ) {
        Some(s) => s,
        None => {
            return Err("网站当前没有可识别的重置公告".to_owned());
        },
    };
    let text = section.as_str();
    let deadline = match capture("data-window-closes-at=\"([^\"]+)\"", text, 1) {
        Some(raw) => read_moment(raw.as_str()),
        None => None,
    };
    let a = Announcement {
        headline: announced_part(text, "headline"),
        lead: announced_part(text, "lead"),
        detail: announced_part(text, "reset-detail"),
        deadline,
        expired: capture("data-expired-text=\"([^\"]*)\"", text, 1),
        source: capture(
            "(?is)<a[^>]*class=\"[^\"]*site-announcement-reset-source[^\"]*\"[^>]*href=\"([^\"]*)\"",
            text,
            1,
        ),
    };
    assert(announces(a, section@));
    announce(a)
}

/// What the numbers of one point come to: whether it counts, and its score,
/// price and minutes, null for a number that is missing or not finite.
#[derive(Debug)]
pub struct Judged {
    pub counts: bool,
    pub score: Json,
    pub price: Json,
    pub minutes: Json,
}

/// The scores of one model.
pub open spec fn point_json(point: JsonView, j: Judged) -> JsonView {
    put(
        put(
            put(
                put(
                    put(empty_object(), "model"@, member(point, "model"@)),
                    "effort"@,
                    member(point, "effort"@),
                ),
                "score"@,
                j.score@,
            ),
            "price"@,
            j.price@,
        ),
        "minutes"@,
        j.minutes@,
    )
}

/// The points that count, in order.
pub open spec fn counting_points(points: Seq<JsonView>, judged: Seq<Judged>) -> Seq<JsonView>
    decreases points.len(),
{
    if points.len() == 0 {
        Seq::empty()
    } else {
        let rest = counting_points(points.drop_last(), judged);
        let i = points.len() - 1;
        if i < judged.len() && judged[i].counts {
            rest.push(point_json(points[i], judged[i]))
        } else {
            rest
        }
    }
}

/// The points of a table of scores, or what is wrong with it.
pub open spec fn scored_points(software: JsonView, judged: Seq<Judged>) -> Result<
    Seq<JsonView>,
    Seq<char>,
> {
    if u64_of(at(software, "schema"@)) != Some(3u64) || text_of(at(software, "mode"@)) != Some(
        "equal_latest_3"@,
    ) {
        Err("雷达评分接口结构已变化"@)
    } else {
        match items_of(at(software, "points"@)) {
            None => Err("雷达评分接口结构已变化"@),
            Some(points) => if counting_points(points, judged).len() == 0 {
                Err("暂无有效的编码评分"@)
            } else {
                Ok(counting_points(points, judged))
            },
        }
    }
}

/// The points of a table of scores, or what is wrong with it.
pub fn score_points(software: &Json, judged: &Vec<Judged>) -> (r: Result<Vec<Json>, String>)
    ensures
        match r {
            Ok(v) => scored_points(software@, judged@) == Ok::<Seq<JsonView>, Seq<char>>(
                models(v@),
            ),
            Err(e) => scored_points(software@, judged@) == Err::<Seq<JsonView>, Seq<char>>(e@),
        },
{
    if software.get_u64("schema") != Some(3) || !software.is_str("mode", "equal_latest_3") {
        return Err("雷达评分接口结构已变化".to_owned());
    }
    let points = match software.get_array("points") {
        Some(p) => p,
        None => {
            return Err("雷达评分接口结构已变化".to_owned());
        },
    };
    let ghost all = models(points@);
    let mut out: Vec<Json> = Vec::new();
    let mut i: usize = 0;
    assert(all.take(0) =~= Seq::empty());
    assert(models(out@) =~= Seq::empty());
    while i < points.len()
        invariant
            i <= points@.len(),
            all == models(points@),
            models(out@) == counting_points(all.take(i as int), judged@),
        decreases points@.len() - i,
    {
        let ghost before = models(out@);
        proof {
            assert(all.take(i as int + 1).drop_last() =~= all.take(i as int));
            assert(all.take(i as int + 1)[i as int] == points@[i as int]@);
        }
        if i < judged.len() && judged[i].counts {
            let item = Json::object().with("model", copy_member(&points[i], "model")).with(
                "effort",
                copy_member(&points[i], "effort"),
            ).with("score", judged[i].score.clone()).with("price", judged[i].price.clone()).with(
                "minutes",
                judged[i].minutes.clone(),
            );
            out.push(item);
            assert(models(out@) =~= before.push(item@));
        }
        i += 1;
    }
    assert(all.take(all.len() as int) =~= all);
    assert(models(out@).len() == out@.len());
    if out.len() == 0 {
        return Err("暂无有效的编码评分".to_owned());
    }
    Ok(out)
}

/// When the scores were made, as the clock in China shows it.
pub open spec fn updated_text(updated: Seq<char>) -> Option<Seq<char>> {
    match moment_of(updated) {
        Some(t) => china_text(t as int, "%m-%d %H:%M"@),
        None => match offset_moment(updated, "%Y-%m-%dT%H:%M:%S%.f%z"@) {
            Some(t) => china_text(t as int, "%m-%d %H:%M"@),
            None => None,
        },
    }
}

/// When the scores were made, as the clock in China shows it.
pub fn updated_label(updated: &str) -> (r: Option<String>)
    ensures
        match r {
            Some(s) => updated_text(updated@) == Some(s@),
            None => updated_text(updated@) is None,
        },
{
    match read_moment(updated) {
        Some(t) => china_time(t, "%m-%d %H:%M"),
        None => match offset_seconds(updated, "%Y-%m-%dT%H:%M:%S%.f%z") {
            Some(t) => china_time(t, "%m-%d %H:%M"),
            None => None,
        },
    }
}

/// A table of scores as JSON, or what is wrong with it.
pub open spec fn scores_of_site(software: JsonView, judged: Seq<Judged>) -> Result<
    JsonView,
    Seq<char>,
> {
    match scored_points(software, judged) {
        Err(e) => Err(e),
        Ok(points) => match text_of(at(software, "source_updated_at"@)) {
            None => Err("雷达评分接口结构已变化"@),
            Some(updated) => match updated_text(updated) {
                None => Err("雷达评分接口结构已变化"@),
                Some(label) => Ok(
                    put(
                        put(empty_object(), "points"@, JsonView::Array(points)),
                        "updated"@,
                        JsonView::Str(label),
                    ),
                ),
            },
        },
    }
}

/// A table of scores as JSON, or what is wrong with it.
pub fn coding_scores(software: &Json, judged: &Vec<Judged>) -> (r: Result<Json, String>)
    ensures
        match r {
            Ok(v) => scores_of_site(software@, judged@) == Ok::<JsonView, Seq<char>>(v@),
            Err(e) => scores_of_site(software@, judged@) == Err::<JsonView, Seq<char>>(e@),
        },
{
    let points = score_points(software, judged)?;
    let updated = match software.get_str("source_updated_at") {
        Some(s) => s,
        None => {
            return Err("雷达评分接口结构已变化".to_owned());
        },
    };
    match updated_label(updated) {
        Some(label) => Ok(
            Json::object().with("points", Json::list(points)).with(
                "updated",
                Json::text(label.as_str()),
            ),
        ),
        None => Err("雷达评分接口结构已变化".to_owned()),
    }
}

fn copy_text(v: &Json, key: &str) -> (r: String)
    ensures
        r@ == text_at(v@, key@, ""@),
{
    match v.get_str(key) {
        Some(s) => s.to_owned(),
        None => "".to_owned(),
    }
}

/// A page as it was kept, with the warning that goes with it.
pub fn cached_page(cached: &Json) -> (r: (String, String))
    ensures
        r.0@ == text_at(cached@, "body"@, ""@),
        r.1@ == text_at(cached@, "warning"@, ""@),
{
    (copy_text(cached, "body"), copy_text(cached, "warning"))
}

/// The tag under which a page was kept, where there is one.
pub fn validator(cached: &Json, key: &str) -> (r: Option<String>)
    ensures
        match r {
            Some(s) => s@ == text_at(cached@, key@, ""@) && s@.len() > 0,
            None => text_at(cached@, key@, ""@).len() == 0,
        },
{
    proof {
        reveal_strlit("");
    }
    match cached.get_str(key) {
        Some(s) => if s.is_empty() {
            None
        } else {
            Some(s.to_owned())
        },
        None => None,
    }
}

/// A page as the site sent it.
#[derive(Debug)]
pub struct Reply {
    pub body: String,
    pub etag: String,
    pub modified: String,
    pub cache_control: String,
    pub edge: String,
}

/// What came of asking for a page.
#[derive(Debug)]
pub enum Fetched {
    /// The page.
    Page(Reply),
    /// The page is still the one that was kept.
    Unchanged(Reply),
    /// Nothing: an answer that is an error, or none at all.
    Failed { answered: bool, text: String },
}

/// A page to be used, with a warning that may be empty, and what to keep of it.
#[derive(Debug)]
pub struct Page {
    pub body: String,
    pub warning: String,
    pub record: Option<Json>,
}

#[verifier::ext_equal]
pub struct PageView {
    pub body: Seq<char>,
    pub warning: Seq<char>,
    pub record: Option<JsonView>,
}

impl View for Page {
    type V = PageView;

    open spec fn view(&self) -> PageView {
        PageView {
            body: self.body@,
            warning: self.warning@,
            record: match self.record {
                Some(v) => Some(v@),
                None => None,
            },
        }
    }
}

/// Whether the site says that it sent an old page.
pub open spec fn is_stale(edge: Seq<char>) -> bool {
    "STALE"@.is_prefix_of(edge) || edge == "ERROR"@
}

/// How many seconds a page is kept: what it says itself, from 5 to 300 and 30
/// where it says nothing; an old page only 5.
pub open spec fn keep_seconds(max_age: Option<i64>, edge: Seq<char>) -> int {
    let said = match max_age {
        Some(n) => n as int,
        None => 30,
    };
    if is_stale(edge) || said < 5 {
        5
    } else if said > 300 {
        300
    } else {
        said
    }
}

/// A page that came, or came to nothing new.
pub open spec fn page_kept(body: Seq<char>, reply: Reply, max_age: Option<i64>, now: int) -> PageView {
    let warning = if is_stale(reply.edge@) {
        "网站返回缓存数据（"@ + reply.edge@ + "）"@
    } else {
        ""@
    };
    PageView {
        body,
        warning,
        record: Some(
            put(
                put(
                    put(
                        put(
                            put(empty_object(), "body"@, JsonView::Str(body)),
                            "expires"@,
                            with_fraction(now + keep_seconds(max_age, reply.edge@)),
                        ),
                        "etag"@,
                        JsonView::Str(reply.etag@),
                    ),
                    "modified"@,
                    JsonView::Str(reply.modified@),
                ),
                "warning"@,
                JsonView::Str(warning),
            ),
        ),
    }
}

/// Which page is used after asking for it: the new one, the one that was kept
/// where it is unchanged or the site cannot be reached, else none.
pub open spec fn page_used(
    cached: JsonView,
    fetched: Fetched,
    max_age: Option<i64>,
    now: int,
) -> Result<PageView, Seq<char>> {
    match fetched {
        Fetched::Page(reply) => if encode_utf8(reply.body@).len() > 8388608 {
            Err("网站响应超过8MB"@)
        } else {
            Ok(page_kept(reply.body@, reply, max_age, now))
        },
        Fetched::Unchanged(reply) => if at(cached, "body"@) is None {
            Err("HTTP 304 without cache"@)
        } else {
            Ok(page_kept(text_at(cached, "body"@, ""@), reply, max_age, now))
        },
        Fetched::Failed { answered, text } => match text_of(at(cached, "body"@)) {
            Some(body) => Ok(
                PageView {
                    body,
                    warning: "网站暂不可用，显示旧缓存："@ + if answered {
                        "HTTPError"@
                    } else {
                        "Error"@
                    },
                    record: None,
                },
            ),
            None => Err(text@),
        },
    }
}

/// How long a page says it may be kept.
pub fn max_age_of(cache_control: &str) -> (r: Option<i64>)
    ensures
        r == match captured("(?:^|,)\\s*max-age=(\\d+)"@, cache_control@, 1) {
            Some(s) => integer_of(s),
            None => None,
        },
{
    match capture("(?:^|,)\\s*max-age=(\\d+)", cache_control, 1) {
        Some(s) => parse_integer(s.as_str()),
        None => None,
    }
}

fn stale(edge: &str) -> (r: bool)
    ensures
        r == is_stale(edge@),
{
    if same_text(edge, "ERROR") {
        return true;
    }
    proof {
        reveal_strlit("STALE");
    }
    if edge.unicode_len() < 5 {
        return false;
    }
    let head = edge.substring_char(0, 5);
    assert(head@ =~= edge@.take(5));
    same_text(head, "STALE")
}

fn keep_page(body: String, reply: Reply, max_age: Option<i64>, now: i64) -> (r: Page)
    ensures
        r@ == page_kept(body@, reply, max_age, now as int),
{
    let old = stale(reply.edge.as_str());
    let said: i64 = match max_age {
        Some(n) => n,
        None => 30,
    };
    let seconds: i64 = if old || said < 5 {
        5
    } else if said > 300 {
        300
    } else {
        said
    };
    let warning = if old {
        let head = glue("网站返回缓存数据（", reply.edge.as_str());
        glue(head.as_str(), "）")
    } else {
        "".to_owned()
    };
    let record = Json::object().with("body", Json::text(body.as_str())).with(
        "expires",
        fraction(now as i128 + seconds as i128),
    ).with("etag", Json::text(reply.etag.as_str())).with(
        "modified",
        Json::text(reply.modified.as_str()),
    ).with("warning", Json::text(warning.as_str()));
    Page { body, warning, record: Some(record) }
}

/// Which page is used after asking for it.
pub fn settle_page(cached: &Json, fetched: Fetched, max_age: Option<i64>, now: i64) -> (r: Result<
    Page,
    String,
>)
    ensures
        match r {
            Ok(p) => page_used(cached@, fetched, max_age, now as int) == Ok::<PageView, Seq<char>>(
                p@,
            ),
            Err(e) => page_used(cached@, fetched, max_age, now as int) == Err::<
                PageView,
                Seq<char>,
            >(e@),
        },
{
    match fetched {
        Fetched::Page(reply) => {
            if byte_len(reply.body.as_str()) > 8388608 {
                return Err("网站响应超过8MB".to_owned());
            }
            let body = reply.body.clone();
            Ok(keep_page(body, reply, max_age, now))
        },
        Fetched::Unchanged(reply) => {
            if cached.get("body").is_none() {
                return Err("HTTP 304 without cache".to_owned());
            }
            let body = copy_text(cached, "body");
            Ok(keep_page(body, reply, max_age, now))
        },
        Fetched::Failed { answered, text } => match cached.get_str("body") {
            Some(body) => {
                let name = if answered {
                    "HTTPError"
                } else {
                    "Error"
                };
                Ok(
                    Page {
                        body: body.to_owned(),
                        warning: glue("网站暂不可用，显示旧缓存：", name),
                        record: None,
                    },
                )
            },
            None => Err(text),
        },
    }
}

/// What was collected: each source by itself, or why it could not be read.
pub struct Sources {
    pub tasks: Result<Json, String>,
    pub task_warnings: Vec<String>,
    pub usage: Result<Json, String>,
    /// The warning about the table of scores, or why there is none.
    pub software: Result<String, String>,
    /// The warning about the page with the announcement, or why there is none.
    pub page: Result<String, String>,
    /// The scores, where the table came.
    pub scores: Option<Result<Json, String>>,
    /// The announced reset, where the page came.
    pub reset: Option<Result<Json, String>>,
}

/// What goes wrong with a page, as it is reported.
pub open spec fn page_errors(name: Seq<char>, page: Result<String, String>) -> Seq<Seq<char>> {
    match page {
        Ok(warning) => if warning@.len() == 0 {
            Seq::empty()
        } else {
            seq![name + "："@ + warning@]
        },
        Err(e) => seq![name + " 读取失败："@ + e@],
    }
}

/// What goes wrong with a source, as it is reported.
pub open spec fn source_errors(prefix: Seq<char>, v: Option<Result<Json, String>>) -> Seq<
    Seq<char>,
> {
    match v {
        Some(Err(e)) => seq![prefix + e@],
        _ => Seq::empty(),
    }
}

/// Everything that went wrong, in the order of the sources.
pub open spec fn reported(s: Sources) -> Seq<Seq<char>> {
    (match s.tasks {
        Ok(_) => texts(s.task_warnings@),
        Err(e) => seq!["Codex 任务读取失败："@ + e@],
    }) + source_errors("CC Switch 读取失败："@, Some(s.usage)) + page_errors("software"@, s.software)
        + page_errors("reset_page"@, s.page) + source_errors("评分解析失败："@, s.scores)
        + source_errors("重置公告解析失败："@, s.reset)
}

/// The value of a source, null where it could not be read.
pub open spec fn value_or_null(v: Option<Result<Json, String>>) -> JsonView {
    match v {
        Some(Ok(j)) => j@,
        _ => JsonView::Null,
    }
}

/// The snapshot in which all sources come together.
pub open spec fn snapshot_json(s: Sources, now: int) -> JsonView {
    put(
        put(
            put(
                put(
                    put(
                        put(
                            put(empty_object(), "collected_at"@, JsonView::Int(now)),
                            "collected_label"@,
                            JsonView::Str(
                                match china_text(now, "%H:%M:%S"@) {
                                    Some(label) => label,
                                    None => "00:00:00"@,
                                },
                            ),
                        ),
                        "tasks"@,
                        value_or_null(Some(s.tasks)),
                    ),
                    "usage"@,
                    value_or_null(Some(s.usage)),
                ),
                "scores"@,
                value_or_null(s.scores),
            ),
            "reset"@,
            value_or_null(s.reset),
        ),
        "errors"@,
        texts_json(reported(s)),
    )
}

fn add_error(errors: &mut Vec<String>, prefix: &str, e: &str)
    ensures
        texts(final(errors)@) == texts(old(errors)@).push(prefix@ + e@),
{
    let ghost before = texts(errors@);
    errors.push(glue(prefix, e));
    assert(texts(errors@) =~= before.push(prefix@ + e@));
}

fn add_page_errors(errors: &mut Vec<String>, name: &str, page: &Result<String, String>)
    ensures
        texts(final(errors)@) == texts(old(errors)@) + page_errors(name@, *page),
{
    let ghost before = texts(errors@);
    match page {
        Ok(warning) => {
            if !warning.as_str().is_empty() {
                let head = glue(name, "：");
                add_error(errors, head.as_str(), warning.as_str());
            }
        },
        Err(e) => {
            let head = glue(name, " 读取失败：");
            add_error(errors, head.as_str(), e.as_str());
        },
    }
    assert(texts(errors@) =~= before + page_errors(name@, *page));
}

fn taken(v: Option<Result<Json, String>>) -> (r: (Json, Option<String>))
    ensures
        r.0@ == value_or_null(v),
        match v {
            Some(Err(e)) => r.1 == Some(e),
            _ => r.1 is None,
        },
{
    match v {
        Some(Ok(j)) => (j, None),
        Some(Err(e)) => (Json::Null, Some(e)),
        None => (Json::Null, None),
    }
}

fn add_source_error(errors: &mut Vec<String>, prefix: &str, e: &Option<String>)
    ensures
        texts(final(errors)@) == match *e {
            Some(m) => texts(old(errors)@).push(prefix@ + m@),
            None => texts(old(errors)@),
        },
{
    match e {
        Some(m) => {
            add_error(errors, prefix, m.as_str());
        },
        None => {},
    }
}

/// Puts all sources together; what could not be read is null and reported.
pub fn assemble(sources: Sources, now: i64) -> (r: Json)
    ensures
        r@ == snapshot_json(sources, now as int),
{
    let ghost s = sources;
    let Sources { tasks, task_warnings, usage, software, page, scores, reset } = sources;
    let mut errors: Vec<String> = Vec::new();
    assert(texts(errors@) =~= Seq::empty());
    let task_value = match tasks {
        Ok(v) => {
            errors = task_warnings;
            v
        },
        Err(e) => {
            add_error(&mut errors, "Codex 任务读取失败：", e.as_str());
            Json::Null
        },
    };
    let ghost e0 = texts(errors@);
    let (usage_value, usage_error) = taken(Some(usage));
    add_source_error(&mut errors, "CC Switch 读取失败：", &usage_error);
    let ghost e1 = texts(errors@);
    add_page_errors(&mut errors, "software", &software);
    add_page_errors(&mut errors, "reset_page", &page);
    let ghost e2 = texts(errors@);
    let (score_value, score_error) = taken(scores);
    add_source_error(&mut errors, "评分解析失败：", &score_error);
    let ghost e3 = texts(errors@);
    let (reset_value, reset_error) = taken(reset);
    add_source_error(&mut errors, "重置公告解析失败：", &reset_error);
    proof {
        assert(e1 =~= e0 + source_errors("CC Switch 读取失败："@, Some(s.usage)));
        assert(e3 =~= e2 + source_errors("评分解析失败："@, s.scores));
        assert(texts(errors@) =~= e3 + source_errors("重置公告解析失败："@, s.reset));
        assert(texts(errors@) =~= reported(s));
    }
    let label = match china_time(now, "%H:%M:%S") {
        Some(t) => t,
        None => "00:00:00".to_owned(),
    };
    Json::object().with("collected_at", Json::Int(now)).with(
        "collected_label",
        Json::text(label.as_str()),
    ).with("tasks", task_value).with("usage", usage_value).with("scores", score_value).with(
        "reset",
        reset_value,
    ).with("errors", list_texts(&errors))
}

proof fn lemma_site_members()
    ensures
        "headline"@.len() == 8,
        "lead"@.len() == 4,
        "detail"@.len() == 6,
        "deadline"@.len() == 8,
        "source"@.len() == 6,
        "expired"@.len() == 7,
        "model"@.len() == 5,
        "effort"@.len() == 6,
        "score"@.len() == 5,
        "price"@.len() == 5,
        "minutes"@.len() == 7,
        "points"@.len() == 6,
        "updated"@.len() == 7,
        "body"@.len() == 4,
        "expires"@.len() == 7,
        "etag"@.len() == 4,
        "modified"@.len() == 8,
        "warning"@.len() == 7,
        "collected_at"@.len() == 12,
        "collected_label"@.len() == 15,
        "tasks"@.len() == 5,
        "usage"@.len() == 5,
        "scores"@.len() == 6,
        "reset"@.len() == 5,
        "errors"@.len() == 6,
        "headline"@[0] == 'h',
        "deadline"@[0] == 'd',
        "modified"@[0] == 'm',
        "lead"@[0] == 'l',
        "body"@[0] == 'b',
        "etag"@[0] == 'e',
        "detail"@[0] == 'd',
        "source"@[0] == 's',
        "effort"@[0] == 'e',
        "points"@[0] == 'p',
        "scores"@[0] == 's',
        "errors"@[0] == 'e',
        "source"@[1] == 'o',
        "scores"@[1] == 'c',
        "expired"@[0] == 'e',
        "minutes"@[0] == 'm',
        "updated"@[0] == 'u',
        "expired"@[6] == 'd',
        "expires"@[6] == 's',
        "warning"@[0] == 'w',
        "model"@[0] == 'm',
        "score"@[0] == 's',
        "price"@[0] == 'p',
        "tasks"@[0] == 't',
        "usage"@[0] == 'u',
        "reset"@[0] == 'r',
        "effort"@[1] == 'f',
        "errors"@[1] == 'r',
        "expires"@[0] == 'e',
{
    reveal_strlit("headline");
    reveal_strlit("lead");
    reveal_strlit("detail");
    reveal_strlit("deadline");
    reveal_strlit("source");
    reveal_strlit("expired");
    reveal_strlit("model");
    reveal_strlit("effort");
    reveal_strlit("score");
    reveal_strlit("price");
    reveal_strlit("minutes");
    reveal_strlit("points");
    reveal_strlit("updated");
    reveal_strlit("body");
    reveal_strlit("expires");
    reveal_strlit("etag");
    reveal_strlit("modified");
    reveal_strlit("warning");
    reveal_strlit("collected_at");
    reveal_strlit("collected_label");
    reveal_strlit("tasks");
    reveal_strlit("usage");
    reveal_strlit("scores");
    reveal_strlit("reset");
    reveal_strlit("errors");
}

/// The record of an announcement says what stands in the section: the headline, the
/// lead and the detail as plain words, when the window closes, what is said
/// afterwards, and the link to the source.
pub proof fn law_announcement_is_what_the_page_says(a: Announcement, section: Seq<char>)
    requires
        announces(a, section),
    ensures
        ({
            let v = announcement_json(a);
            let closes = captured("data-window-closes-at=\"([^\"]+)\""@, section, 1);
            let after = captured("data-expired-text=\"([^\"]*)\""@, section, 1);
            let link = captured(
                "(?is)<a[^>]*class=\"[^\"]*site-announcement-reset-source[^\"]*\"[^>]*href=\"([^\"]*)\""@,
                section,
                1,
            );
            &&& at(v, "headline"@) == Some(JsonView::Str(plain_part(section, "headline"@)))
            &&& at(v, "lead"@) == Some(JsonView::Str(plain_part(section, "lead"@)))
            &&& at(v, "detail"@) == Some(JsonView::Str(plain_part(section, "reset-detail"@)))
            &&& closes is Some && rfc3339_moment(with_replaced(closes->0, 'Z', "+00:00"@)) is Some
                ==> at(v, "deadline"@) == Some(
                JsonView::Int(
                    rfc3339_moment(with_replaced(closes->0, 'Z', "+00:00"@))->0 as int,
                ),
            )
            &&& closes is None || rfc3339_moment(with_replaced(closes->0, 'Z', "+00:00"@)) is None
                ==> at(v, "deadline"@) == Some(JsonView::Null)
            &&& after is Some ==> at(v, "expired"@) == Some(JsonView::Str(after->0))
            &&& after is None ==> at(v, "expired"@) == Some(JsonView::Str("等待网站确认重置状态"@))
            &&& link is Some ==> at(v, "source"@) == Some(JsonView::Str(link->0))
            &&& link is None ==> at(v, "source"@) == Some(JsonView::Str(""@))
        }),
{
    lemma_site_members();
}

/// What stands between the tags of the element whose class names a part, in single
/// spaces.
pub open spec fn plain_part(section: Seq<char>, part: Seq<char>) -> Seq<char> {
    let raw = captured(
        "(?is)class=\"[^\"]*site-announcement-"@ + part + "[^\"]*\"[^>]*>(.*?)</"@,
        section,
        1,
    );
    if raw is Some && cleared("(?is)<[^>]+>"@, raw->0) is Some {
        spaced(cleared("(?is)<[^>]+>"@, raw->0)->0)
    } else {
        Seq::empty()
    }
}

/// The points of a table that count are listed in order, each under its own model and
/// effort and with its own score, price and minutes, and no other point is.
pub proof fn law_points_that_count_are_listed(points: Seq<JsonView>, judged: Seq<Judged>, i: int)
    requires
        0 <= i < points.len(),
        points.len() <= judged.len(),
    ensures
        ({
            let all = counting_points(points, judged);
            let before = counting_points(points.take(i), judged).len();
            let upto = counting_points(points.take(i + 1), judged).len();
            &&& upto == before + if judged[i].counts {
                1int
            } else {
                0
            }
            &&& upto <= all.len()
            &&& i + 1 == points.len() ==> upto == all.len()
            &&& i == 0 ==> before == 0
            &&& judged[i].counts ==> {
                let p = all[before as int];
                &&& at(p, "model"@) == Some(member(points[i], "model"@))
                &&& at(p, "effort"@) == Some(member(points[i], "effort"@))
                &&& at(p, "score"@) == Some(judged[i].score@)
                &&& at(p, "price"@) == Some(judged[i].price@)
                &&& at(p, "minutes"@) == Some(judged[i].minutes@)
            }
        }),
    decreases points.len(),
{
    lemma_site_members();
    let front = points.drop_last();
    assert(points.take(i + 1).drop_last() =~= points.take(i));
    assert(points.take(points.len() as int) =~= points);
    if i + 1 < points.len() {
        law_points_that_count_are_listed(front, judged, i);
        assert(front.take(i) =~= points.take(i));
        assert(front.take(i + 1) =~= points.take(i + 1));
    }
    if i == 0 {
        assert(points.take(0) =~= Seq::empty());
    }
}

/// A table of scores is taken where it has the known layout, a point that counts and a
/// time that can be read, and refused otherwise; what is taken are its points and the
/// clock in China at that time.
pub proof fn law_scores_are_taken(software: JsonView, judged: Seq<Judged>)
    ensures
        ({
            let points = items_of(at(software, "points"@));
            let listed = counting_points(points->0, judged);
            let updated = text_of(at(software, "source_updated_at"@));
            let known = u64_of(at(software, "schema"@)) == Some(3u64) && text_of(
                at(software, "mode"@),
            ) == Some("equal_latest_3"@) && points is Some;
            let good = known && listed.len() > 0 && updated is Some && updated_text(
                updated->0,
            ) is Some;
            &&& scores_of_site(software, judged) is Ok <==> good
            &&& scores_of_site(software, judged) matches Ok(v) ==> at(v, "points"@) == Some(
                JsonView::Array(listed),
            ) && at(v, "updated"@) == Some(JsonView::Str(updated_text(updated->0)->0))
            &&& scores_of_site(software, judged) matches Err(e) ==> if known && listed.len() == 0 {
                e == "暂无有效的编码评分"@
            } else {
                e == "雷达评分接口结构已变化"@
            }
        }),
{
    lemma_site_members();
}

/// A page is kept as long as it says, but no shorter than five seconds and no longer
/// than five minutes, half a minute where it says nothing, and an old one for five
/// seconds only.
pub proof fn law_page_is_kept_for_a_while(max_age: Option<i64>, edge: Seq<char>)
    ensures
        5 <= keep_seconds(max_age, edge) <= 300,
        is_stale(edge) ==> keep_seconds(max_age, edge) == 5,
        !is_stale(edge) && max_age is None ==> keep_seconds(max_age, edge) == 30,
        !is_stale(edge) && max_age is Some && 5 <= max_age->0 <= 300 ==> keep_seconds(max_age, edge)
            == max_age->0,
        !is_stale(edge) && max_age is Some && max_age->0 > 300 ==> keep_seconds(max_age, edge)
            == 300,
        is_stale(edge) <==> edge == "ERROR"@ || (edge.len() >= 5 && edge.take(5) == "STALE"@),
{
    reveal_strlit("STALE");
    if edge.len() >= 5 {
        assert("STALE"@.is_prefix_of(edge) ==> edge.take(5) =~= "STALE"@);
    }
}

/// A page that came is used and kept with its tags and for its time; one that did not
/// change is the one that was kept, with the new tags; and where the site cannot be
/// reached the kept one is used with a warning, and stays as it was kept.
pub proof fn law_page_used_is_the_best_there_is(
    cached: JsonView,
    fetched: Fetched,
    max_age: Option<i64>,
    now: int,
)
    ensures
        ({
            let r = page_used(cached, fetched, max_age, now);
            match fetched {
                Fetched::Page(reply) => {
                    &&& r is Ok <==> encode_utf8(reply.body@).len() <= 8 * 1024 * 1024
                    &&& r matches Ok(p) ==> p.body == reply.body@ && remembers(p, reply, max_age, now)
                },
                Fetched::Unchanged(reply) => {
                    &&& r is Ok <==> at(cached, "body"@) is Some
                    &&& r matches Ok(p) ==> remembers(p, reply, max_age, now) && (at(
                        cached,
                        "body"@,
                    ) matches Some(JsonView::Str(body)) ==> p.body == body)
                },
                Fetched::Failed { answered, text } => {
                    &&& r is Ok <==> text_of(at(cached, "body"@)) is Some
                    &&& r matches Ok(p) ==> Some(p.body) == text_of(at(cached, "body"@))
                        && p.record is None && p.warning == if answered {
                        "网站暂不可用，显示旧缓存："@ + "HTTPError"@
                    } else {
                        "网站暂不可用，显示旧缓存："@ + "Error"@
                    }
                    &&& r matches Err(e) ==> e == text@
                },
            }
        }),
{
    lemma_site_members();
}

/// Whether a page is remembered as it is used, with the tags of a reply, until its
/// time is over; an old page with a warning.
pub open spec fn remembers(p: PageView, reply: Reply, max_age: Option<i64>, now: int) -> bool {
    &&& p.record matches Some(v)
    &&& at(v, "body"@) == Some(JsonView::Str(p.body))
    &&& at(v, "etag"@) == Some(JsonView::Str(reply.etag@))
    &&& at(v, "modified"@) == Some(JsonView::Str(reply.modified@))
    &&& at(v, "expires"@) == Some(with_fraction(now + keep_seconds(max_age, reply.edge@)))
    &&& at(v, "warning"@) == Some(JsonView::Str(p.warning))
    &&& p.warning == if is_stale(reply.edge@) {
        "网站返回缓存数据（"@ + reply.edge@ + "）"@
    } else {
        ""@
    }
}

/// A snapshot holds every source under its own name as it was read, null for one that
/// was not, and the time at which it was put together.
pub proof fn law_snapshot_holds_the_sources(s: Sources, now: int)
    ensures
        ({
            let v = snapshot_json(s, now);
            &&& at(v, "collected_at"@) == Some(JsonView::Int(now))
            &&& china_text(now, "%H:%M:%S"@) is Some ==> at(v, "collected_label"@) == Some(
                JsonView::Str(china_text(now, "%H:%M:%S"@)->0),
            )
            &&& s.tasks matches Ok(t) ==> at(v, "tasks"@) == Some(t@)
            &&& s.tasks is Err ==> at(v, "tasks"@) == Some(JsonView::Null)
            &&& s.usage matches Ok(u) ==> at(v, "usage"@) == Some(u@)
            &&& s.usage is Err ==> at(v, "usage"@) == Some(JsonView::Null)
            &&& s.scores matches Some(Ok(c)) ==> at(v, "scores"@) == Some(c@)
            &&& s.scores matches Some(Err(_)) ==> at(v, "scores"@) == Some(JsonView::Null)
            &&& s.scores is None ==> at(v, "scores"@) == Some(JsonView::Null)
            &&& s.reset matches Some(Ok(r)) ==> at(v, "reset"@) == Some(r@)
            &&& s.reset matches Some(Err(_)) ==> at(v, "reset"@) == Some(JsonView::Null)
            &&& s.reset is None ==> at(v, "reset"@) == Some(JsonView::Null)
            &&& at(v, "errors"@) matches Some(JsonView::Array(list))
            &&& list.len() == reported(s).len()
            &&& forall|i: int|
                0 <= i < list.len() ==> #[trigger] list[i] == JsonView::Str(reported(s)[i])
        }),
{
    lemma_site_members();
}

/// Whatever could not be read is reported with its reason, and where all could be read
/// and nothing was warned of nothing is reported.
pub proof fn law_faults_are_reported(s: Sources)
    ensures
        s.tasks matches Err(e) ==> reported(s).contains("Codex 任务读取失败："@ + e@),
        s.tasks is Ok ==> forall|i: int|
            0 <= i < s.task_warnings@.len() ==> reported(s).contains(
                (#[trigger] s.task_warnings@[i])@,
            ),
        s.usage matches Err(e) ==> reported(s).contains("CC Switch 读取失败："@ + e@),
        s.software matches Err(e) ==> reported(s).contains("software"@ + " 读取失败："@ + e@),
        s.software matches Ok(w) ==> (w@.len() > 0 ==> reported(s).contains(
            "software"@ + "："@ + w@,
        )),
        s.page matches Err(e) ==> reported(s).contains("reset_page"@ + " 读取失败："@ + e@),
        s.page matches Ok(w) ==> (w@.len() > 0 ==> reported(s).contains(
            "reset_page"@ + "："@ + w@,
        )),
        s.scores matches Some(Err(e)) ==> reported(s).contains("评分解析失败："@ + e@),
        s.reset matches Some(Err(e)) ==> reported(s).contains("重置公告解析失败："@ + e@),
        s.tasks is Ok && s.task_warnings@.len() == 0 && s.usage is Ok && s.software is Ok
            && s.software->Ok_0@.len() == 0 && s.page is Ok && s.page->Ok_0@.len() == 0 && !(
        s.scores matches Some(Err(_))) && !(s.reset matches Some(Err(_))) ==> reported(s).len()
            == 0,
{
    let a = match s.tasks {
        Ok(_) => texts(s.task_warnings@),
        Err(e) => seq!["Codex 任务读取失败："@ + e@],
    };
    let b = source_errors("CC Switch 读取失败："@, Some(s.usage));
    let c = page_errors("software"@, s.software);
    let d = page_errors("reset_page"@, s.page);
    let e = source_errors("评分解析失败："@, s.scores);
    let f = source_errors("重置公告解析失败："@, s.reset);
    let all = reported(s);
    assert(all == a + b + c + d + e + f);
    assert forall|i: int| 0 <= i < a.len() implies all.contains(#[trigger] a[i]) by {
        assert(all[i] == a[i]);
    }
    assert forall|i: int| 0 <= i < b.len() implies all.contains(#[trigger] b[i]) by {
        assert(all[a.len() + i] == b[i]);
    }
    assert forall|i: int| 0 <= i < c.len() implies all.contains(#[trigger] c[i]) by {
        assert(all[a.len() + b.len() + i] == c[i]);
    }
    assert forall|i: int| 0 <= i < d.len() implies all.contains(#[trigger] d[i]) by {
        assert(all[a.len() + b.len() + c.len() + i] == d[i]);
    }
    assert forall|i: int| 0 <= i < e.len() implies all.contains(#[trigger] e[i]) by {
        assert(all[a.len() + b.len() + c.len() + d.len() + i] == e[i]);
    }
    assert forall|i: int| 0 <= i < f.len() implies all.contains(#[trigger] f[i]) by {
        assert(all[a.len() + b.len() + c.len() + d.len() + e.len() + i] == f[i]);
    }
    assert(a.len() > 0 ==> all.contains(a[0]));
    assert(b.len() > 0 ==> all.contains(b[0]));
    assert(c.len() > 0 ==> all.contains(c[0]));
    assert(d.len() > 0 ==> all.contains(d[0]));
    assert(e.len() > 0 ==> all.contains(e[0]));
    assert(f.len() > 0 ==> all.contains(f[0]));
    if s.tasks is Ok {
        assert forall|i: int| 0 <= i < s.task_warnings@.len() implies all.contains(
            (#[trigger] s.task_warnings@[i])@,
        ) by {
            assert(a[i] == s.task_warnings@[i]@);
        }
    }
}

} // verus!
