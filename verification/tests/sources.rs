//! The sources of the radar: task logs, request counts, and the public site.

use holocubic::contexts::{
    context_line, context_record, earlier_context, plan_scan, scan_forward, split_lines,
    BackwardScan, ScanPlan, BLOCK_SIZE,
};
use holocubic::dates::china_time;
use holocubic::json::{dump, fraction, read, Json};
use holocubic::site::{
    announce, assemble, cached_page, coding_scores, max_age_of, parse_reset_html, read_moment,
    score_points, settle_page, updated_label, validator, Announcement, Fetched, Judged, Reply,
    Sources,
};
use holocubic::tally::{comes_before, rank_rows, tasks_summary, usage_counts, TaskTally, UsageRow};

fn json(text: &str) -> Json {
    read(text.as_bytes()).unwrap()
}

const FIRST: &str = r#"{"type":"turn_context","payload":{"model":"gpt-6-astra","effort":"max"}}"#;
const SECOND: &str =
    r#"{"type":"turn_context","payload":{"model":"gpt-6-astra","effort":"medium"}}"#;

/// Reads the log of a task as a file of one inode.
fn latest_context(log: &[u8], previous: &mut Json) -> Result<Json, String> {
    let size = log.len() as u64;
    let (latest, offset) = match plan_scan(previous, 5, size) {
        ScanPlan::Forward { offset } => {
            let (latest, complete) =
                scan_forward(&log[offset as usize..], earlier_context(previous))?;
            (latest, offset + complete as u64)
        }
        ScanPlan::Backward => {
            let mut scan = BackwardScan::new(size);
            while let Some((start, len)) = scan.wanted() {
                scan.feed(&log[start as usize..(start + len) as usize])?;
            }
            scan.finish()?
        }
    };
    *previous = context_record(5, offset, latest)?;
    Ok(earlier_context(previous))
}

#[test]
fn latest_context_incremental() {
    let mut log = format!("{FIRST}\n{}", &SECOND[..20]).into_bytes();
    let mut known = Json::object();
    let context = latest_context(&log, &mut known).unwrap();
    assert_eq!(context.get_str("effort"), Some("max"));
    log.extend_from_slice(&SECOND.as_bytes()[20..]);
    log.push(b'\n');
    let context = latest_context(&log, &mut known).unwrap();
    assert_eq!(context.get_str("effort"), Some("medium"));
    assert_eq!(known.get_u64("offset"), Some(log.len() as u64));
}

#[test]
fn context_is_found_over_blocks() {
    let filler = "{\"type\":\"other\"}\n".repeat(BLOCK_SIZE as usize / 10);
    let log = format!("{SECOND}\n{filler}").into_bytes();
    let mut known = Json::object();
    let context = latest_context(&log, &mut known).unwrap();
    assert_eq!(context.get_str("effort"), Some("medium"));
    let mut none = Json::object();
    assert_eq!(latest_context(filler.as_bytes(), &mut none).unwrap_err(), "任务尚无模型记录");
    assert_eq!(latest_context(b"", &mut none).unwrap_err(), "任务尚无模型记录");
}

#[test]
fn long_unfinished_line_is_never_read() {
    let half = format!("{}{}", &FIRST[..FIRST.len() - 1], " ".repeat(2 * BLOCK_SIZE as usize));
    let mut log = format!("{SECOND}\n{half}").into_bytes();
    let mut known = Json::object();
    let context = latest_context(&log, &mut known).unwrap();
    assert_eq!(context.get_str("effort"), Some("medium"));
    assert_eq!(known.get_u64("offset"), Some(SECOND.len() as u64 + 1));
    log.extend_from_slice(b"}\n");
    let context = latest_context(&log, &mut known).unwrap();
    assert_eq!(context.get_str("effort"), Some("max"));
    assert_eq!(known.get_u64("offset"), Some(log.len() as u64));
    let mut none = Json::object();
    assert_eq!(latest_context(half.as_bytes(), &mut none).unwrap_err(), "任务尚无模型记录");
}

#[test]
fn shorter_or_other_log_is_read_anew() {
    let known = json(r#"{"inode":5,"offset":100,"context":null}"#);
    assert_eq!(plan_scan(&known, 5, 100), ScanPlan::Forward { offset: 100 });
    assert_eq!(plan_scan(&known, 5, 99), ScanPlan::Backward);
    assert_eq!(plan_scan(&known, 6, 100), ScanPlan::Backward);
    assert_eq!(plan_scan(&Json::object(), 5, 100), ScanPlan::Backward);
    assert_eq!(context_record(1, 2, Json::Null).unwrap_err(), "任务尚无模型记录");
}

#[test]
fn lines_name_a_model_or_not() {
    assert!(context_line(b"{\"type\":\"other\"}").unwrap().is_none());
    let spaced = br#"{"type": "turn_context","payload":{"model":"m","effort":null}}"#;
    let context = context_line(spaced).unwrap().unwrap();
    assert_eq!(context.get_str("effort"), Some("unknown"));
    let bad = br#"{"type":"turn_context","payload":{"model":""}}"#;
    assert_eq!(context_line(bad).unwrap_err(), "模型/强度字段无效");
    assert!(context_line(b"{\"type\":\"turn_context\"").is_err());
    assert_eq!(split_lines(b"a\n\nb"), [b"a".to_vec(), b"".to_vec(), b"b".to_vec()]);
}

fn context(model: &str, effort: &str) -> Json {
    Json::object().with("model", Json::text(model)).with("effort", Json::text(effort))
}

#[test]
fn tasks_are_counted_in_order() {
    let rows = vec![
        context("b", "max"),
        context("a", "max"),
        context("b", "max"),
        context("a", "low"),
    ];
    let summary = tasks_summary(&rows);
    assert_eq!(summary.get_u64("total"), Some(4));
    let combos = summary.get_array("combos").unwrap();
    let names: Vec<(&str, &str, u64)> = combos
        .iter()
        .map(|c| {
            (
                c.get_str("model").unwrap(),
                c.get_str("effort").unwrap(),
                c.get_u64("count").unwrap(),
            )
        })
        .collect();
    assert_eq!(names, [("b", "max", 2), ("a", "low", 1), ("a", "max", 1)]);
    assert_eq!(rank_rows(&rows).len(), 3);
    assert!(comes_before("a", "ab") && comes_before("Z", "a"));
    assert!(!comes_before("b", "a") && !comes_before("a", "a"));
}

#[test]
fn ten_tasks_are_enough() {
    let mut tally = TaskTally::new();
    let mut cached = Json::object().with("old", Json::Uint(1));
    for i in 0..10 {
        assert!(tally.wants_more());
        let path = format!("p{i}");
        cached.insert(&path, Json::Uint(i));
        tally.accept(&path, Ok(context("m", "max")));
        tally.accept("bad", Err("No such file".to_owned()));
    }
    assert!(!tally.wants_more());
    assert_eq!(tally.warnings().len(), 10);
    assert_eq!(tally.warnings()[0], "一条任务元数据未读取：No");
    let kept = tally.kept(&cached);
    assert!(kept.get("old").is_none());
    assert_eq!(kept.get_u64("p9"), Some(9));
    assert_eq!(tally.summary().get_u64("total"), Some(10));
    let mut other = TaskTally::new();
    other.accept("p", Err("  ".to_owned()));
    assert_eq!(other.warnings()[0], "一条任务元数据未读取：Error");
}

fn row(model: &str, bucket: i64, count: u64, missing: u64) -> UsageRow {
    UsageRow { model: model.to_owned(), bucket, count, missing }
}

#[test]
fn requests_are_summed_by_quarter() {
    let rows = vec![row("b", 0, 2, 1), row("a", 95, 7, 0), row("b", 0, 3, 2)];
    let usage = usage_counts(&rows, 86400).unwrap();
    assert_eq!(usage.get_u64("total"), Some(12));
    assert_eq!(usage.get_u64("missing_usage"), Some(3));
    assert_eq!(usage.get_i64("start"), Some(0));
    let models = usage.get_array("models").unwrap();
    assert_eq!(models[0].get_str("model"), Some("a"));
    assert_eq!(models[1].get_u64("count"), Some(5));
    assert_eq!(models[1].get_array("bins").unwrap()[0].as_u64(), Some(5));
    assert_eq!(models[0].get_array("bins").unwrap().len(), 96);
    let labels: Vec<&str> =
        usage.get_array("labels").unwrap().iter().map(|l| l.as_str().unwrap()).collect();
    assert_eq!(labels, ["08:00", "14:00", "20:00", "02:00", "08:00"]);
    assert_eq!(usage_counts(&vec![row("a", 96, 1, 0)], 0).unwrap_err(), "代理模型或时间字段无效");
    assert_eq!(usage_counts(&vec![row("", 1, 1, 0)], 0).unwrap_err(), "代理模型或时间字段无效");
}

const PAGE: &str = r#"<html><section id="x" class="card site-announcement-reset on"
 data-window-closes-at="2026-09-08T00:00:00Z" data-expired-text="over">
<h2 class="site-announcement-headline big"> Reset   <b>soon</h2>
<p class="site-announcement-lead">the
 lead</p><a class="site-announcement-reset-source" href="https://example.org/x">s</a>
</section></html>"#;

#[test]
fn reset_is_read_off_the_page() {
    let reset = parse_reset_html(PAGE).unwrap();
    assert_eq!(reset.get_str("headline"), Some("Reset soon"));
    assert_eq!(reset.get_str("lead"), Some("the lead"));
    assert_eq!(reset.get_str("detail"), Some(""));
    assert_eq!(reset.get_str("expired"), Some("over"));
    assert_eq!(reset.get_str("source"), Some("https://example.org/x"));
    assert_eq!(reset.get_i64("deadline"), Some(1788825600));
    assert_eq!(parse_reset_html("<html>").unwrap_err(), "网站当前没有可识别的重置公告");
    let bare = Announcement {
        headline: "h".into(),
        lead: "".into(),
        detail: "".into(),
        deadline: None,
        expired: None,
        source: None,
    };
    let shown = announce(bare).unwrap();
    assert_eq!(shown.get_str("expired"), Some("等待网站确认重置状态"));
    assert!(shown.get("deadline").unwrap().is_null());
}

#[test]
fn moments_are_read_in_both_forms() {
    assert_eq!(read_moment("1970-01-01T00:01:00Z"), Some(60));
    assert_eq!(read_moment("1970-01-01T08:00:00+08:00"), Some(0));
    assert_eq!(read_moment("yesterday"), None);
    assert_eq!(updated_label("1970-01-01T00:01:00Z").unwrap(), "01-01 08:01");
    assert_eq!(updated_label("1970-01-01T08:00:00+0800").unwrap(), "01-01 08:00");
    assert_eq!(updated_label("never"), None);
}

fn judged(counts: bool) -> Judged {
    Judged { counts, score: Json::Uint(80), price: Json::Null, minutes: Json::Uint(2) }
}

#[test]
fn scores_that_count_are_kept() {
    let table = json(
        r#"{"schema":3,"mode":"equal_latest_3","source_updated_at":"1970-01-01T00:01:00Z",
        "points":[{"model":"a","effort":"max"},{"model":"b","effort":"low"}]}"#,
    );
    let scores = coding_scores(&table, &vec![judged(false), judged(true)]).unwrap();
    assert_eq!(scores.get_str("updated"), Some("01-01 08:01"));
    let points = scores.get_array("points").unwrap();
    assert_eq!(points.len(), 1);
    assert_eq!(points[0].get_str("model"), Some("b"));
    assert_eq!(points[0].get_u64("score"), Some(80));
    assert_eq!(score_points(&table, &Vec::new()).unwrap_err(), "暂无有效的编码评分");
    let other = table.clone().with("schema", Json::Uint(4));
    assert_eq!(
        coding_scores(&other, &vec![judged(true)]).unwrap_err(),
        "雷达评分接口结构已变化"
    );
    let undated = table.with("source_updated_at", Json::text("x"));
    assert_eq!(
        coding_scores(&undated, &vec![judged(true)]).unwrap_err(),
        "雷达评分接口结构已变化"
    );
}

fn reply(body: &str, edge: &str) -> Reply {
    Reply {
        body: body.to_owned(),
        etag: "e".to_owned(),
        modified: "m".to_owned(),
        cache_control: "".to_owned(),
        edge: edge.to_owned(),
    }
}

#[test]
fn pages_are_kept_as_long_as_they_say() {
    assert_eq!(max_age_of("public, max-age=60"), Some(60));
    assert_eq!(max_age_of("s-max-age=60"), None);
    let nothing = Json::object();
    let keeps = |age: Option<i64>, edge: &str| {
        let page = settle_page(&nothing, Fetched::Page(reply("b", edge)), age, 1000).unwrap();
        let text = dump(&page.record.unwrap());
        let number = text.split("\"expires\":").nth(1).unwrap();
        let number = number.split([',', '}']).next().unwrap();
        assert!(number.ends_with(".0"));
        (number.parse::<f64>().unwrap() as i64 - 1000, page.warning)
    };
    assert_eq!(keeps(None, ""), (30, "".to_owned()));
    assert_eq!(keeps(Some(1), ""), (5, "".to_owned()));
    assert_eq!(keeps(Some(9999), ""), (300, "".to_owned()));
    assert_eq!(keeps(Some(60), "STALE-X"), (5, "网站返回缓存数据（STALE-X）".to_owned()));
    assert_eq!(keeps(Some(60), "ERROR").0, 5);
    let kept = json(r#"{"body":"old","etag":"t","warning":"w"}"#);
    let same = settle_page(&kept, Fetched::Unchanged(reply("", "")), None, 0).unwrap();
    assert_eq!(same.body, "old");
    let failed = || Fetched::Failed { answered: false, text: "no route".to_owned() };
    let shown = settle_page(&kept, failed(), None, 0).unwrap();
    assert_eq!(shown.warning, "网站暂不可用，显示旧缓存：Error");
    assert!(shown.record.is_none());
    assert_eq!(settle_page(&nothing, failed(), None, 0).unwrap_err(), "no route");
    assert_eq!(
        settle_page(&nothing, Fetched::Unchanged(reply("", "")), None, 0).unwrap_err(),
        "HTTP 304 without cache"
    );
    let huge = reply(&"x".repeat(8388609), "");
    assert_eq!(settle_page(&nothing, Fetched::Page(huge), None, 0).unwrap_err(), "网站响应超过8MB");
    assert_eq!(cached_page(&kept), ("old".to_owned(), "w".to_owned()));
    assert_eq!(validator(&kept, "etag").unwrap(), "t");
    assert!(validator(&kept, "modified").is_none());
}

#[test]
fn snapshot_reports_what_failed() {
    let sources = Sources {
        tasks: Err("a".into()),
        task_warnings: vec!["unused".into()],
        usage: Ok(Json::Uint(1)),
        software: Ok("w".into()),
        page: Err("b".into()),
        scores: Some(Err("c".into())),
        reset: None,
    };
    let snapshot = assemble(sources, 0);
    let errors: Vec<&str> =
        snapshot.get_array("errors").unwrap().iter().map(|e| e.as_str().unwrap()).collect();
    assert_eq!(
        errors,
        [
            "Codex 任务读取失败：a",
            "software：w",
            "reset_page 读取失败：b",
            "评分解析失败：c"
        ]
    );
    assert_eq!(snapshot.get_str("collected_label"), Some("08:00:00"));
    assert_eq!(snapshot.get_u64("usage"), Some(1));
    assert!(snapshot.get("reset").unwrap().is_null());
}

#[test]
fn clock_in_china_is_eight_hours_ahead() {
    let shown = |seconds: i64| {
        ["%H:%M", "%H:%M:%S", "%m-%d %H:%M"].map(|p| china_time(seconds, p).unwrap())
    };
    assert_eq!(shown(1_767_225_600), ["08:00", "08:00:00", "01-01 08:00"]);
    assert_eq!(shown(951_782_461), ["08:01", "08:01:01", "02-29 08:01"]);
    assert_eq!(shown(951_868_799), ["07:59", "07:59:59", "03-01 07:59"]);
    assert_eq!(shown(-1), ["07:59", "07:59:59", "01-01 07:59"]);
    assert_eq!(shown(4_107_542_399), ["07:59", "07:59:59", "03-01 07:59"]);
    assert_eq!(shown(8_210_266_876_799)[2], "01-01 07:59");
    assert_eq!(shown(-8_334_601_228_800)[2], "01-01 08:00");
    assert!(china_time(8_210_266_876_800, "%H:%M").is_none());
    assert!(china_time(-8_334_601_228_801, "%H:%M").is_none());
    assert!(china_time(i64::MIN, "%H:%M").is_none());
}

#[test]
fn whole_numbers_can_have_a_fraction() {
    assert_eq!(dump(&fraction(1030)), "1030.0");
    assert_eq!(dump(&fraction(-5)), "-5.0");
    assert_eq!(dump(&fraction(0)), "0.0");
}
