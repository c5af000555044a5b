//! Reading back a whole playlist: its scenes, its pictures and, once they are
//! there, a fresh state with everything put in.

use vstd::prelude::*;

use crate::json::{
    at, at_in, items_of, models, opt_text, option_view, options_same, put, put_in, same_option,
    same_text, text_of, u64_of, without, Json, JsonView,
};
use crate::protocol::{crc32_hex, crc_hex};
use crate::readback::{
    asset_part, bytes_from_json_array, bytes_json, bytes_of, bytes_view, calendar_mirrored,
    calendar_read, labels_meta, labels_mirrored, law_bytes_come_part_by_part, law_bytes_read_back,
    law_labels_are_read_back, law_pages_get_their_pictures, law_radar_data_are_read_back,
    law_read_back_length, mirror_calendar_public, mirror_radar_public, page_meta, pages_all_drawn,
    pages_complete, pages_described, pages_read, radar_meta, radar_mirrored, read_back,
};
use crate::script::{
    failed, halted, stopped, value_end, value_turn, AnswerView, AskView, Halt, Turn,
};
use crate::usb::{command, plain_command, status_ask, HoloCubicUsb};

verus! {

/// What a step of the read-back leaves: the state with one scene brought up to
/// date, and whether anything had to be transferred.
#[verifier::ext_equal]
pub struct Mirrored {
    pub state: JsonView,
    pub transferred: bool,
}

/// What a step of the read-back ended with.
pub open spec fn step_end(r: Result<(Json, bool), Halt>, pos: int) -> Turn<Mirrored> {
    match r {
        Ok((state, transferred)) => Turn::Done(Mirrored { state: state@, transferred }, pos),
        Err(h) => halted(h, pos),
    }
}

/// The task of a playlist with its label picture.
pub open spec fn task_step(
    log: Seq<AnswerView>,
    pos: int,
    state: JsonView,
    known: Option<Seq<char>>,
) -> Turn<Mirrored> {
    match at(state, "task"@) {
        None => Turn::Done(Mirrored { state, transferred: false }, pos),
        Some(task) => {
            let uploaded = match items_of(at(task, "labels"@)) {
                Some(items) => Some(bytes_of(items)),
                None => None,
            };
            match labels_mirrored(log, pos, without(task, "labels"@), known, uploaded) {
                Turn::Done(v, k) => Turn::Done(
                    Mirrored {
                        state: put(state, "task"@, v),
                        transferred: uploaded is None && text_of(at(task, "labels_crc"@)) != known,
                    },
                    k,
                ),
                other => stopped(other),
            }
        },
    }
}

/// The radar of a playlist with its data.
pub open spec fn radar_step(
    log: Seq<AnswerView>,
    pos: int,
    state: JsonView,
    known: Option<Seq<char>>,
) -> Turn<Mirrored> {
    match at(state, "radar"@) {
        None => Turn::Done(Mirrored { state, transferred: false }, pos),
        Some(radar) => match radar_mirrored(log, pos, radar, known) {
            Turn::Done(v, k) => Turn::Done(
                Mirrored {
                    state: put(state, "radar"@, v),
                    transferred: at(radar, "radar_data"@) is None && text_of(at(radar, "crc32"@))
                        != known,
                },
                k,
            ),
            other => stopped(other),
        },
    }
}

/// The calendar of a playlist with its pages.
pub open spec fn calendar_step(
    log: Seq<AnswerView>,
    pos: int,
    state: JsonView,
    known: Option<Seq<char>>,
) -> Turn<Mirrored> {
    match at(state, "calendar"@) {
        None => Turn::Done(Mirrored { state, transferred: false }, pos),
        Some(calendar) => match calendar_mirrored(log, pos, calendar, known) {
            Turn::Done(v, k) => Turn::Done(
                Mirrored {
                    state: put(state, "calendar"@, v),
                    transferred: text_of(at(calendar, "calendar_signature"@)) != known && !(match items_of(
                        at(calendar, "calendar_pages"@),
                    ) {
                        Some(pages) => pages_complete(pages),
                        None => false,
                    }),
                },
                k,
            ),
            other => stopped(other),
        },
    }
}

fn mirror_task(device: &mut HoloCubicUsb, state: Json, known: Option<&str>) -> (r: Result<
    (Json, bool),
    Halt,
>)
    ensures
        step_end(r, final(device).pos()) == task_step(
            old(device).log(),
            old(device).pos(),
            state@,
            opt_text(known),
        ),
        final(device).log() == old(device).log(),
        final(device).port() == old(device).port(),
{
    let mut task = match state.get("task") {
        Some(t) => t.clone(),
        None => {
            return Ok((state, false));
        },
    };
    let uploaded = match task.get("labels") {
        Some(v) => bytes_from_json_array(v),
        None => None,
    };
    let known_already = match (task.get_str("labels_crc"), known) {
        (Some(a), Some(b)) => same_text(a, b),
        (None, None) => true,
        _ => false,
    };
    let need = uploaded.is_none() && !known_already;
    task.remove("labels");
    let v = match &uploaded {
        Some(data) => device.mirror_labels(task, known, Some(data.as_slice()))?,
        None => device.mirror_labels(task, known, None)?,
    };
    let mut out = state;
    out.insert("task", v);
    Ok((out, need))
}

fn mirror_radar(device: &mut HoloCubicUsb, state: Json, known: Option<&str>) -> (r: Result<
    (Json, bool),
    Halt,
>)
    ensures
        step_end(r, final(device).pos()) == radar_step(
            old(device).log(),
            old(device).pos(),
            state@,
            opt_text(known),
        ),
        final(device).log() == old(device).log(),
        final(device).port() == old(device).port(),
{
    let radar = match state.get("radar") {
        Some(v) => v.clone(),
        None => {
            return Ok((state, false));
        },
    };
    let known_already = match (radar.get_str("crc32"), known) {
        (Some(a), Some(b)) => same_text(a, b),
        (None, None) => true,
        _ => false,
    };
    let need = radar.get("radar_data").is_none() && !known_already;
    let v = mirror_radar_public(device, radar, known)?;
    let mut out = state;
    out.insert("radar", v);
    Ok((out, need))
}

fn mirror_calendar(device: &mut HoloCubicUsb, state: Json, known: Option<&str>) -> (r: Result<
    (Json, bool),
    Halt,
>)
    ensures
        step_end(r, final(device).pos()) == calendar_step(
            old(device).log(),
            old(device).pos(),
            state@,
            opt_text(known),
        ),
        final(device).log() == old(device).log(),
        final(device).port() == old(device).port(),
{
    let calendar = match state.get("calendar") {
        Some(v) => v.clone(),
        None => {
            return Ok((state, false));
        },
    };
    let complete = match calendar.get_array("calendar_pages") {
        Some(pages) => pages_all_drawn(pages),
        None => false,
    };
    let known_already = match (calendar.get_str("calendar_signature"), known) {
        (Some(a), Some(b)) => same_text(a, b),
        (None, None) => true,
        _ => false,
    };
    let need = !known_already && !complete;
    let v = mirror_calendar_public(device, calendar, known)?;
    let mut out = state;
    out.insert("calendar", v);
    Ok((out, need))
}

/// Whether the pictures of a playlist are of the two kinds there are, each
/// with a sum and a size.
pub open spec fn pictures_valid(images: JsonView) -> bool {
    match images {
        JsonView::Object(m) => forall|k: Seq<char>| #[trigger]
            m.dom().contains(k) ==> (k == "text"@ || k == "image"@) && page_meta(m[k]) is Some,
        _ => true,
    }
}

/// Sum and size of a picture that has to be read: one without its data whose
/// sum is not among the known ones.
pub open spec fn picture_due(
    images: Option<JsonView>,
    known: Option<JsonView>,
    kind: Seq<char>,
) -> Option<(Seq<char>, int)> {
    match images {
        Some(list) => match at(list, kind) {
            Some(picture) => match page_meta(picture) {
                Some((crc, size)) => if at(picture, "data"@) is None && !(match known {
                    Some(crcs) => text_of(at(crcs, kind)) == Some(crc),
                    None => false,
                }) {
                    Some((crc, size))
                } else {
                    None
                },
                None => None,
            },
            None => None,
        },
        None => None,
    }
}

/// A state with something put into one of its pictures.
pub open spec fn put_picture(
    v: JsonView,
    kind: Seq<char>,
    key: Seq<char>,
    value: JsonView,
) -> JsonView {
    match at(v, "home_images"@) {
        Some(images) => put(v, "home_images"@, put_in(images, kind, key, value)),
        None => v,
    }
}

/// One picture of a playlist, read back where it is due.
pub open spec fn picture_step(
    log: Seq<AnswerView>,
    pos: int,
    state: JsonView,
    known: Option<JsonView>,
    kind: Seq<char>,
) -> Turn<Mirrored> {
    match picture_due(at(state, "home_images"@), known, kind) {
        None => Turn::Done(Mirrored { state, transferred: false }, pos),
        Some((crc, size)) => match read_back(
            log,
            pos,
            put(
                put(plain_command("home_asset_read"@), "kind"@, JsonView::Str(kind)),
                "crc32"@,
                JsonView::Str(crc),
            ),
            crc,
            None,
            "轮播图片分块不匹配"@,
            size,
            Seq::empty(),
        ) {
            Turn::Done(data, k) => if crc_hex(data) == crc {
                Turn::Done(
                    Mirrored {
                        state: put_picture(state, kind, "data"@, bytes_view(data)),
                        transferred: true,
                    },
                    k,
                )
            } else {
                Turn::Failed("轮播图片 CRC 校验失败"@, k)
            },
            other => stopped(other),
        },
    }
}

/// Puts something into one of the pictures of a state.
pub fn insert_picture(state: &mut Json, kind: &str, key: &str, value: Json)
    ensures
        final(state)@ == put_picture(old(state)@, kind@, key@, value@),
{
    let changed = match state.get("home_images") {
        Some(images) => {
            let mut list = images.clone();
            list.insert_in(kind, key, value);
            Some(list)
        },
        None => None,
    };
    match changed {
        Some(list) => {
            state.insert("home_images", list);
        },
        None => {},
    }
}

fn check_pictures(images: &Json) -> (r: bool)
    ensures
        r == pictures_valid(images@),
{
    let mut i: usize = 0;
    let keys = images.keys();
    while i < keys.len()
        invariant
            i <= keys@.len(),
            forall|k: Seq<char>|
                at(images@, k) is Some <==> exists|n: int| 0 <= n < keys@.len() && #[trigger] keys@[n]@ == k,
            forall|n: int|
                0 <= n < i ==> ((#[trigger] keys@[n])@ == "text"@ || keys@[n]@ == "image"@)
                    && page_meta(at(images@, keys@[n]@)->0) is Some,
        decreases keys@.len() - i,
    {
        let key = keys[i].as_str();
        assert(at(images@, key@) is Some);
        if !same_text(key, "text") && !same_text(key, "image") {
            return false;
        }
        let described = match images.get(key) {
            Some(picture) => describe(picture).is_some(),
            None => false,
        };
        if !described {
            return false;
        }
        i += 1;
    }
    proof {
        if let JsonView::Object(m) = images@ {
            assert forall|k: Seq<char>| #[trigger] m.dom().contains(k) implies (k == "text"@ || k
                == "image"@) && page_meta(m[k]) is Some by {
                assert(at(images@, k) is Some);
            }
        }
    }
    true
}

/// Sum and size of a picture.
fn describe(picture: &Json) -> (r: Option<(String, usize)>)
    ensures
        match r {
            Some((crc, size)) => page_meta(picture@) == Some((crc@, size as int)),
            None => page_meta(picture@) is None,
        },
{
    match (picture.get_str("crc32"), picture.get_u64("size")) {
        (Some(crc), Some(size)) => if size < 1 || size > 524288 {
            None
        } else {
            Some((crc.to_owned(), size as usize))
        },
        _ => None,
    }
}

fn mirror_picture(device: &mut HoloCubicUsb, state: Json, known: Option<&Json>, kind: &str) -> (r:
    Result<(Json, bool), Halt>)
    ensures
        step_end(r, final(device).pos()) == picture_step(
            old(device).log(),
            old(device).pos(),
            state@,
            option_view(known),
            kind@,
        ),
        final(device).log() == old(device).log(),
        final(device).port() == old(device).port(),
{
    let due = match state.get_in("home_images", kind) {
        Some(picture) => match describe(picture) {
            Some((crc, size)) => {
                let known_already = match known {
                    Some(crcs) => crcs.is_str(kind, crc.as_str()),
                    None => false,
                };
                if picture.get("data").is_none() && !known_already {
                    Some((crc, size))
                } else {
                    None
                }
            },
            None => None,
        },
        None => None,
    };
    match due {
        None => Ok((state, false)),
        Some((crc, size)) => {
            let ask = command("home_asset_read").with("kind", Json::text(kind)).with(
                "crc32",
                Json::text(crc.as_str()),
            );
            let raw = device.read_back(&ask, crc.as_str(), None, "轮播图片分块不匹配", size)?;
            if !same_text(crc32_hex(raw.as_slice()).as_str(), crc.as_str()) {
                return Err(failed("轮播图片 CRC 校验失败"));
            }
            let mut out = state;
            insert_picture(&mut out, kind, "data", bytes_json(raw.as_slice()));
            Ok((out, true))
        },
    }
}

/// A fresh state that takes over what was read for one scene, if the scene
/// still has the same sum.
pub open spec fn carried(
    state: JsonView,
    latest: JsonView,
    key: Seq<char>,
    checksum: Seq<char>,
    payload: Seq<char>,
) -> Option<JsonView> {
    match at(state, key) {
        None => Some(latest),
        Some(old) => if same_option(at(old, checksum), at_in(latest, key, checksum)) {
            match at(old, payload) {
                Some(data) => Some(put_in(latest, key, payload, data)),
                None => Some(latest),
            }
        } else {
            None
        },
    }
}

/// A fresh state that takes over what was read for one picture, if the picture
/// still has the same sum.
pub open spec fn picture_carried(state: JsonView, latest: JsonView, kind: Seq<char>) -> Option<
    JsonView,
> {
    match at_in(state, "home_images"@, kind) {
        None => Some(latest),
        Some(old) => if same_option(
            at(old, "crc32"@),
            match at(latest, "home_images"@) {
                Some(images) => at_in(images, kind, "crc32"@),
                None => None,
            },
        ) {
            match at(old, "data"@) {
                Some(data) => Some(put_picture(latest, kind, "data"@, data)),
                None => Some(latest),
            }
        } else {
            None
        },
    }
}

/// Pages that take over the pictures of others, one by one.
pub open spec fn pages_carried(new: Seq<JsonView>, old: Seq<JsonView>) -> Seq<JsonView> {
    Seq::new(
        new.len(),
        |i: int|
            if i < old.len() {
                match at(old[i], "data"@) {
                    Some(data) => put(new[i], "data"@, data),
                    None => new[i],
                }
            } else {
                new[i]
            },
    )
}

/// A state whose calendar pages take over the pictures of others.
pub open spec fn pages_carried_into(latest: JsonView, old: Option<JsonView>) -> JsonView {
    match (items_of(old), items_of(at_in(latest, "calendar"@, "calendar_pages"@))) {
        (Some(o), Some(n)) => put_in(
            latest,
            "calendar"@,
            "calendar_pages"@,
            JsonView::Array(pages_carried(n, o)),
        ),
        _ => latest,
    }
}

/// A fresh state that takes over the pages that were read, if the calendar is
/// still the same.
pub open spec fn calendar_carried(state: JsonView, latest: JsonView) -> Option<JsonView> {
    match at(state, "calendar"@) {
        None => Some(latest),
        Some(old) => if same_option(
            at(old, "calendar_signature"@),
            at_in(latest, "calendar"@, "calendar_signature"@),
        ) {
            Some(pages_carried_into(latest, at(old, "calendar_pages"@)))
        } else {
            None
        },
    }
}

fn carry(state: &Json, latest: Json, key: &str, checksum: &str, payload: &str) -> (r: Option<Json>)
    ensures
        match r {
            Some(v) => carried(state@, latest@, key@, checksum@, payload@) == Some(v@),
            None => carried(state@, latest@, key@, checksum@, payload@) is None,
        },
{
    match state.get(key) {
        None => Some(latest),
        Some(old) => {
            if !options_same(old.get(checksum), latest.get_in(key, checksum)) {
                return None;
            }
            let mut out = latest;
            match old.get(payload) {
                Some(data) => {
                    out.insert_in(key, payload, data.clone());
                },
                None => {},
            }
            Some(out)
        },
    }
}

fn carry_picture(state: &Json, latest: Json, kind: &str) -> (r: Option<Json>)
    ensures
        match r {
            Some(v) => picture_carried(state@, latest@, kind@) == Some(v@),
            None => picture_carried(state@, latest@, kind@) is None,
        },
{
    match state.get_in("home_images", kind) {
        None => Some(latest),
        Some(old) => {
            let unchanged = {
                let now = match latest.get("home_images") {
                    Some(images) => images.get_in(kind, "crc32"),
                    None => None,
                };
                options_same(old.get("crc32"), now)
            };
            if !unchanged {
                return None;
            }
            let mut out = latest;
            match old.get("data") {
                Some(data) => {
                    insert_picture(&mut out, kind, "data", data.clone());
                },
                None => {},
            }
            Some(out)
        },
    }
}

/// Takes the pictures of one calendar over into the pages of another.
pub fn carry_pages(latest: Json, old: Option<&Json>) -> (r: Json)
    ensures
        r@ == pages_carried_into(latest@, option_view(old)),
{
    let old_pages = match old {
        Some(v) => v.as_array(),
        None => None,
    };
    let merged = match (old_pages, latest.get_in("calendar", "calendar_pages")) {
        (Some(o), Some(v)) => match v.as_array() {
            Some(n) => Some(merge_pages(n, o)),
            None => None,
        },
        _ => None,
    };
    let mut out = latest;
    match merged {
        Some(pages) => {
            out.insert_in("calendar", "calendar_pages", Json::list(pages));
        },
        None => {},
    }
    out
}

fn merge_pages(new: &Vec<Json>, old: &Vec<Json>) -> (r: Vec<Json>)
    ensures
        models(r@) == pages_carried(models(new@), models(old@)),
{
    let mut out: Vec<Json> = Vec::new();
    let mut i: usize = 0;
    while i < new.len()
        invariant
            i <= new@.len(),
            out@.len() == i,
            forall|k: int|
                #![trigger out@[k]]
                0 <= k < i ==> out@[k]@ == pages_carried(models(new@), models(old@))[k],
        decreases new@.len() - i,
    {
        let mut page = new[i].clone();
        if i < old.len() {
            match old[i].get("data") {
                Some(data) => {
                    page.insert("data", data.clone());
                },
                None => {},
            }
        }
        out.push(page);
        i += 1;
    }
    assert(models(out@) =~= pages_carried(models(new@), models(old@)));
    out
}

fn carry_calendar(state: &Json, latest: Json) -> (r: Option<Json>)
    ensures
        match r {
            Some(v) => calendar_carried(state@, latest@) == Some(v@),
            None => calendar_carried(state@, latest@) is None,
        },
{
    match state.get("calendar") {
        None => Some(latest),
        Some(old) => {
            if !options_same(
                old.get("calendar_signature"),
                latest.get_in("calendar", "calendar_signature"),
            ) {
                return None;
            }
            Some(carry_pages(latest, old.get("calendar_pages")))
        },
    }
}

/// A fresh state of a playlist with everything that was read put in, if it is
/// still the playlist that was read.
pub open spec fn playlist_carried(pos: int, state: JsonView, latest: JsonView) -> Turn<JsonView> {
    match carried(state, latest, "task"@, "labels_crc"@, "labels"@) {
        None => Turn::Failed("回读期间轮播内容已变化"@, pos),
        Some(a) => match carried(state, a, "radar"@, "crc32"@, "radar_data"@) {
            None => Turn::Failed("回读期间轮播内容已变化"@, pos),
            Some(b) => match picture_carried(state, b, "image"@) {
                None => Turn::Failed("回读期间轮播图片已变化"@, pos),
                Some(c) => match picture_carried(state, c, "text"@) {
                    None => Turn::Failed("回读期间轮播图片已变化"@, pos),
                    Some(d) => match calendar_carried(state, d) {
                        None => Turn::Failed("回读期间日历已变化"@, pos),
                        Some(e) => Turn::Done(e, pos),
                    },
                },
            },
        },
    }
}

fn carry_playlist(state: &Json, latest: Json) -> (r: Result<Json, Halt>)
    ensures
        forall|pos: int| #[trigger] value_end(r, pos) == playlist_carried(pos, state@, latest@),
{
    let a = match carry(state, latest, "task", "labels_crc", "labels") {
        Some(v) => v,
        None => {
            return Err(failed("回读期间轮播内容已变化"));
        },
    };
    let b = match carry(state, a, "radar", "crc32", "radar_data") {
        Some(v) => v,
        None => {
            return Err(failed("回读期间轮播内容已变化"));
        },
    };
    let c = match carry_picture(state, b, "image") {
        Some(v) => v,
        None => {
            return Err(failed("回读期间轮播图片已变化"));
        },
    };
    let d = match carry_picture(state, c, "text") {
        Some(v) => v,
        None => {
            return Err(failed("回读期间轮播图片已变化"));
        },
    };
    match carry_calendar(state, d) {
        Some(v) => Ok(v),
        None => Err(failed("回读期间日历已变化")),
    }
}

/// Brings the scenes and the pictures of a playlist up to date, in order.
pub open spec fn playlist_read(
    log: Seq<AnswerView>,
    pos: int,
    state: JsonView,
    labels: Option<Seq<char>>,
    radar: Option<Seq<char>>,
    calendar: Option<Seq<char>>,
    pictures: Option<JsonView>,
) -> Turn<Mirrored> {
    match task_step(log, pos, state, labels) {
        Turn::Done(a, ka) => match radar_step(log, ka, a.state, radar) {
            Turn::Done(b, kb) => match calendar_step(log, kb, b.state, calendar) {
                Turn::Done(c, kc) => if !(match at(c.state, "home_images"@) {
                    Some(images) => pictures_valid(images),
                    None => true,
                }) {
                    Turn::Failed("轮播图片元数据无效"@, kc)
                } else {
                    match picture_step(log, kc, c.state, pictures, "image"@) {
                        Turn::Done(d, kd) => match picture_step(
                            log,
                            kd,
                            d.state,
                            pictures,
                            "text"@,
                        ) {
                            Turn::Done(e, ke) => Turn::Done(
                                Mirrored {
                                    state: e.state,
                                    transferred: a.transferred || b.transferred || c.transferred
                                        || d.transferred || e.transferred,
                                },
                                ke,
                            ),
                            other => stopped(other),
                        },
                        other => stopped(other),
                    }
                },
                other => stopped(other),
            },
            other => stopped(other),
        },
        other => stopped(other),
    }
}

/// The state of a playlist with everything it shows. Where something had to be
/// transferred, the state is asked for once more and must still be the same.
pub open spec fn playlist_mirrored(
    log: Seq<AnswerView>,
    pos: int,
    state: JsonView,
    labels: Option<Seq<char>>,
    radar: Option<Seq<char>>,
    calendar: Option<Seq<char>>,
    pictures: Option<JsonView>,
) -> Turn<JsonView> {
    if u64_of(at(state, "home_protocol"@)) != Some(1u64) {
        Turn::Failed("设备不支持主页轮播回读"@, pos)
    } else {
        match playlist_read(log, pos, state, labels, radar, calendar, pictures) {
            Turn::Done(m, k) => if !m.transferred {
                Turn::Done(m.state, k)
            } else {
                match at(m.state, "home_id"@) {
                    None => Turn::Failed("回读期间轮播配置已变化，请重新检测连接"@, k),
                    Some(id) => match value_turn(log, k, status_ask()) {
                        Turn::Done(latest, n) => if text_of(at(latest, "mode"@)) == Some("home"@)
                            && same_option(at(latest, "home_id"@), Some(id)) {
                            playlist_carried(n, m.state, latest)
                        } else {
                            Turn::Failed("回读期间轮播配置已变化，请重新检测连接"@, n)
                        },
                        other => stopped(other),
                    },
                }
            },
            other => stopped(other),
        }
    }
}

fn read_playlist(
    device: &mut HoloCubicUsb,
    state: Json,
    labels_crc: Option<&str>,
    radar_crc: Option<&str>,
    calendar_signature: Option<&str>,
    home_crcs: Option<&Json>,
) -> (r: Result<(Json, bool), Halt>)
    ensures
        step_end(r, final(device).pos()) == playlist_read(
            old(device).log(),
            old(device).pos(),
            state@,
            opt_text(labels_crc),
            opt_text(radar_crc),
            opt_text(calendar_signature),
            option_view(home_crcs),
        ),
        final(device).log() == old(device).log(),
        final(device).port() == old(device).port(),
{
    let (a, task_moved) = mirror_task(device, state, labels_crc)?;
    let (b, radar_moved) = mirror_radar(device, a, radar_crc)?;
    let (c, calendar_moved) = mirror_calendar(device, b, calendar_signature)?;
    let valid = match c.get("home_images") {
        Some(images) => check_pictures(images),
        None => true,
    };
    if !valid {
        return Err(failed("轮播图片元数据无效"));
    }
    let (d, image_moved) = mirror_picture(device, c, home_crcs, "image")?;
    let (e, text_moved) = mirror_picture(device, d, home_crcs, "text")?;
    Ok((e, task_moved || radar_moved || calendar_moved || image_moved || text_moved))
}

/// The state of a playlist with everything it shows.
pub fn mirror_home_public(
    device: &mut HoloCubicUsb,
    state: Json,
    labels_crc: Option<&str>,
    radar_crc: Option<&str>,
    calendar_signature: Option<&str>,
    home_crcs: Option<&Json>,
) -> (r: Result<Json, Halt>)
    ensures
        value_end(r, final(device).pos()) == playlist_mirrored(
            old(device).log(),
            old(device).pos(),
            state@,
            opt_text(labels_crc),
            opt_text(radar_crc),
            opt_text(calendar_signature),
            option_view(home_crcs),
        ),
        final(device).log() == old(device).log(),
        final(device).port() == old(device).port(),
{
    if state.get_u64("home_protocol") != Some(1) {
        return Err(failed("设备不支持主页轮播回读"));
    }
    let (read, transferred) = read_playlist(
        device,
        state,
        labels_crc,
        radar_crc,
        calendar_signature,
        home_crcs,
    )?;
    if !transferred {
        return Ok(read);
    }
    let home_id = match read.get("home_id") {
        Some(id) => id.clone(),
        None => {
            return Err(failed("回读期间轮播配置已变化，请重新检测连接"));
        },
    };
    let latest = device.status()?;
    if !latest.is_str("mode", "home") || !options_same(latest.get("home_id"), Some(&home_id)) {
        return Err(failed("回读期间轮播配置已变化，请重新检测连接"));
    }
    carry_playlist(&read, latest)
}

/// What the host knows already of what the device shows.
pub struct Known<'a> {
    pub labels_crc: Option<&'a str>,
    pub radar_crc: Option<&'a str>,
    pub calendar_signature: Option<&'a str>,
    pub home_crcs: Option<&'a Json>,
}

#[verifier::ext_equal]
pub struct KnownView {
    pub labels_crc: Option<Seq<char>>,
    pub radar_crc: Option<Seq<char>>,
    pub calendar_signature: Option<Seq<char>>,
    pub home_crcs: Option<JsonView>,
}

impl<'a> View for Known<'a> {
    type V = KnownView;

    open spec fn view(&self) -> KnownView {
        KnownView {
            labels_crc: opt_text(self.labels_crc),
            radar_crc: opt_text(self.radar_crc),
            calendar_signature: opt_text(self.calendar_signature),
            home_crcs: option_view(self.home_crcs),
        }
    }
}

/// What a request says the host knows.
pub open spec fn known_in(request: JsonView) -> KnownView {
    KnownView {
        labels_crc: text_of(at(request, "labels_crc"@)),
        radar_crc: text_of(at(request, "radar_crc"@)),
        calendar_signature: text_of(at(request, "calendar_signature"@)),
        home_crcs: at(request, "home_crcs"@),
    }
}

/// What a request says the host knows.
pub fn known_of(request: &Json) -> (r: Known<'_>)
    ensures
        r@ == known_in(request@),
{
    Known {
        labels_crc: request.get_str("labels_crc"),
        radar_crc: request.get_str("radar_crc"),
        calendar_signature: request.get_str("calendar_signature"),
        home_crcs: request.get("home_crcs"),
    }
}

/// A state with everything it shows, whatever its mode.
pub open spec fn state_mirrored(
    log: Seq<AnswerView>,
    pos: int,
    state: JsonView,
    known: KnownView,
    uploaded: Option<Seq<u8>>,
) -> Turn<JsonView> {
    let mode = text_of(at(state, "mode"@));
    if mode == Some("home"@) {
        playlist_mirrored(
            log,
            pos,
            state,
            known.labels_crc,
            known.radar_crc,
            known.calendar_signature,
            known.home_crcs,
        )
    } else if mode == Some("radar"@) {
        radar_mirrored(log, pos, state, known.radar_crc)
    } else if mode == Some("calendar"@) {
        calendar_mirrored(log, pos, state, known.calendar_signature)
    } else {
        labels_mirrored(log, pos, state, known.labels_crc, uploaded)
    }
}

/// A state with everything it shows, whatever its mode.
pub fn mirror_state(
    device: &mut HoloCubicUsb,
    state: Json,
    known: &Known<'_>,
    uploaded: Option<&[u8]>,
) -> (r: Result<Json, Halt>)
    ensures
        value_end(r, final(device).pos()) == state_mirrored(
            old(device).log(),
            old(device).pos(),
            state@,
            known@,
            match uploaded {
                Some(data) => Some(data@),
                None => None,
            },
        ),
        final(device).log() == old(device).log(),
        final(device).port() == old(device).port(),
{
    if state.is_str("mode", "home") {
        mirror_home_public(
            device,
            state,
            known.labels_crc,
            known.radar_crc,
            known.calendar_signature,
            known.home_crcs,
        )
    } else if state.is_str("mode", "radar") {
        mirror_radar_public(device, state, known.radar_crc)
    } else if state.is_str("mode", "calendar") {
        mirror_calendar_public(device, state, known.calendar_signature)
    } else {
        device.mirror_labels(state, known.labels_crc, uploaded)
    }
}

/// A finished turn with the port put into its result.
pub open spec fn with_port(t: Turn<JsonView>, port: Seq<char>) -> Turn<JsonView> {
    match t {
        Turn::Done(v, pos) => Turn::Done(put(v, "port"@, JsonView::Str(port)), pos),
        other => other,
    }
}

/// The handshake alone, with the port that answered.
pub fn ping_result(device: &mut HoloCubicUsb) -> (r: Result<Json, Halt>)
    ensures
        value_end(r, final(device).pos()) == with_port(
            value_turn(
                old(device).log(),
                old(device).pos(),
                AskView::Ready { timeout_ms: 6000 },
            ),
            old(device).port(),
        ),
        final(device).log() == old(device).log(),
        final(device).port() == old(device).port(),
{
    let mut result = device.hello()?;
    result.insert("port", Json::text(device.port_name()));
    Ok(result)
}

/// What the device shows, in full.
pub open spec fn status_shown(
    log: Seq<AnswerView>,
    pos: int,
    port: Seq<char>,
    known: KnownView,
) -> Turn<JsonView> {
    match value_turn(log, pos, AskView::Ready { timeout_ms: 6000 }) {
        Turn::Done(state, k) => with_port(state_mirrored(log, k, state, known, None), port),
        other => stopped(other),
    }
}

/// What the device shows, in full but for what the host knows already.
pub fn status_result_with_hints(device: &mut HoloCubicUsb, known: &Known<'_>) -> (r: Result<
    Json,
    Halt,
>)
    ensures
        value_end(r, final(device).pos()) == status_shown(
            old(device).log(),
            old(device).pos(),
            old(device).port(),
            known@,
        ),
        final(device).log() == old(device).log(),
        final(device).port() == old(device).port(),
{
    let state = device.hello()?;
    let mut result = mirror_state(device, state, known, None)?;
    result.insert("port", Json::text(device.port_name()));
    Ok(result)
}

/// Whether the label picture of a task is in hand: the state brings it along, with
/// the size and the sum that it names, or brings none and it is known by its sum.
/// Of a scene that shows no task only the sum counts.
pub open spec fn labels_in_hand(task: JsonView, known: Option<Seq<char>>) -> bool {
    if text_of(at(task, "mode"@)) != Some("task"@) {
        at(task, "labels"@) is None && text_of(at(task, "labels_crc"@)) == known
    } else {
        &&& u64_of(at(task, "mirror_protocol"@)) == Some(1u64)
        &&& match labels_meta(task) {
            Some((crc, size)) => match at(task, "labels"@) {
                Some(labels) => exists|data: Seq<u8>|
                    labels == #[trigger] bytes_view(data) && data.len() == size && crc_hex(data) == crc,
                None => known == Some(crc),
            },
            None => false,
        }
    }
}

/// Whether the data of a radar are in hand: brought along, or known by their sum.
pub open spec fn radar_in_hand(radar: JsonView, known: Option<Seq<char>>) -> bool {
    &&& u64_of(at(radar, "radar_mirror_protocol"@)) == Some(1u64)
    &&& match radar_meta(radar) {
        Some((crc, _)) => at(radar, "radar_data"@) is Some || known == Some(crc),
        None => false,
    }
}

/// Whether the pages of a calendar are in hand: brought along, or known by the
/// signature.
pub open spec fn calendar_in_hand(calendar: JsonView, known: Option<Seq<char>>) -> bool {
    match (
        text_of(at(calendar, "calendar_signature"@)),
        items_of(at(calendar, "calendar_pages"@)),
    ) {
        (Some(signature), Some(pages)) => 1 <= pages.len() <= 32 && (known == Some(signature)
            || pages_complete(pages)),
        _ => false,
    }
}

/// Whether all that a playlist shows is in hand.
pub open spec fn playlist_in_hand(state: JsonView, known: KnownView) -> bool {
    &&& u64_of(at(state, "home_protocol"@)) == Some(1u64)
    &&& match at(state, "task"@) {
        Some(task) => labels_in_hand(task, known.labels_crc),
        None => true,
    }
    &&& match at(state, "radar"@) {
        Some(radar) => radar_in_hand(radar, known.radar_crc),
        None => true,
    }
    &&& match at(state, "calendar"@) {
        Some(calendar) => calendar_in_hand(calendar, known.calendar_signature),
        None => true,
    }
    &&& match at(state, "home_images"@) {
        Some(images) => pictures_valid(images),
        None => true,
    }
    &&& picture_due(at(state, "home_images"@), known.home_crcs, "image"@) is None
    &&& picture_due(at(state, "home_images"@), known.home_crcs, "text"@) is None
}

proof fn lemma_put_again(v: JsonView, key: Seq<char>)
    requires
        at(v, key) is Some,
    ensures
        put(v, key, at(v, key)->0) == v,
{
    let m = v->Object_0;
    assert(m.insert(key, m[key]) =~= m);
}

proof fn lemma_labels_in_hand(
    log: Seq<AnswerView>,
    pos: int,
    state: JsonView,
    known: Option<Seq<char>>,
)
    requires
        match at(state, "task"@) {
            Some(task) => labels_in_hand(task, known),
            None => true,
        },
    ensures
        task_step(log, pos, state, known) == Turn::Done(
            Mirrored { state, transferred: false },
            pos,
        ),
{
    match at(state, "task"@) {
        Some(task) => {
            let bare = without(task, "labels"@);
            reveal_strlit("labels");
            reveal_strlit("mode");
            reveal_strlit("mirror_protocol");
            reveal_strlit("labels_crc");
            reveal_strlit("labels_size");
            assert("labels"@.len() == 6);
            assert("mode"@.len() == 4);
            assert("mirror_protocol"@.len() == 15);
            assert("labels_crc"@.len() == 10);
            assert("labels_size"@.len() == 11);
            assert(labels_meta(bare) == labels_meta(task));
            match at(task, "labels"@) {
                Some(labels) => {
                    let m = task->Object_0;
                    assert(m.remove("labels"@).insert("labels"@, labels) =~= m);
                    let (crc, size) = labels_meta(task)->0;
                    let data = choose|data: Seq<u8>|
                        labels == #[trigger] bytes_view(data) && data.len() == size && crc_hex(data)
                            == crc;
                    law_bytes_read_back(data);
                    assert(items_of(Some(labels)) == Some(bytes_view(data)->Array_0));
                },
                None => {
                    if task is Object {
                        let m = task->Object_0;
                        assert(m.remove("labels"@) =~= m);
                    }
                    assert(bare == task);
                },
            }
            lemma_put_again(state, "task"@);
        },
        None => {},
    }
}

/// Of a playlist of which everything is in hand nothing is read again: its state
/// comes back as it is, and the device is asked for nothing.
pub proof fn law_playlist_in_hand_is_not_read(
    log: Seq<AnswerView>,
    pos: int,
    state: JsonView,
    known: KnownView,
)
    requires
        text_of(at(state, "mode"@)) == Some("home"@),
        playlist_in_hand(state, known),
    ensures
        state_mirrored(log, pos, state, known, None) == Turn::Done(state, pos),
{
    lemma_labels_in_hand(log, pos, state, known.labels_crc);
    if at(state, "radar"@) is Some {
        lemma_put_again(state, "radar"@);
    }
    if at(state, "calendar"@) is Some {
        lemma_put_again(state, "calendar"@);
    }
}

/// Of a single scene that is known nothing is read again: its state comes back as
/// it is, and the device is asked for nothing.
pub proof fn law_scene_in_hand_is_not_read(
    log: Seq<AnswerView>,
    pos: int,
    state: JsonView,
    known: KnownView,
)
    requires
        ({
            let mode = text_of(at(state, "mode"@));
            if mode == Some("radar"@) {
                radar_in_hand(state, known.radar_crc)
            } else if mode == Some("calendar"@) {
                calendar_in_hand(state, known.calendar_signature)
            } else if mode == Some("task"@) {
                at(state, "labels"@) is None && labels_in_hand(state, known.labels_crc)
            } else {
                mode != Some("home"@)
            }
        }),
    ensures
        state_mirrored(log, pos, state, known, None) == Turn::Done(state, pos),
{
    reveal_strlit("home");
    reveal_strlit("radar");
    reveal_strlit("calendar");
    reveal_strlit("task");
    assert("home"@[0] == 'h');
    assert("radar"@[0] == 'r');
    assert("calendar"@[0] == 'c');
    assert("task"@[0] == 't');
}

proof fn lemma_scene_members()
    ensures
        "task"@.len() == 4,
        "radar"@.len() == 5,
        "calendar"@.len() == 8,
        "home_images"@.len() == 11,
        "home_id"@.len() == 7,
        "mode"@.len() == 4,
        "labels"@.len() == 6,
        "labels_crc"@.len() == 10,
        "labels_size"@.len() == 11,
        "mirror_protocol"@.len() == 15,
        "crc32"@.len() == 5,
        "radar_data"@.len() == 10,
        "radar_size"@.len() == 10,
        "radar_mirror_protocol"@.len() == 21,
        "calendar_signature"@.len() == 18,
        "calendar_pages"@.len() == 14,
        "data"@.len() == 4,
        "size"@.len() == 4,
        "cmd"@.len() == 3,
        "kind"@.len() == 4,
        "offset"@.len() == 6,
        "image"@.len() == 5,
        "text"@.len() == 4,
        "port"@.len() == 4,
        "task"@[0] == 't',
        "mode"@[0] == 'm',
        "data"@[0] == 'd',
        "size"@[0] == 's',
        "kind"@[0] == 'k',
        "task"@[1] == 'a',
        "text"@[1] == 'e',
        "port"@[0] == 'p',
        "radar"@[0] == 'r',
        "crc32"@[0] == 'c',
        "image"@[0] == 'i',
        "home_images"@[0] == 'h',
        "labels_size"@[0] == 'l',
        "text"@[0] == 't',
        "labels"@[0] == 'l',
        "offset"@[0] == 'o',
        "labels_crc"@[0] == 'l',
        "radar_data"@[0] == 'r',
        "radar_size"@[0] == 'r',
        "radar_data"@[6] == 'd',
        "radar_size"@[6] == 's',
{
    reveal_strlit("task");
    reveal_strlit("radar");
    reveal_strlit("calendar");
    reveal_strlit("home_images");
    reveal_strlit("home_id");
    reveal_strlit("mode");
    reveal_strlit("labels");
    reveal_strlit("labels_crc");
    reveal_strlit("labels_size");
    reveal_strlit("mirror_protocol");
    reveal_strlit("crc32");
    reveal_strlit("radar_data");
    reveal_strlit("radar_size");
    reveal_strlit("radar_mirror_protocol");
    reveal_strlit("calendar_signature");
    reveal_strlit("calendar_pages");
    reveal_strlit("data");
    reveal_strlit("size");
    reveal_strlit("cmd");
    reveal_strlit("kind");
    reveal_strlit("offset");
    reveal_strlit("image");
    reveal_strlit("text");
    reveal_strlit("port");
}

/// A picture of a playlist that is not known is read by its kind and its sum, and put
/// under its kind; one that is known, or came along, is left as it is.
pub proof fn law_picture_is_read_back(
    log: Seq<AnswerView>,
    pos: int,
    state: JsonView,
    known: Option<JsonView>,
    kind: Seq<char>,
    picture: JsonView,
    crc: Seq<char>,
    size: u64,
)
    requires
        0 <= pos <= log.len(),
        at_in(state, "home_images"@, kind) == Some(picture),
        text_of(at(picture, "crc32"@)) == Some(crc),
        u64_of(at(picture, "size"@)) == Some(size),
        1 <= size <= 524288,
    ensures
        ({
            let run = picture_step(log, pos, state, known, kind);
            let due = at(picture, "data"@) is None && !(known is Some && text_of(
                at(known->0, kind),
            ) == Some(crc));
            &&& !due ==> run == Turn::Done(Mirrored { state, transferred: false }, pos)
            &&& due && pos == log.len() ==> {
                &&& run matches Turn::Ask(AskView::Request { command: c, timeout_ms })
                &&& timeout_ms == 3000
                &&& at(c, "cmd"@) == Some(JsonView::Str("home_asset_read"@))
                &&& at(c, "kind"@) == Some(JsonView::Str(kind))
                &&& at(c, "crc32"@) == Some(JsonView::Str(crc))
                &&& at(c, "offset"@) == Some(JsonView::Int(0))
            }
            &&& due ==> (run matches Turn::Done(m, n) ==> {
                &&& m.transferred
                &&& forall|k: Seq<char>|
                    k != "home_images"@ ==> #[trigger] at(m.state, k) == at(state, k)
                &&& at(m.state, "home_images"@) matches Some(images)
                &&& forall|k: Seq<char>|
                    k != kind ==> #[trigger] at(images, k) == at_in(state, "home_images"@, k)
                &&& at(images, kind) matches Some(new)
                &&& forall|k: Seq<char>| k != "data"@ ==> #[trigger] at(new, k) == at(picture, k)
                &&& exists|data: Seq<u8>| #[trigger]
                    crc_hex(data) == crc && data.len() == size && at(new, "data"@) == Some(
                        bytes_view(data),
                    )
            })
        }),
{
    lemma_scene_members();
    let images = at(state, "home_images"@)->0;
    assert(images is Object && state is Object);
    assert(picture is Object);
    let command = put(
        put(plain_command("home_asset_read"@), "kind"@, JsonView::Str(kind)),
        "crc32"@,
        JsonView::Str(crc),
    );
    law_bytes_come_part_by_part(
        log,
        pos,
        command,
        crc,
        None,
        "轮播图片分块不匹配"@,
        size as int,
        Seq::empty(),
    );
    law_read_back_length(
        log,
        pos,
        command,
        crc,
        None,
        "轮播图片分块不匹配"@,
        size as int,
        Seq::empty(),
    );
    match read_back(
        log,
        pos,
        command,
        crc,
        None,
        "轮播图片分块不匹配"@,
        size as int,
        Seq::empty(),
    ) {
        Turn::Done(data, _) => {
            assert(crc_hex(data) == crc_hex(data));
        },
        _ => {},
    }
}

/// Reading never goes back in the list of answers.
proof fn lemma_read_forward(
    log: Seq<AnswerView>,
    pos: int,
    command: JsonView,
    crc: Seq<char>,
    page: Option<u64>,
    message: Seq<char>,
    size: int,
    got: Seq<u8>,
)
    requires
        0 <= pos <= log.len(),
    ensures
        read_back(log, pos, command, crc, page, message, size, got) matches Turn::Done(_, k) ==> pos
            <= k <= log.len(),
    decreases size - got.len(),
{
    if got.len() < size {
        let ask = AskView::Request {
            command: put(command, "offset"@, JsonView::Int(got.len() as int)),
            timeout_ms: 3000,
        };
        match value_turn(log, pos, ask) {
            Turn::Done(part, k) => match asset_part(
                part,
                crc,
                page,
                got.len() as int,
                size - got.len(),
            ) {
                Some(data) => {
                    lemma_read_forward(log, k, command, crc, page, message, size, got + data);
                },
                None => {},
            },
            _ => {},
        }
    }
}

proof fn lemma_pages_forward(
    log: Seq<AnswerView>,
    pos: int,
    signature: Seq<char>,
    pages: Seq<JsonView>,
)
    requires
        0 <= pos <= log.len(),
    ensures
        pages_read(log, pos, signature, pages) matches Turn::Done(_, k) ==> pos <= k <= log.len(),
    decreases pages.len(),
{
    if pages.len() > 0 {
        lemma_pages_forward(log, pos, signature, pages.drop_last());
        match pages_read(log, pos, signature, pages.drop_last()) {
            Turn::Done(_, k) => {
                let (crc, size) = page_meta(pages.last())->0;
                lemma_read_forward(
                    log,
                    k,
                    calendar_read(signature, pages.len() as int),
                    crc,
                    Some(pages.len() as u64),
                    "日历回读分块不匹配"@,
                    size,
                    Seq::empty(),
                );
            },
            _ => {},
        }
    }
}

proof fn lemma_task_read(
    log: Seq<AnswerView>,
    pos: int,
    state: JsonView,
    known: Option<Seq<char>>,
)
    requires
        0 <= pos <= log.len(),
    ensures
        task_step(log, pos, state, known) matches Turn::Done(m, k) ==> {
            &&& pos <= k <= log.len()
            &&& forall|key: Seq<char>| key != "task"@ ==> #[trigger] at(m.state, key) == at(state, key)
            &&& at(m.state, "task"@) is Some <==> at(state, "task"@) is Some
            &&& at(state, "task"@) matches Some(task) ==> (at(task, "mode"@) == Some(
                JsonView::Str("task"@),
            ) && text_of(at(task, "labels_crc"@)) != known ==> {
                &&& at_in(m.state, "task"@, "labels"@) is Some
                &&& at_in(m.state, "task"@, "labels_crc"@) is Some
                &&& items_of(at(task, "labels"@)) is None ==> m.transferred
            })
        },
{
    lemma_scene_members();
    match at(state, "task"@) {
        Some(task) => {
            let bare = without(task, "labels"@);
            assert(forall|key: Seq<char>|
                key != "labels"@ ==> #[trigger] at(bare, key) == at(task, key));
            let uploaded = match items_of(at(task, "labels"@)) {
                Some(items) => Some(bytes_of(items)),
                None => None,
            };
            if labels_meta(bare) is Some {
                let (crc, size) = labels_meta(bare)->0;
                lemma_read_forward(
                    log,
                    pos,
                    put(plain_command("task_labels_read"@), "crc32"@, JsonView::Str(crc)),
                    crc,
                    None,
                    "设备标签分块不匹配"@,
                    size,
                    Seq::empty(),
                );
                if uploaded is None && known != Some(crc) && text_of(at(bare, "mode"@)) == Some(
                    "task"@,
                ) && u64_of(at(bare, "mirror_protocol"@)) == Some(1u64) {
                    law_labels_are_read_back(log, pos, bare, known, crc, size);
                }
            }
        },
        None => {},
    }
}

proof fn lemma_radar_read(
    log: Seq<AnswerView>,
    pos: int,
    state: JsonView,
    known: Option<Seq<char>>,
)
    requires
        0 <= pos <= log.len(),
    ensures
        radar_step(log, pos, state, known) matches Turn::Done(m, k) ==> {
            &&& pos <= k <= log.len()
            &&& forall|key: Seq<char>|
                key != "radar"@ ==> #[trigger] at(m.state, key) == at(state, key)
            &&& at(m.state, "radar"@) is Some <==> at(state, "radar"@) is Some
            &&& at(state, "radar"@) matches Some(radar) ==> (text_of(at(radar, "crc32"@)) != known
                ==> {
                &&& at_in(m.state, "radar"@, "radar_data"@) is Some
                &&& at_in(m.state, "radar"@, "crc32"@) is Some
                &&& at(radar, "radar_data"@) is None ==> m.transferred
            })
        },
{
    lemma_scene_members();
    match at(state, "radar"@) {
        Some(radar) => {
            if radar_meta(radar) is Some {
                let (crc, size) = radar_meta(radar)->0;
                lemma_read_forward(
                    log,
                    pos,
                    put(plain_command("radar_read"@), "crc32"@, JsonView::Str(crc)),
                    crc,
                    None,
                    "设备雷达分块不匹配"@,
                    size,
                    Seq::empty(),
                );
                if at(radar, "radar_data"@) is None && known != Some(crc) && u64_of(
                    at(radar, "radar_mirror_protocol"@),
                ) == Some(1u64) {
                    law_radar_data_are_read_back(log, pos, radar, known, crc, size);
                }
            }
        },
        None => {},
    }
}

proof fn lemma_calendar_read(
    log: Seq<AnswerView>,
    pos: int,
    state: JsonView,
    known: Option<Seq<char>>,
)
    requires
        0 <= pos <= log.len(),
    ensures
        calendar_step(log, pos, state, known) matches Turn::Done(m, k) ==> {
            &&& pos <= k <= log.len()
            &&& forall|key: Seq<char>|
                key != "calendar"@ ==> #[trigger] at(m.state, key) == at(state, key)
            &&& at(m.state, "calendar"@) is Some <==> at(state, "calendar"@) is Some
            &&& at(state, "calendar"@) matches Some(calendar) ==> (text_of(
                at(calendar, "calendar_signature"@),
            ) != known ==> {
                &&& items_of(at_in(m.state, "calendar"@, "calendar_pages"@)) matches Some(pages)
                &&& pages_complete(pages)
                &&& at_in(m.state, "calendar"@, "calendar_signature"@) is Some
                &&& items_of(at(calendar, "calendar_pages"@)) matches Some(old)
                &&& !pages_complete(old) ==> m.transferred
            })
        },
{
    lemma_scene_members();
    match at(state, "calendar"@) {
        Some(calendar) => {
            match (
                text_of(at(calendar, "calendar_signature"@)),
                items_of(at(calendar, "calendar_pages"@)),
            ) {
                (Some(signature), Some(pages)) => {
                    lemma_pages_forward(log, pos, signature, pages);
                    if 1 <= pages.len() <= 32 && known != Some(signature) && !pages_complete(pages)
                        && pages_described(pages) {
                        law_pages_get_their_pictures(log, pos, calendar, known, signature, pages);
                        match calendar_mirrored(log, pos, calendar, known) {
                            Turn::Done(v, n) => {
                                let shown = items_of(at(v, "calendar_pages"@))->0;
                                assert forall|i: int| 0 <= i < shown.len() implies at(
                                    #[trigger] shown[i],
                                    "data"@,
                                ) is Some by {}
                            },
                            _ => {},
                        }
                    }
                },
                _ => {},
            }
        },
        None => {},
    }
}

proof fn lemma_picture_read(
    log: Seq<AnswerView>,
    pos: int,
    state: JsonView,
    known: Option<JsonView>,
    kind: Seq<char>,
)
    requires
        0 <= pos <= log.len(),
        at(state, "home_images"@) is None || pictures_valid(at(state, "home_images"@)->0),
    ensures
        picture_step(log, pos, state, known, kind) matches Turn::Done(m, k) ==> {
            &&& pos <= k <= log.len()
            &&& forall|key: Seq<char>|
                key != "home_images"@ ==> #[trigger] at(m.state, key) == at(state, key)
            &&& forall|key: Seq<char>|
                key != kind ==> #[trigger] at_in(m.state, "home_images"@, key) == at_in(
                    state,
                    "home_images"@,
                    key,
                )
            &&& at(m.state, "home_images"@) is None || pictures_valid(
                at(m.state, "home_images"@)->0,
            )
            &&& at_in(state, "home_images"@, kind) matches Some(picture) ==> (!(known is Some
                && text_of(at(known->0, kind)) == text_of(at(picture, "crc32"@))) ==> {
                &&& at_in(m.state, "home_images"@, kind) matches Some(new)
                &&& at(new, "data"@) is Some
                &&& at(new, "crc32"@) == at(picture, "crc32"@)
                &&& at(new, "crc32"@) is Some
                &&& at(picture, "data"@) is None ==> m.transferred
            })
        },
{
    lemma_scene_members();
    match at_in(state, "home_images"@, kind) {
        Some(picture) => {
            let images = at(state, "home_images"@)->0;
            let m = images->Object_0;
            assert(m.dom().contains(kind));
            assert(page_meta(picture) is Some);
            let crc = text_of(at(picture, "crc32"@))->0;
            let size = u64_of(at(picture, "size"@))->0;
            law_picture_is_read_back(log, pos, state, known, kind, picture, crc, size);
            lemma_read_forward(
                log,
                pos,
                put(
                    put(plain_command("home_asset_read"@), "kind"@, JsonView::Str(kind)),
                    "crc32"@,
                    JsonView::Str(crc),
                ),
                crc,
                None,
                "轮播图片分块不匹配"@,
                size as int,
                Seq::empty(),
            );
            match picture_step(log, pos, state, known, kind) {
                Turn::Done(r, _) => {
                    let after = at(r.state, "home_images"@)->0;
                    assert forall|k: Seq<char>| #[trigger]
                        after->Object_0.dom().contains(k) implies (k == "text"@ || k == "image"@)
                        && page_meta(after->Object_0[k]) is Some by {
                        assert(at(after, k) == Some(after->Object_0[k]));
                        if k == kind {
                            let new = at(after, kind)->0;
                            assert(at(new, "crc32"@) == at(picture, "crc32"@));
                            assert(at(new, "size"@) == at(picture, "size"@));
                        } else {
                            assert(at(images, k) == at_in(state, "home_images"@, k));
                            assert(m.dom().contains(k));
                        }
                    }
                },
                _ => {},
            }
        },
        None => {},
    }
}

/// Whether a state holds whatever another one describes and the host does not know:
/// the label picture of the task, the data of the radar, every page of the calendar
/// and both pictures.
pub open spec fn nothing_missing(v: JsonView, state: JsonView, known: KnownView) -> bool {
    &&& at_in(state, "task"@, "mode"@) == Some(JsonView::Str("task"@)) && text_of(
        at_in(state, "task"@, "labels_crc"@),
    ) != known.labels_crc ==> at_in(v, "task"@, "labels"@) is Some
    &&& at(state, "radar"@) is Some && text_of(at_in(state, "radar"@, "crc32"@))
        != known.radar_crc ==> at_in(v, "radar"@, "radar_data"@) is Some
    &&& at(state, "calendar"@) is Some && text_of(
        at_in(state, "calendar"@, "calendar_signature"@),
    ) != known.calendar_signature ==> has_all_pages(v)
    &&& picture_is_there(v, state, known.home_crcs, "text"@)
    &&& picture_is_there(v, state, known.home_crcs, "image"@)
}

/// Whether the calendar of a playlist has pages, and each of them a picture.
pub open spec fn has_all_pages(v: JsonView) -> bool {
    &&& items_of(at_in(v, "calendar"@, "calendar_pages"@)) matches Some(pages)
    &&& forall|i: int| 0 <= i < pages.len() ==> at(#[trigger] pages[i], "data"@) is Some
}

/// Whether a picture that is described and not known is there.
pub open spec fn picture_is_there(
    v: JsonView,
    state: JsonView,
    known: Option<JsonView>,
    kind: Seq<char>,
) -> bool {
    at_in(state, "home_images"@, kind) matches Some(picture) ==> (known is Some && text_of(
        at(known->0, kind),
    ) == text_of(at(picture, "crc32"@))) || (at_in(v, "home_images"@, kind) is Some && at(
        at_in(v, "home_images"@, kind)->0,
        "data"@,
    ) is Some)
}

/// What has a sum can be held against what is told later.
spec fn sums_there(v: JsonView, state: JsonView, known: KnownView) -> bool {
    &&& at_in(state, "task"@, "mode"@) == Some(JsonView::Str("task"@)) && text_of(
        at_in(state, "task"@, "labels_crc"@),
    ) != known.labels_crc ==> at_in(v, "task"@, "labels_crc"@) is Some
    &&& at(state, "radar"@) is Some && text_of(at_in(state, "radar"@, "crc32"@))
        != known.radar_crc ==> at_in(v, "radar"@, "crc32"@) is Some
    &&& at(state, "calendar"@) is Some && text_of(
        at_in(state, "calendar"@, "calendar_signature"@),
    ) != known.calendar_signature ==> at_in(v, "calendar"@, "calendar_signature"@) is Some
    &&& sum_is_there(v, state, known.home_crcs, "text"@)
    &&& sum_is_there(v, state, known.home_crcs, "image"@)
}

spec fn sum_is_there(
    v: JsonView,
    state: JsonView,
    known: Option<JsonView>,
    kind: Seq<char>,
) -> bool {
    at_in(state, "home_images"@, kind) matches Some(picture) ==> (known is Some && text_of(
        at(known->0, kind),
    ) == text_of(at(picture, "crc32"@))) || (at_in(v, "home_images"@, kind) is Some && at(
        at_in(v, "home_images"@, kind)->0,
        "crc32"@,
    ) is Some)
}

proof fn lemma_playlist_read(
    log: Seq<AnswerView>,
    pos: int,
    state: JsonView,
    known: KnownView,
)
    requires
        0 <= pos <= log.len(),
    ensures
        playlist_read(
            log,
            pos,
            state,
            known.labels_crc,
            known.radar_crc,
            known.calendar_signature,
            known.home_crcs,
        ) matches Turn::Done(m, k) ==> pos <= k <= log.len() && nothing_missing(
            m.state,
            state,
            known,
        ) && sums_there(m.state, state, known) && forall|key: Seq<char>|
            key != "task"@ && key != "radar"@ && key != "calendar"@ && key != "home_images"@
                ==> #[trigger] at(m.state, key) == at(state, key),
{
    lemma_scene_members();
    lemma_task_read(log, pos, state, known.labels_crc);
    match task_step(log, pos, state, known.labels_crc) {
        Turn::Done(a, ka) => {
            lemma_radar_read(log, ka, a.state, known.radar_crc);
            match radar_step(log, ka, a.state, known.radar_crc) {
                Turn::Done(b, kb) => {
                    lemma_calendar_read(log, kb, b.state, known.calendar_signature);
                    match calendar_step(log, kb, b.state, known.calendar_signature) {
                        Turn::Done(c, kc) => {
                            if at(c.state, "home_images"@) is None || pictures_valid(
                                at(c.state, "home_images"@)->0,
                            ) {
                                lemma_picture_read(log, kc, c.state, known.home_crcs, "image"@);
                                match picture_step(log, kc, c.state, known.home_crcs, "image"@) {
                                    Turn::Done(d, kd) => {
                                        lemma_picture_read(
                                            log,
                                            kd,
                                            d.state,
                                            known.home_crcs,
                                            "text"@,
                                        );
                                        match picture_step(
                                            log,
                                            kd,
                                            d.state,
                                            known.home_crcs,
                                            "text"@,
                                        ) {
                                            Turn::Done(e, ke) => {
                                                assert(at(e.state, "task"@) == at(a.state, "task"@));
                                                assert(at(e.state, "radar"@) == at(
                                                    b.state,
                                                    "radar"@,
                                                ));
                                                assert(at(a.state, "radar"@) == at(state, "radar"@));
                                                assert(at(e.state, "calendar"@) == at(
                                                    c.state,
                                                    "calendar"@,
                                                ));
                                                assert(at(b.state, "calendar"@) == at(
                                                    state,
                                                    "calendar"@,
                                                ));
                                                assert(at(c.state, "home_images"@) == at(
                                                    state,
                                                    "home_images"@,
                                                ));
                                                assert(at_in(e.state, "home_images"@, "image"@)
                                                    == at_in(d.state, "home_images"@, "image"@));
                                                assert(at_in(d.state, "home_images"@, "text"@)
                                                    == at_in(c.state, "home_images"@, "text"@));
                                                assert(picture_is_there(
                                                    e.state,
                                                    state,
                                                    known.home_crcs,
                                                    "text"@,
                                                ));
                                                assert(picture_is_there(
                                                    e.state,
                                                    state,
                                                    known.home_crcs,
                                                    "image"@,
                                                ));
                                            },
                                            _ => {},
                                        }
                                    },
                                    _ => {},
                                }
                            }
                        },
                        _ => {},
                    }
                },
                _ => {},
            }
        },
        _ => {},
    }
}

/// What was read for a scene goes into the latest state of the same scene, where it
/// has the same sum, and nothing else of that state changes.
pub proof fn law_scene_is_carried_over(
    state: JsonView,
    latest: JsonView,
    key: Seq<char>,
    checksum: Seq<char>,
    payload: Seq<char>,
)
    requires
        checksum != payload,
    ensures
        ({
            let r = carried(state, latest, key, checksum, payload);
            &&& r is None <==> at(state, key) is Some && !same_option(
                at_in(state, key, checksum),
                at_in(latest, key, checksum),
            )
            &&& r matches Some(v) ==> {
                &&& forall|k: Seq<char>| k != key ==> #[trigger] at(v, k) == at(latest, k)
                &&& forall|k: Seq<char>|
                    k != payload ==> #[trigger] at_in(v, key, k) == at_in(latest, key, k)
                &&& at_in(state, key, payload) is Some && at_in(state, key, checksum) is Some
                    ==> at_in(v, key, payload) == at_in(state, key, payload)
                &&& at_in(state, key, payload) is None ==> v == latest
            }
        }),
{
}

/// What was read of a picture goes into the latest state of the same picture.
pub proof fn law_picture_is_carried_over(state: JsonView, latest: JsonView, kind: Seq<char>)
    ensures
        ({
            let r = picture_carried(state, latest, kind);
            let old = at_in(state, "home_images"@, kind);
            let new = at_in(latest, "home_images"@, kind);
            let sum = match new {
                Some(p) => at(p, "crc32"@),
                None => None,
            };
            &&& r is None <==> old is Some && !same_option(at(old->0, "crc32"@), sum)
            &&& r matches Some(v) ==> {
                &&& forall|k: Seq<char>|
                    k != "home_images"@ ==> #[trigger] at(v, k) == at(latest, k)
                &&& forall|k: Seq<char>|
                    k != kind ==> #[trigger] at_in(v, "home_images"@, k) == at_in(
                        latest,
                        "home_images"@,
                        k,
                    )
                &&& old is Some && at(old->0, "crc32"@) is Some && at(old->0, "data"@) is Some ==> {
                    &&& at_in(v, "home_images"@, kind) matches Some(p)
                    &&& at(p, "data"@) == at(old->0, "data"@)
                    &&& forall|k: Seq<char>|
                        k != "data"@ ==> #[trigger] at(p, k) == at(new->0, k)
                }
                &&& old is None || at(old->0, "data"@) is None ==> v == latest
            }
        }),
{
    lemma_scene_members();
}

/// The pictures of the pages that were read go into the latest state of the same
/// calendar, each to the page of its place.
pub proof fn law_pages_are_carried_over(state: JsonView, latest: JsonView)
    ensures
        ({
            let r = calendar_carried(state, latest);
            &&& r is None <==> at(state, "calendar"@) is Some && !same_option(
                at_in(state, "calendar"@, "calendar_signature"@),
                at_in(latest, "calendar"@, "calendar_signature"@),
            )
            &&& r matches Some(v) ==> {
                &&& forall|k: Seq<char>| k != "calendar"@ ==> #[trigger] at(v, k) == at(latest, k)
                &&& forall|k: Seq<char>|
                    k != "calendar_pages"@ ==> #[trigger] at_in(v, "calendar"@, k) == at_in(
                        latest,
                        "calendar"@,
                        k,
                    )
                &&& match (
                    items_of(at_in(state, "calendar"@, "calendar_pages"@)),
                    items_of(at_in(latest, "calendar"@, "calendar_pages"@)),
                ) {
                    (Some(old), Some(new)) => {
                        &&& items_of(at_in(v, "calendar"@, "calendar_pages"@)) matches Some(pages)
                        &&& pages.len() == new.len()
                        &&& forall|i: int|
                            #![trigger pages[i]]
                            0 <= i < new.len() ==> {
                                &&& i < old.len() && at(old[i], "data"@) is Some && new[i] is Object
                                    ==> at(pages[i], "data"@) == at(old[i], "data"@)
                                &&& forall|k: Seq<char>|
                                    k != "data"@ ==> #[trigger] at(pages[i], k) == at(new[i], k)
                                &&& i >= old.len() ==> pages[i] == new[i]
                            }
                    },
                    _ => v == latest,
                }
            }
        }),
{
    lemma_scene_members();
}

/// After a playlist was read back, the pictures and the data that the host did not
/// know are all there. Where one of them had to be transferred, the rest is what the
/// device said last, and it is still the same playlist.
#[verifier::rlimit(30)]
pub proof fn law_playlist_is_shown_in_full(
    log: Seq<AnswerView>,
    pos: int,
    state: JsonView,
    known: KnownView,
)
    requires
        0 <= pos <= log.len(),
        text_of(at(state, "mode"@)) == Some("home"@),
    ensures
        u64_of(at(state, "home_protocol"@)) != Some(1u64) ==> state_mirrored(
            log,
            pos,
            state,
            known,
            None,
        ) is Failed,
        state_mirrored(log, pos, state, known, None) matches Turn::Done(v, n) ==> {
            &&& at_in(state, "task"@, "mode"@) == Some(JsonView::Str("task"@)) && text_of(
                at_in(state, "task"@, "labels_crc"@),
            ) != known.labels_crc ==> at_in(v, "task"@, "labels"@) is Some
            &&& at(state, "radar"@) is Some && text_of(at_in(state, "radar"@, "crc32"@))
                != known.radar_crc ==> at_in(v, "radar"@, "radar_data"@) is Some
            &&& picture_is_there(v, state, known.home_crcs, "text"@)
            &&& picture_is_there(v, state, known.home_crcs, "image"@)
            &&& pos <= n <= log.len()
            &&& playlist_read(
                log,
                pos,
                state,
                known.labels_crc,
                known.radar_crc,
                known.calendar_signature,
                known.home_crcs,
            ) matches Turn::Done(m, k)
            &&& nothing_missing(m.state, state, known)
            &&& !m.transferred ==> v == m.state && n == k
            &&& m.transferred ==> {
                &&& n == k + 1
                &&& log[n - 1] matches AnswerView::Value(latest)
                &&& text_of(at(latest, "mode"@)) == Some("home"@)
                &&& same_option(at(latest, "home_id"@), at(state, "home_id"@))
                &&& forall|key: Seq<char>|
                    key != "task"@ && key != "radar"@ && key != "calendar"@ && key
                        != "home_images"@ ==> #[trigger] at(v, key) == at(latest, key)
                &&& forall|key: Seq<char>|
                    key != "labels"@ ==> #[trigger] at_in(v, "task"@, key) == at_in(
                        latest,
                        "task"@,
                        key,
                    )
                &&& forall|key: Seq<char>|
                    key != "radar_data"@ ==> #[trigger] at_in(v, "radar"@, key) == at_in(
                        latest,
                        "radar"@,
                        key,
                    )
                &&& forall|key: Seq<char>|
                    key != "calendar_pages"@ ==> #[trigger] at_in(v, "calendar"@, key) == at_in(
                        latest,
                        "calendar"@,
                        key,
                    )
            }
        },
{
    lemma_scene_members();
    lemma_playlist_read(log, pos, state, known);
    match playlist_read(
        log,
        pos,
        state,
        known.labels_crc,
        known.radar_crc,
        known.calendar_signature,
        known.home_crcs,
    ) {
        Turn::Done(m, k) => {
            if m.transferred && at(m.state, "home_id"@) is Some {
                match value_turn(log, k, status_ask()) {
                    Turn::Done(latest, n) => {
                        lemma_carried_playlist(n, m.state, latest);
                    },
                    _ => {},
                }
            }
        },
        _ => {},
    }
}

proof fn lemma_carried_playlist(pos: int, state: JsonView, latest: JsonView)
    ensures
        playlist_carried(pos, state, latest) matches Turn::Done(v, n) ==> {
            &&& n == pos
            &&& at_in(state, "task"@, "labels"@) is Some && at_in(
                state,
                "task"@,
                "labels_crc"@,
            ) is Some ==> at_in(v, "task"@, "labels"@) == at_in(state, "task"@, "labels"@)
            &&& at_in(state, "radar"@, "radar_data"@) is Some && at_in(
                state,
                "radar"@,
                "crc32"@,
            ) is Some ==> at_in(v, "radar"@, "radar_data"@) == at_in(
                state,
                "radar"@,
                "radar_data"@,
            )
            &&& carries_picture(v, state, "text"@)
            &&& carries_picture(v, state, "image"@)
            &&& forall|key: Seq<char>|
                key != "task"@ && key != "radar"@ && key != "calendar"@ && key != "home_images"@
                    ==> #[trigger] at(v, key) == at(latest, key)
            &&& forall|key: Seq<char>|
                key != "labels"@ ==> #[trigger] at_in(v, "task"@, key) == at_in(
                    latest,
                    "task"@,
                    key,
                )
            &&& forall|key: Seq<char>|
                key != "radar_data"@ ==> #[trigger] at_in(v, "radar"@, key) == at_in(
                    latest,
                    "radar"@,
                    key,
                )
            &&& forall|key: Seq<char>|
                key != "calendar_pages"@ ==> #[trigger] at_in(v, "calendar"@, key) == at_in(
                    latest,
                    "calendar"@,
                    key,
                )
        },
{
    lemma_scene_members();
    match carried(state, latest, "task"@, "labels_crc"@, "labels"@) {
        Some(a) => {
            law_scene_is_carried_over(state, latest, "task"@, "labels_crc"@, "labels"@);
            match carried(state, a, "radar"@, "crc32"@, "radar_data"@) {
                Some(b) => {
                    law_scene_is_carried_over(state, a, "radar"@, "crc32"@, "radar_data"@);
                    match picture_carried(state, b, "image"@) {
                        Some(c) => {
                            law_picture_is_carried_over(state, b, "image"@);
                            match picture_carried(state, c, "text"@) {
                                Some(d) => {
                                    law_picture_is_carried_over(state, c, "text"@);
                                    law_pages_are_carried_over(state, d);
                                    match calendar_carried(state, d) {
                                        Some(e) => {
                                            assert(at(e, "task"@) == at(d, "task"@));
                                            assert(at(d, "task"@) == at(c, "task"@));
                                            assert(at(c, "task"@) == at(b, "task"@));
                                            assert(at(b, "task"@) == at(a, "task"@));
                                            assert(at(e, "radar"@) == at(d, "radar"@));
                                            assert(at(d, "radar"@) == at(c, "radar"@));
                                            assert(at(c, "radar"@) == at(b, "radar"@));
                                            assert(at(a, "radar"@) == at(latest, "radar"@));
                                            assert(at(d, "calendar"@) == at(c, "calendar"@));
                                            assert(at(c, "calendar"@) == at(b, "calendar"@));
                                            assert(at(b, "calendar"@) == at(a, "calendar"@));
                                            assert(at(a, "calendar"@) == at(latest, "calendar"@));
                                            assert(at(e, "home_images"@) == at(d, "home_images"@));
                                            assert(at_in(d, "home_images"@, "image"@) == at_in(
                                                c,
                                                "home_images"@,
                                                "image"@,
                                            ));
                                            assert(carries_picture(e, state, "text"@));
                                            assert(carries_picture(e, state, "image"@));
                                        },
                                        None => {},
                                    }
                                },
                                None => {},
                            }
                        },
                        None => {},
                    }
                },
                None => {},
            }
        },
        None => {},
    }
}

spec fn carries_picture(v: JsonView, state: JsonView, kind: Seq<char>) -> bool {
    at_in(state, "home_images"@, kind) matches Some(old) ==> (at(old, "data"@) is Some && at(
        old,
        "crc32"@,
    ) is Some ==> at_in(v, "home_images"@, kind) is Some && at(
        at_in(v, "home_images"@, kind)->0,
        "data"@,
    ) == at(old, "data"@))
}

/// Reading the status starts with the handshake, goes by what the host says that it
/// knows, and names the port that answered.
pub proof fn law_status_starts_with_the_handshake(
    log: Seq<AnswerView>,
    pos: int,
    port: Seq<char>,
    request: JsonView,
)
    requires
        0 <= pos <= log.len(),
    ensures
        ({
            let run = status_shown(log, pos, port, known_in(request));
            &&& pos == log.len() ==> run == Turn::<JsonView>::Ask(AskView::Ready { timeout_ms: 6000 })
            &&& pos < log.len() && log[pos] is Value ==> {
                let state = log[pos]->Value_0;
                let rest = state_mirrored(
                    log,
                    pos + 1,
                    state,
                    (KnownView {
                        labels_crc: text_of(at(request, "labels_crc"@)),
                        radar_crc: text_of(at(request, "radar_crc"@)),
                        calendar_signature: text_of(at(request, "calendar_signature"@)),
                        home_crcs: at(request, "home_crcs"@),
                    }),
                    None,
                );
                match rest {
                    Turn::Done(v, n) => {
                        &&& run matches Turn::Done(shown, m)
                        &&& m == n
                        &&& v is Object ==> at(shown, "port"@) == Some(JsonView::Str(port))
                        &&& forall|k: Seq<char>| k != "port"@ ==> #[trigger] at(shown, k) == at(v, k)
                    },
                    _ => run == rest,
                }
            }
        }),
{
    lemma_scene_members();
}

/// Every state is read in the way of its mode, with what is known of that mode.
pub proof fn law_states_are_read_by_their_mode(
    log: Seq<AnswerView>,
    pos: int,
    state: JsonView,
    known: KnownView,
    uploaded: Option<Seq<u8>>,
)
    ensures
        ({
            let run = state_mirrored(log, pos, state, known, uploaded);
            let mode = text_of(at(state, "mode"@));
            &&& mode == Some("radar"@) ==> run == radar_mirrored(log, pos, state, known.radar_crc)
            &&& mode == Some("calendar"@) ==> run == calendar_mirrored(
                log,
                pos,
                state,
                known.calendar_signature,
            )
            &&& mode == Some("task"@) ==> run == labels_mirrored(
                log,
                pos,
                state,
                known.labels_crc,
                uploaded,
            )
            &&& mode != Some("radar"@) && mode != Some("calendar"@) && mode != Some("task"@) && mode
                != Some("home"@) ==> run == Turn::Done(state, pos)
        }),
{
    reveal_strlit("home");
    reveal_strlit("radar");
    reveal_strlit("calendar");
    reveal_strlit("task");
    assert("home"@.len() == 4 && "task"@.len() == 4 && "home"@[0] == 'h' && "task"@[0] == 't');
    assert("radar"@.len() == 5 && "calendar"@.len() == 8);
}

} // verus!
