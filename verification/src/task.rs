//! The settings of a task as they are sent to the device.

use vstd::prelude::*;

use crate::json::{
    at, bool_of, items_of, models, text_at, text_under, u64_of, Json, JsonView,
};
use crate::model::{settings_json, Settings};
use crate::text::{
    breaks_line, has_line_break, numeral, padded, trim, trimmed, trimmed_end, trimmed_start, white,
    write_hex,
};

verus! {

/// What a task is started with: title and footer, seconds, hundredths of a
/// per cent that remain, and a colour.
#[derive(Debug)]
pub struct TaskValues {
    pub title: String,
    pub footer: String,
    pub duration: u32,
    pub points: u32,
    pub rgb: (u8, u8, u8),
}

#[verifier::ext_equal]
pub struct TaskView {
    pub title: Seq<char>,
    pub footer: Seq<char>,
    pub duration: int,
    pub points: int,
    pub rgb: (u8, u8, u8),
}

impl View for TaskValues {
    type V = TaskView;

    open spec fn view(&self) -> TaskView {
        TaskView {
            title: self.title@,
            footer: self.footer@,
            duration: self.duration as int,
            points: self.points as int,
            rgb: self.rgb,
        }
    }
}

/// A colour as one number.
pub open spec fn rgb_number(rgb: (u8, u8, u8)) -> int {
    rgb.0 * 65536 + rgb.1 * 256 + rgb.2
}

/// A colour as one number.
pub fn rgb_value(rgb: (u8, u8, u8)) -> (r: u32)
    ensures
        r == rgb_number(rgb),
{
    rgb.0 as u32 * 65536 + rgb.1 as u32 * 256 + rgb.2 as u32
}

/// A colour out of three numbers up to 255.
pub open spec fn rgb_of(accent: Option<Seq<JsonView>>) -> Option<(u8, u8, u8)> {
    match accent {
        Some(items) => if items.len() == 3 {
            match (u64_of(Some(items[0])), u64_of(Some(items[1])), u64_of(Some(items[2]))) {
                (Some(r), Some(g), Some(b)) => if r <= 255 && g <= 255 && b <= 255 {
                    Some((r as u8, g as u8, b as u8))
                } else {
                    None
                },
                _ => None,
            }
        } else {
            None
        },
        None => None,
    }
}

fn read_rgb(settings: &Json) -> (r: Option<(u8, u8, u8)>)
    ensures
        r == rgb_of(items_of(at(settings@, "accent"@))),
{
    match settings.get_array("accent") {
        Some(items) => {
            if items.len() != 3 {
                return None;
            }
            assert(models(items@)[0] == items@[0]@);
            assert(models(items@)[1] == items@[1]@);
            assert(models(items@)[2] == items@[2]@);
            match (items[0].as_u64(), items[1].as_u64(), items[2].as_u64()) {
                (Some(r), Some(g), Some(b)) => if r <= 255 && g <= 255 && b <= 255 {
                    Some((r as u8, g as u8, b as u8))
                } else {
                    None
                },
                _ => None,
            }
        },
        None => None,
    }
}

/// The seconds that hours, minutes and seconds make, where they are a time.
pub open spec fn seconds_of(settings: JsonView) -> Option<int> {
    match (
        u64_of(at(settings, "hours"@)),
        u64_of(at(settings, "minutes"@)),
        u64_of(at(settings, "seconds"@)),
    ) {
        (Some(h), Some(m), Some(s)) => if h <= 168 && m < 60 && s < 60 {
            Some(h * 3600 + m * 60 + s)
        } else {
            None
        },
        _ => None,
    }
}

/// The settings of a task, or what is wrong with the first bad one. `points` is
/// what remains in hundredths of a per cent, at most 10000; `None` where it is
/// not a number from 0 to 100 per cent.
pub open spec fn task_settings(settings: JsonView, points: Option<u32>) -> Result<
    TaskView,
    Seq<char>,
> {
    let title = trimmed(text_at(settings, "task_name"@, ""@));
    let footer = text_at(settings, "footer"@, ""@);
    if !(1 <= title.len() <= 24) || breaks_line(title) {
        Err("任务名称需要 1～24 个字符且不能换行"@)
    } else if footer.len() > 36 || breaks_line(footer) {
        Err("顶部说明最多 36 个字符且不能换行"@)
    } else {
        match seconds_of(settings) {
            None => Err("无效的时间字段"@),
            Some(duration) => if points is None || points->0 > 10000 || !(1 <= duration <= 604800) {
                Err("时间或百分比超出范围"@)
            } else if bool_of(at(settings, "timed"@)) is None {
                Err("timed 必须是布尔值"@)
            } else if bool_of(at(settings, "looping"@)) is None {
                Err("looping 必须是布尔值"@)
            } else {
                match rgb_of(items_of(at(settings, "accent"@))) {
                    None => Err("无效的 RGB 颜色"@),
                    Some(rgb) => Ok(
                        TaskView { title, footer, duration, points: points->0 as int, rgb },
                    ),
                }
            },
        }
    }
}

/// Reads the settings of a task.
pub fn task_values(settings: &Json, points: Option<u32>) -> (r: Result<TaskValues, String>)
    ensures
        match r {
            Ok(v) => v.points <= 10000 && task_settings(settings@, points) == Ok::<
                TaskView,
                Seq<char>,
            >(v@),
            Err(e) => task_settings(settings@, points) == Err::<TaskView, Seq<char>>(e@),
        },
{
    let title = trim(text_under(settings, "task_name", ""));
    let footer = text_under(settings, "footer", "");
    let n = title.unicode_len();
    if n < 1 || n > 24 || has_line_break(title) {
        return Err("任务名称需要 1～24 个字符且不能换行".to_owned());
    }
    if footer.unicode_len() > 36 || has_line_break(footer) {
        return Err("顶部说明最多 36 个字符且不能换行".to_owned());
    }
    let duration: u64 = match (
        settings.get_u64("hours"),
        settings.get_u64("minutes"),
        settings.get_u64("seconds"),
    ) {
        (Some(h), Some(m), Some(s)) => {
            if h > 168 || m >= 60 || s >= 60 {
                return Err("无效的时间字段".to_owned());
            }
            h * 3600 + m * 60 + s
        },
        _ => {
            return Err("无效的时间字段".to_owned());
        },
    };
    let points = match points {
        Some(p) => p,
        None => {
            return Err("时间或百分比超出范围".to_owned());
        },
    };
    if points > 10000 || duration < 1 || duration > 604800 {
        return Err("时间或百分比超出范围".to_owned());
    }
    if settings.get_bool("timed").is_none() {
        return Err("timed 必须是布尔值".to_owned());
    }
    if settings.get_bool("looping").is_none() {
        return Err("looping 必须是布尔值".to_owned());
    }
    match read_rgb(settings) {
        Some(rgb) => Ok(
            TaskValues {
                title: title.to_owned(),
                footer: footer.to_owned(),
                duration: duration as u32,
                points,
                rgb,
            },
        ),
        None => Err("无效的 RGB 颜色".to_owned()),
    }
}

/// A number under an index, zero where there is none.
pub open spec fn number_at(items: Seq<JsonView>, i: int) -> nat {
    match u64_of(Some(items[i])) {
        Some(n) => n as nat,
        None => 0,
    }
}

/// The colour of a page of text, as it is written in hexadecimal.
pub open spec fn accent_text(settings: JsonView) -> Option<Seq<char>> {
    match items_of(at(settings, "accent"@)) {
        Some(items) => if items.len() >= 3 {
            Some(
                "#"@ + padded(numeral(number_at(items, 0), 16), 2) + padded(
                    numeral(number_at(items, 1), 16),
                    2,
                ) + padded(numeral(number_at(items, 2), 16), 2),
            )
        } else {
            None
        },
        None => None,
    }
}

/// The colour of a page of text, as it is written in hexadecimal; `None` where
/// there are not three numbers.
pub fn accent_hex(settings: &Json) -> (r: Option<String>)
    ensures
        match r {
            Some(s) => accent_text(settings@) == Some(s@),
            None => accent_text(settings@) is None,
        },
{
    match settings.get_array("accent") {
        Some(items) => {
            if items.len() < 3 {
                return None;
            }
            let mut out = "#".to_owned();
            let mut i: usize = 0;
            let ghost all = models(items@);
            let ghost a = padded(numeral(number_at(all, 0), 16), 2);
            let ghost b = padded(numeral(number_at(all, 1), 16), 2);
            let ghost c = padded(numeral(number_at(all, 2), 16), 2);
            while i < 3
                invariant
                    i <= 3 <= items@.len(),
                    all == models(items@),
                    a == padded(numeral(number_at(all, 0), 16), 2),
                    b == padded(numeral(number_at(all, 1), 16), 2),
                    c == padded(numeral(number_at(all, 2), 16), 2),
                    i == 0 ==> out@ == "#"@,
                    i == 1 ==> out@ == "#"@ + a,
                    i == 2 ==> out@ == "#"@ + a + b,
                    i == 3 ==> out@ == "#"@ + a + b + c,
                decreases 3 - i,
            {
                assert(all[i as int] == items@[i as int]@);
                let n: u64 = match items[i].as_u64() {
                    Some(v) => v,
                    None => 0,
                };
                out.append(write_hex(n, 2).as_str());
                i += 1;
            }
            Some(out)
        },
        None => None,
    }
}

proof fn lemma_setting_keys()
    ensures
        "task_name"@ != "footer"@,
        "task_name"@ != "hours"@,
        "task_name"@ != "minutes"@,
        "task_name"@ != "seconds"@,
        "task_name"@ != "timed"@,
        "task_name"@ != "looping"@,
        "task_name"@ != "accent"@,
        "task_name"@ != "text_title"@,
        "task_name"@ != "text_body"@,
        "task_name"@ != "text_footer"@,
        "task_name"@ != "image_path"@,
        "footer"@ != "hours"@,
        "footer"@ != "minutes"@,
        "footer"@ != "seconds"@,
        "footer"@ != "timed"@,
        "footer"@ != "looping"@,
        "footer"@ != "accent"@,
        "footer"@ != "text_title"@,
        "footer"@ != "text_body"@,
        "footer"@ != "text_footer"@,
        "footer"@ != "image_path"@,
        "hours"@ != "minutes"@,
        "hours"@ != "seconds"@,
        "hours"@ != "timed"@,
        "hours"@ != "looping"@,
        "hours"@ != "accent"@,
        "hours"@ != "text_title"@,
        "hours"@ != "text_body"@,
        "hours"@ != "text_footer"@,
        "hours"@ != "image_path"@,
        "minutes"@ != "seconds"@,
        "minutes"@ != "timed"@,
        "minutes"@ != "looping"@,
        "minutes"@ != "accent"@,
        "minutes"@ != "text_title"@,
        "minutes"@ != "text_body"@,
        "minutes"@ != "text_footer"@,
        "minutes"@ != "image_path"@,
        "seconds"@ != "timed"@,
        "seconds"@ != "looping"@,
        "seconds"@ != "accent"@,
        "seconds"@ != "text_title"@,
        "seconds"@ != "text_body"@,
        "seconds"@ != "text_footer"@,
        "seconds"@ != "image_path"@,
        "timed"@ != "looping"@,
        "timed"@ != "accent"@,
        "timed"@ != "text_title"@,
        "timed"@ != "text_body"@,
        "timed"@ != "text_footer"@,
        "timed"@ != "image_path"@,
        "looping"@ != "accent"@,
        "looping"@ != "text_title"@,
        "looping"@ != "text_body"@,
        "looping"@ != "text_footer"@,
        "looping"@ != "image_path"@,
        "accent"@ != "text_title"@,
        "accent"@ != "text_body"@,
        "accent"@ != "text_footer"@,
        "accent"@ != "image_path"@,
{
    reveal_strlit("mode");
    reveal_strlit("port");
    reveal_strlit("task_name");
    reveal_strlit("footer");
    reveal_strlit("hours");
    reveal_strlit("minutes");
    reveal_strlit("seconds");
    reveal_strlit("timed");
    reveal_strlit("looping");
    reveal_strlit("accent");
    reveal_strlit("text_title");
    reveal_strlit("text_body");
    reveal_strlit("text_footer");
    reveal_strlit("image_path");
    assert("mode"@.len() == 4);
    assert("port"@.len() == 4);
    assert("task_name"@.len() == 9);
    assert("footer"@.len() == 6);
    assert("hours"@.len() == 5);
    assert("minutes"@.len() == 7);
    assert("seconds"@.len() == 7);
    assert("timed"@.len() == 5);
    assert("looping"@.len() == 7);
    assert("accent"@.len() == 6);
    assert("text_title"@.len() == 10);
    assert("text_body"@.len() == 9);
    assert("text_footer"@.len() == 11);
    assert("image_path"@.len() == 10);
    assert("task_name"@[1] == 'a' && "text_body"@[1] == 'e');
    assert("footer"@[0] == 'f' && "accent"@[0] == 'a');
    assert("hours"@[0] == 'h' && "timed"@[0] == 't');
    assert("minutes"@[0] == 'm' && "seconds"@[0] == 's');
    assert("minutes"@[0] == 'm' && "looping"@[0] == 'l');
    assert("seconds"@[0] == 's' && "looping"@[0] == 'l');
}

proof fn lemma_trimmed_inside(s: Seq<char>)
    ensures
        trimmed(s).len() <= s.len(),
        forall|i: int| 0 <= i < trimmed(s).len() ==> s.contains(#[trigger] trimmed(s)[i]),
{
    lemma_trimmed_start_inside(s);
    lemma_trimmed_end_inside(trimmed_start(s));
    assert forall|i: int| 0 <= i < trimmed(s).len() implies s.contains(
        #[trigger] trimmed(s)[i],
    ) by {
        let t = trimmed_start(s);
        let k = choose|k: int| 0 <= k < t.len() && t[k] == trimmed(s)[i];
        assert(s.contains(t[k]));
    }
}

proof fn lemma_trimmed_start_inside(s: Seq<char>)
    ensures
        trimmed_start(s).len() <= s.len(),
        forall|i: int|
            0 <= i < trimmed_start(s).len() ==> s.contains(#[trigger] trimmed_start(s)[i]),
    decreases s.len(),
{
    if s.len() > 0 && white(s[0]) {
        lemma_trimmed_start_inside(s.drop_first());
        let t = trimmed_start(s);
        assert(t == trimmed_start(s.drop_first()));
        assert forall|i: int| 0 <= i < t.len() implies s.contains(#[trigger] t[i]) by {
            let d = s.drop_first();
            assert(d.contains(t[i]));
            let k = choose|k: int| 0 <= k < d.len() && d[k] == t[i];
            assert(s[k + 1] == t[i]);
        }
    } else {
        assert forall|i: int| 0 <= i < s.len() implies s.contains(#[trigger] s[i]) by {}
    }
}

proof fn lemma_trimmed_end_inside(s: Seq<char>)
    ensures
        trimmed_end(s).len() <= s.len(),
        forall|i: int| 0 <= i < trimmed_end(s).len() ==> s.contains(#[trigger] trimmed_end(s)[i]),
    decreases s.len(),
{
    if s.len() > 0 && white(s.last()) {
        lemma_trimmed_end_inside(s.drop_last());
        let t = trimmed_end(s);
        assert(t == trimmed_end(s.drop_last()));
        assert forall|i: int| 0 <= i < t.len() implies s.contains(#[trigger] t[i]) by {
            let d = s.drop_last();
            assert(d.contains(t[i]));
            let k = choose|k: int| 0 <= k < d.len() && d[k] == t[i];
            assert(s[k] == t[i]);
        }
    } else {
        assert forall|i: int| 0 <= i < s.len() implies s.contains(#[trigger] s[i]) by {}
    }
}

/// A draft that passes the check can be sent: the task that is started with it
/// has its name without white space around, its note, its time, what remains,
/// which is at most the whole, and its colour.
pub proof fn law_checked_draft_can_be_sent(s: Settings)
    requires
        s.task_fault() is None,
    ensures
        task_settings(settings_json(s), s.remaining) == Ok::<TaskView, Seq<char>>(
            TaskView {
                title: trimmed(s.task_name@),
                footer: s.footer@,
                duration: s.duration_of()->Ok_0,
                points: s.remaining->0 as int,
                rgb: s.accent,
            },
        ),
        s.remaining->0 <= 10000,
        1 <= s.duration_of()->Ok_0 <= 604800,
{
    lemma_setting_keys();
    let v = settings_json(s);
    let name = s.task_name@;
    assert(at(v, "task_name"@) == Some(JsonView::Str(name)));
    assert(at(v, "footer"@) == Some(JsonView::Str(s.footer@)));
    assert(at(v, "hours"@) == Some(JsonView::Int(s.hours as int)));
    assert(at(v, "minutes"@) == Some(JsonView::Int(s.minutes as int)));
    assert(at(v, "seconds"@) == Some(JsonView::Int(s.seconds as int)));
    assert(at(v, "timed"@) == Some(JsonView::Bool(s.timed)));
    assert(at(v, "looping"@) == Some(JsonView::Bool(s.looping)));
    lemma_trimmed_inside(name);
    assert(!breaks_line(trimmed(name))) by {
        if breaks_line(trimmed(name)) {
            let t = trimmed(name);
            let i = choose|i: int| 0 <= i < t.len() && (t[i] == '\n' || t[i] == '\r');
            assert(name.contains(t[i]));
        }
    }
}

/// The settings of a task are taken exactly where they are good: a name of 1 to 24
/// characters on one line, white space around it aside, a note of at most 36 on one
/// line, a time from one second to seven days, at most the whole remaining, and two
/// truth values and a colour; and they are taken as they are.
pub proof fn law_good_settings_are_taken(settings: JsonView, points: Option<u32>)
    ensures
        ({
            let name = trimmed(text_at(settings, "task_name"@, ""@));
            let note = text_at(settings, "footer"@, ""@);
            let h = u64_of(at(settings, "hours"@));
            let m = u64_of(at(settings, "minutes"@));
            let s = u64_of(at(settings, "seconds"@));
            let color = items_of(at(settings, "accent"@));
            let good = {
                &&& 1 <= name.len() <= 24 && !name.contains('\n') && !name.contains('\r')
                &&& note.len() <= 36 && !note.contains('\n') && !note.contains('\r')
                &&& h is Some && m is Some && s is Some
                &&& h->0 <= 168 && m->0 < 60 && s->0 < 60
                &&& 1 <= 3600 * h->0 + 60 * m->0 + s->0 <= 7 * 24 * 3600
                &&& points is Some && points->0 <= 10000
                &&& at(settings, "timed"@) matches Some(JsonView::Bool(_))
                &&& at(settings, "looping"@) matches Some(JsonView::Bool(_))
                &&& color is Some && color->0.len() == 3 && forall|i: int|
                    0 <= i < 3 ==> u64_of(Some(#[trigger] color->0[i])) is Some && u64_of(
                        Some(color->0[i]),
                    )->0 <= 255
            };
            &&& task_settings(settings, points) is Ok <==> good
            &&& task_settings(settings, points) matches Ok(v) ==> {
                &&& v.title == name
                &&& v.footer == note
                &&& v.duration == 3600 * h->0 + 60 * m->0 + s->0
                &&& v.points == points->0
                &&& v.rgb.0 == u64_of(Some(color->0[0]))->0
                &&& v.rgb.1 == u64_of(Some(color->0[1]))->0
                &&& v.rgb.2 == u64_of(Some(color->0[2]))->0
            }
        }),
{
    let color = items_of(at(settings, "accent"@));
    if rgb_of(color) is None && color is Some && color->0.len() == 3 {
        let c = color->0;
        assert(!(u64_of(Some(c[0])) is Some && u64_of(Some(c[0]))->0 <= 255 && u64_of(
            Some(c[1]),
        ) is Some && u64_of(Some(c[1]))->0 <= 255 && u64_of(Some(c[2])) is Some && u64_of(
            Some(c[2]),
        )->0 <= 255));
    }
}

} // verus!
