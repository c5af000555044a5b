//! Display modes, the settings that are edited, and how percentages and times
//! are written.

use vstd::prelude::*;

use crate::json::{at, empty_object, models, put, Json, JsonView};
use crate::text::{
    all_digits, breaks_line, decimal, digits_value, glue, has_line_break, law_decimal_reads_back,
    law_padding_keeps_the_number, numeral, padded, trim, trimmed, write_decimal, write_two,
};

verus! {

/// A mode in which something can be sent to the device.
#[derive(Debug, Clone, Copy, PartialEq, Eq, Structural)]
pub enum Mode {
    Home,
    Hourglass,
    Text,
    Image,
    Radar,
    Calendar,
}

impl Default for Mode {
    fn default() -> (r: Self)
        ensures
            r == Mode::Hourglass,
    {
        Mode::Hourglass
    }
}

impl Mode {
    /// The name of the mode in the mode bar and in titles.
    pub open spec fn label(self) -> Seq<char> {
        match self {
            Mode::Home => "主页"@,
            Mode::Hourglass => "沙漏"@,
            Mode::Text => "文字"@,
            Mode::Image => "图片"@,
            Mode::Radar => "AI 雷达"@,
            Mode::Calendar => "日历"@,
        }
    }

    /// The name of the mode in the mode bar and in titles.
    pub fn name(self) -> (r: &'static str)
        ensures
            r@ == self.label(),
    {
        match self {
            Mode::Home => "主页",
            Mode::Hourglass => "沙漏",
            Mode::Text => "文字",
            Mode::Image => "图片",
            Mode::Radar => "AI 雷达",
            Mode::Calendar => "日历",
        }
    }
}

/// The drafts of all modes. What remains of a task is kept in hundredths of a
/// per cent; `None` stands for a number that is not from 0 to 100 per cent.
#[derive(Debug)]
pub struct Settings {
    pub mode: Mode,
    pub port: String,
    pub task_name: String,
    pub footer: String,
    pub hours: u32,
    pub minutes: u32,
    pub seconds: u32,
    pub remaining: Option<u32>,
    pub timed: bool,
    pub looping: bool,
    pub accent: (u8, u8, u8),
    pub text_title: String,
    pub text_body: String,
    pub text_footer: String,
    pub image_path: String,
}

impl Default for Settings {
    fn default() -> (r: Self)
        ensures
            r.mode == Mode::Hourglass,
            r.port@ == ""@,
            r.task_name@ == "专注开发"@,
            r.footer@ == "完成一件重要的事"@,
            r.hours == 0,
            r.minutes == 25,
            r.seconds == 0,
            r.remaining == Some(10000u32),
            r.timed,
            !r.looping,
            r.accent == (53u8, 231u8, 255u8),
            r.text_title@ == "今日任务"@,
            r.text_body@ == "专注开发\n保持节奏"@,
            r.text_footer@ == "USB DIRECT"@,
            r.image_path@ == ""@,
    {
        Settings {
            mode: Mode::Hourglass,
            port: "".to_owned(),
            task_name: "专注开发".to_owned(),
            footer: "完成一件重要的事".to_owned(),
            hours: 0,
            minutes: 25,
            seconds: 0,
            remaining: Some(10000),
            timed: true,
            looping: false,
            accent: (53, 231, 255),
            text_title: "今日任务".to_owned(),
            text_body: "专注开发\n保持节奏".to_owned(),
            text_footer: "USB DIRECT".to_owned(),
            image_path: "".to_owned(),
        }
    }
}

impl Mode {
    /// The name under which the mode is stored.
    pub open spec fn stored_name(self) -> Seq<char> {
        match self {
            Mode::Home => "Home"@,
            Mode::Hourglass => "Hourglass"@,
            Mode::Text => "Text"@,
            Mode::Image => "Image"@,
            Mode::Radar => "Radar"@,
            Mode::Calendar => "Calendar"@,
        }
    }

    /// The name under which the mode is stored.
    pub fn key(self) -> (r: &'static str)
        ensures
            r@ == self.stored_name(),
    {
        match self {
            Mode::Home => "Home",
            Mode::Hourglass => "Hourglass",
            Mode::Text => "Text",
            Mode::Image => "Image",
            Mode::Radar => "Radar",
            Mode::Calendar => "Calendar",
        }
    }
}

/// The drafts as they go into a request. What remains of a task is left out: it
/// goes beside the request, in hundredths of a per cent.
pub open spec fn settings_json(s: Settings) -> JsonView {
    let v = put(empty_object(), "mode"@, JsonView::Str(s.mode.stored_name()));
    let v = put(v, "port"@, JsonView::Str(s.port@));
    let v = put(v, "task_name"@, JsonView::Str(s.task_name@));
    let v = put(v, "footer"@, JsonView::Str(s.footer@));
    let v = put(v, "hours"@, JsonView::Int(s.hours as int));
    let v = put(v, "minutes"@, JsonView::Int(s.minutes as int));
    let v = put(v, "seconds"@, JsonView::Int(s.seconds as int));
    let v = put(v, "timed"@, JsonView::Bool(s.timed));
    let v = put(v, "looping"@, JsonView::Bool(s.looping));
    let v = put(
        v,
        "accent"@,
        JsonView::Array(
            seq![
                JsonView::Int(s.accent.0 as int),
                JsonView::Int(s.accent.1 as int),
                JsonView::Int(s.accent.2 as int),
            ],
        ),
    );
    let v = put(v, "text_title"@, JsonView::Str(s.text_title@));
    let v = put(v, "text_body"@, JsonView::Str(s.text_body@));
    let v = put(v, "text_footer"@, JsonView::Str(s.text_footer@));
    put(v, "image_path"@, JsonView::Str(s.image_path@))
}

impl Settings {
    /// The drafts as they go into a request.
    pub fn to_json(&self) -> (r: Json)
        ensures
            r@ == settings_json(*self),
    {
        let mut accent: Vec<Json> = Vec::new();
        accent.push(Json::Uint(self.accent.0 as u64));
        accent.push(Json::Uint(self.accent.1 as u64));
        accent.push(Json::Uint(self.accent.2 as u64));
        assert(models(accent@) =~= seq![
            JsonView::Int(self.accent.0 as int),
            JsonView::Int(self.accent.1 as int),
            JsonView::Int(self.accent.2 as int),
        ]);
        let mut v = Json::object();
        v.insert("mode", Json::text(self.mode.key()));
        v.insert("port", Json::text(self.port.as_str()));
        v.insert("task_name", Json::text(self.task_name.as_str()));
        v.insert("footer", Json::text(self.footer.as_str()));
        v.insert("hours", Json::Uint(self.hours as u64));
        v.insert("minutes", Json::Uint(self.minutes as u64));
        v.insert("seconds", Json::Uint(self.seconds as u64));
        v.insert("timed", Json::Bool(self.timed));
        v.insert("looping", Json::Bool(self.looping));
        v.insert("accent", Json::list(accent));
        v.insert("text_title", Json::text(self.text_title.as_str()));
        v.insert("text_body", Json::text(self.text_body.as_str()));
        v.insert("text_footer", Json::text(self.text_footer.as_str()));
        v.insert("image_path", Json::text(self.image_path.as_str()));
        v
    }
}

impl Settings {
    /// Hours, minutes and seconds together, from one second to seven days.
    pub open spec fn duration_of(&self) -> Result<int, Seq<char>> {
        let value = self.hours * 3600 + self.minutes * 60 + self.seconds;
        if self.hours > 168 || self.minutes > 59 || self.seconds > 59 {
            Err("时间字段超出范围"@)
        } else if !(1 <= value <= 604800) {
            Err("任务时长应在 1 秒至 7 天之间"@)
        } else {
            Ok(value)
        }
    }

    /// What is wrong with the settings of a task, first things first.
    pub open spec fn task_fault(&self) -> Option<Seq<char>> {
        if self.duration_of() is Err {
            Some(self.duration_of()->Err_0)
        } else if self.remaining is None || self.remaining->0 > 10000 {
            Some("百分比应在 0.00～100.00 之间"@)
        } else if trimmed(self.task_name@).len() == 0 || self.task_name@.len() > 24 || breaks_line(
            self.task_name@,
        ) {
            Some("任务名称需为 1～24 个字符"@)
        } else if self.footer@.len() > 36 || breaks_line(self.footer@) {
            Some("顶部说明最多 36 个字符，不能换行"@)
        } else {
            None
        }
    }

    /// Hours, minutes and seconds together, from one second to seven days.
    pub fn duration(&self) -> (r: Result<u32, String>)
        ensures
            match r {
                Ok(v) => self.duration_of() == Ok::<int, Seq<char>>(v as int),
                Err(e) => self.duration_of() == Err::<int, Seq<char>>(e@),
            },
    {
        if self.hours > 168 || self.minutes > 59 || self.seconds > 59 {
            return Err("时间字段超出范围".to_owned());
        }
        let value = self.hours * 3600 + self.minutes * 60 + self.seconds;
        if value < 1 || value > 604800 {
            return Err("任务时长应在 1 秒至 7 天之间".to_owned());
        }
        Ok(value)
    }

    /// Checks the settings of a task before they are sent.
    pub fn validate_task(&self) -> (r: Result<(), String>)
        ensures
            match r {
                Ok(_) => self.task_fault() is None,
                Err(e) => self.task_fault() == Some(e@),
            },
    {
        match self.duration() {
            Ok(_) => {},
            Err(e) => {
                return Err(e);
            },
        }
        let fits = match self.remaining {
            Some(points) => points <= 10000,
            None => false,
        };
        if !fits {
            return Err("百分比应在 0.00～100.00 之间".to_owned());
        }
        let name = self.task_name.as_str();
        if trim(name).is_empty() || name.unicode_len() > 24 || has_line_break(name) {
            return Err("任务名称需为 1～24 个字符".to_owned());
        }
        let footer = self.footer.as_str();
        if footer.unicode_len() > 36 || has_line_break(footer) {
            return Err("顶部说明最多 36 个字符，不能换行".to_owned());
        }
        Ok(())
    }
}

/// Hundredths of a per cent, with two decimal places.
pub open spec fn percent_text(value: nat) -> Seq<char> {
    decimal(value / 100) + "."@ + padded(decimal(value % 100), 2) + "%"@
}

/// Hundredths of a per cent, with two decimal places.
pub fn format_percent(value: u32) -> (r: String)
    ensures
        r@ == percent_text(value as nat),
{
    let mut out = glue(write_decimal((value / 100) as u64).as_str(), ".");
    out.append(write_two((value % 100) as u64).as_str());
    out.append("%");
    out
}

/// Seconds as hours, minutes and seconds; the hours may be more than 24.
pub open spec fn duration_text(value: nat) -> Seq<char> {
    padded(decimal(value / 3600), 2) + ":"@ + padded(decimal(value / 60 % 60), 2) + ":"@ + padded(
        decimal(value % 60),
        2,
    )
}

/// Seconds as hours, minutes and seconds; the hours may be more than 24.
pub fn format_duration(value: u32) -> (r: String)
    ensures
        r@ == duration_text(value as nat),
{
    let mut out = glue(write_two((value / 3600) as u64).as_str(), ":");
    out.append(write_two((value / 60 % 60) as u64).as_str());
    out.append(":");
    out.append(write_two((value % 60) as u64).as_str());
    out
}

proof fn lemma_draft_names()
    ensures
        "mode"@.len() == 4,
        "port"@.len() == 4,
        "task_name"@.len() == 9,
        "footer"@.len() == 6,
        "hours"@.len() == 5,
        "minutes"@.len() == 7,
        "seconds"@.len() == 7,
        "timed"@.len() == 5,
        "looping"@.len() == 7,
        "accent"@.len() == 6,
        "text_title"@.len() == 10,
        "text_body"@.len() == 9,
        "text_footer"@.len() == 11,
        "image_path"@.len() == 10,
        "mode"@[0] == 'm',
        "port"@[0] == 'p',
        "task_name"@[1] == 'a',
        "text_body"@[1] == 'e',
        "footer"@[0] == 'f',
        "accent"@[0] == 'a',
        "hours"@[0] == 'h',
        "timed"@[0] == 't',
        "minutes"@[0] == 'm',
        "seconds"@[0] == 's',
        "looping"@[0] == 'l',
        "text_title"@[0] == 't',
        "image_path"@[0] == 'i',
{
    reveal_strlit("mode");
    reveal_strlit("port");
    reveal_strlit("task_name");
    reveal_strlit("footer");
    reveal_strlit("hours");
    reveal_strlit("minutes");
    reveal_strlit("seconds");
    reveal_strlit("timed");
    reveal_strlit("looping");
    reveal_strlit("accent");
    reveal_strlit("text_title");
    reveal_strlit("text_body");
    reveal_strlit("text_footer");
    reveal_strlit("image_path");
}

/// Every draft goes into a request as it was edited, under its own name.
pub proof fn law_drafts_go_as_they_are(s: Settings)
    ensures
        ({
            let v = settings_json(s);
            &&& at(v, "port"@) == Some(JsonView::Str(s.port@))
            &&& at(v, "task_name"@) == Some(JsonView::Str(s.task_name@))
            &&& at(v, "footer"@) == Some(JsonView::Str(s.footer@))
            &&& at(v, "hours"@) == Some(JsonView::Int(s.hours as int))
            &&& at(v, "minutes"@) == Some(JsonView::Int(s.minutes as int))
            &&& at(v, "seconds"@) == Some(JsonView::Int(s.seconds as int))
            &&& at(v, "timed"@) == Some(JsonView::Bool(s.timed))
            &&& at(v, "looping"@) == Some(JsonView::Bool(s.looping))
            &&& at(v, "accent"@) matches Some(JsonView::Array(c)) && c.len() == 3 && c[0]
                == JsonView::Int(s.accent.0 as int) && c[1] == JsonView::Int(s.accent.1 as int)
                && c[2] == JsonView::Int(s.accent.2 as int)
            &&& at(v, "text_title"@) == Some(JsonView::Str(s.text_title@))
            &&& at(v, "text_body"@) == Some(JsonView::Str(s.text_body@))
            &&& at(v, "text_footer"@) == Some(JsonView::Str(s.text_footer@))
            &&& at(v, "image_path"@) == Some(JsonView::Str(s.image_path@))
            &&& at(v, "mode"@) matches Some(JsonView::Str(m)) && (m == "Home"@ <==> s.mode
                == Mode::Home) && (m == "Hourglass"@ <==> s.mode == Mode::Hourglass) && (m
                == "Text"@ <==> s.mode == Mode::Text) && (m == "Image"@ <==> s.mode == Mode::Image)
                && (m == "Radar"@ <==> s.mode == Mode::Radar) && (m == "Calendar"@ <==> s.mode
                == Mode::Calendar)
        }),
{
    lemma_draft_names();
    lemma_stored_names();
}

proof fn lemma_stored_names()
    ensures
        "Home"@.len() == 4,
        "Hourglass"@.len() == 9,
        "Text"@.len() == 4,
        "Image"@.len() == 5,
        "Radar"@.len() == 5,
        "Calendar"@.len() == 8,
        "Home"@[0] == 'H',
        "Text"@[0] == 'T',
        "Image"@[0] == 'I',
        "Radar"@[0] == 'R',
{
    reveal_strlit("Home");
    reveal_strlit("Hourglass");
    reveal_strlit("Text");
    reveal_strlit("Image");
    reveal_strlit("Radar");
    reveal_strlit("Calendar");
}

/// A task can be sent exactly where its time is from one second to seven days, written
/// with at most 168 hours and with minutes and seconds below sixty, where at most the
/// whole of it remains, and where name and note are short enough and on one line; the
/// name must say something.
pub proof fn law_drafts_are_checked(s: Settings)
    ensures
        s.task_fault() is None <==> {
            &&& s.hours <= 168 && s.minutes < 60 && s.seconds < 60
            &&& 1 <= 3600 * s.hours + 60 * s.minutes + s.seconds <= 7 * 24 * 3600
            &&& s.remaining is Some && s.remaining->0 <= 10000
            &&& trimmed(s.task_name@).len() > 0
            &&& s.task_name@.len() <= 24 && s.footer@.len() <= 36
            &&& forall|i: int|
                0 <= i < s.task_name@.len() ==> #[trigger] s.task_name@[i] != '\n'
                    && s.task_name@[i] != '\r'
            &&& forall|i: int|
                0 <= i < s.footer@.len() ==> #[trigger] s.footer@[i] != '\n' && s.footer@[i] != '\r'
        },
        s.duration_of() matches Ok(n) ==> n == 3600 * s.hours + 60 * s.minutes + s.seconds,
{
    lemma_on_one_line(s.task_name@);
    lemma_on_one_line(s.footer@);
}

proof fn lemma_on_one_line(t: Seq<char>)
    ensures
        !breaks_line(t) <==> forall|i: int|
            0 <= i < t.len() ==> #[trigger] t[i] != '\n' && t[i] != '\r',
{
    if !breaks_line(t) {
        assert forall|i: int| 0 <= i < t.len() implies #[trigger] t[i] != '\n' && t[i] != '\r' by {
            assert(t.contains(t[i]));
        }
    }
}

/// A time is written as hours, minutes and seconds, each with at least two digits and
/// the last two below sixty, and what is written is that time.
pub proof fn law_times_are_written_in_full(value: nat)
    ensures
        exists|h: Seq<char>, m: Seq<char>, s: Seq<char>|
            {
                &&& duration_text(value) == #[trigger] (h + seq![':'] + m + seq![':'] + s)
                &&& all_digits(h) && all_digits(m) && all_digits(s)
                &&& h.len() >= 2 && m.len() == 2 && s.len() == 2
                &&& digits_value(m) < 60 && digits_value(s) < 60
                &&& 3600 * digits_value(h) + 60 * digits_value(m) + digits_value(s) == value
            },
{
    reveal_strlit(":");
    assert(":"@ =~= seq![':']);
    let h = padded(decimal(value / 3600), 2);
    let m = padded(decimal(value / 60 % 60), 2);
    let s = padded(decimal(value % 60), 2);
    law_padding_keeps_the_number(value / 3600, 2);
    law_padding_keeps_the_number(value / 60 % 60, 2);
    law_padding_keeps_the_number(value % 60, 2);
    lemma_at_most_two(value / 60 % 60);
    lemma_at_most_two(value % 60);
    assert(duration_text(value) == h + seq![':'] + m + seq![':'] + s);
}

proof fn lemma_at_most_two(n: nat)
    requires
        n < 100,
    ensures
        decimal(n).len() <= 2,
{
    reveal_with_fuel(numeral, 3);
}

/// A percentage is written with exactly two decimal places, and what is written is that
/// percentage.
pub proof fn law_percentages_have_two_places(value: nat)
    ensures
        exists|whole: Seq<char>, part: Seq<char>|
            {
                &&& percent_text(value) == #[trigger] (whole + seq!['.'] + part + seq!['%'])
                &&& all_digits(whole) && all_digits(part)
                &&& part.len() == 2
                &&& 100 * digits_value(whole) + digits_value(part) == value
            },
{
    reveal_strlit(".");
    reveal_strlit("%");
    assert("."@ =~= seq!['.']);
    assert("%"@ =~= seq!['%']);
    let whole = decimal(value / 100);
    let part = padded(decimal(value % 100), 2);
    law_decimal_reads_back(value / 100);
    law_padding_keeps_the_number(value % 100, 2);
    lemma_at_most_two(value % 100);
    assert(percent_text(value) == whole + seq!['.'] + part + seq!['%']);
}

/// Every mode has a name of its own in the mode bar.
pub proof fn law_modes_are_named_apart(a: Mode, b: Mode)
    requires
        a != b,
    ensures
        a.label() != b.label(),
        Mode::Hourglass.label() == "沙漏"@,
        Mode::Text.label() == "文字"@,
        Mode::Image.label() == "图片"@,
        Mode::Radar.label() == "AI 雷达"@,
        Mode::Calendar.label() == "日历"@,
        Mode::Home.label() == "主页"@,
{
    reveal_strlit("主页");
    reveal_strlit("沙漏");
    reveal_strlit("文字");
    reveal_strlit("图片");
    reveal_strlit("AI 雷达");
    reveal_strlit("日历");
    assert("主页"@[0] == '主' && "沙漏"@[0] == '沙' && "文字"@[0] == '文' && "图片"@[0] == '图'
        && "AI 雷达"@[0] == 'A' && "日历"@[0] == '日');
}

} // verus!
