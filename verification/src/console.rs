//! The console: which requests go to the device, and what the answers change.

use vstd::prelude::*;

use crate::calendar::{display_accepted, display_lightened, CalendarPage, CalendarView, DisplayView};
use crate::home::{
    has_scene, home_accepted, home_lightened, law_clock_is_what_the_device_says, picture_sums,
    selection, wants, HomePage, HomeView,
};
use crate::json::{
    at, empty_object, i64_of, items_of, models, opt_text, option_view, put, same_text, text_of,
    Json, JsonView,
};
use crate::mirror::{
    blank_mirror, labels_taken, mirror_updated, Mirror, MirrorView, StateView, TaskState,
};
use crate::model::{settings_json, Mode, Settings};
use crate::radar::{data_taken, screen_accepted, PageView, RadarPage, ScreenView};
use crate::text::{glue, texts};

verus! {

/// What an action is called.
pub open spec fn action_label(action: Seq<char>) -> Seq<char> {
    if action == "ports"@ {
        "刷新串口"@
    } else if action == "status"@ {
        "查询设备"@
    } else if action == "task"@ {
        "应用任务"@
    } else if action == "pause"@ {
        "暂停"@
    } else if action == "resume"@ {
        "继续"@
    } else if action == "reset"@ {
        "重置"@
    } else if action == "clear"@ {
        "停止显示"@
    } else if action == "text"@ {
        "发送文字"@
    } else if action == "image"@ {
        "发送图片"@
    } else if action == "home"@ {
        "应用轮播"@
    } else if action == "home_stop"@ {
        "停止轮播"@
    } else if action == "calendar_update"@ {
        "同步日历"@
    } else if action == "calendar_only"@ {
        "应用日历"@
    } else if action == "radar_only"@ {
        "应用雷达"@
    } else if action == "radar_usb"@ {
        "同步雷达"@
    } else if action == "browse"@ {
        "选择图片"@
    } else {
        action
    }
}

/// What an action is called.
pub fn action_name<'a>(action: &'a str) -> (r: &'a str)
    ensures
        r@ == action_label(action@),
{
    if same_text(action, "ports") {
        "刷新串口"
    } else if same_text(action, "status") {
        "查询设备"
    } else if same_text(action, "task") {
        "应用任务"
    } else if same_text(action, "pause") {
        "暂停"
    } else if same_text(action, "resume") {
        "继续"
    } else if same_text(action, "reset") {
        "重置"
    } else if same_text(action, "clear") {
        "停止显示"
    } else if same_text(action, "text") {
        "发送文字"
    } else if same_text(action, "image") {
        "发送图片"
    } else if same_text(action, "home") {
        "应用轮播"
    } else if same_text(action, "home_stop") {
        "停止轮播"
    } else if same_text(action, "calendar_update") {
        "同步日历"
    } else if same_text(action, "calendar_only") {
        "应用日历"
    } else if same_text(action, "radar_only") {
        "应用雷达"
    } else if same_text(action, "radar_usb") {
        "同步雷达"
    } else if same_text(action, "browse") {
        "选择图片"
    } else {
        action
    }
}

/// The action that sends what a mode edits.
pub open spec fn mode_action(mode: Mode) -> Seq<char> {
    match mode {
        Mode::Home => "home"@,
        Mode::Hourglass => "task"@,
        Mode::Text => "text"@,
        Mode::Image => "image"@,
        Mode::Radar => "radar_only"@,
        Mode::Calendar => "calendar_only"@,
    }
}

/// The action that sends what a mode edits, and what its button says.
pub fn mode_command(mode: Mode) -> (r: (&'static str, &'static str))
    ensures
        r.0@ == mode_action(mode),
        r.1@ == match mode {
            Mode::Home => "应用轮播"@,
            Mode::Hourglass => "应用并开始"@,
            Mode::Text => "发送文字"@,
            Mode::Image => "发送图片"@,
            Mode::Radar => "应用到屏幕"@,
            Mode::Calendar => "应用到屏幕"@,
        },
{
    match mode {
        Mode::Home => ("home", "应用轮播"),
        Mode::Hourglass => ("task", "应用并开始"),
        Mode::Text => ("text", "发送文字"),
        Mode::Image => ("image", "发送图片"),
        Mode::Radar => ("radar_only", "应用到屏幕"),
        Mode::Calendar => ("calendar_only", "应用到屏幕"),
    }
}

/// What is said of a task that runs.
pub open spec fn run_label_of(s: StateView) -> Seq<char> {
    if s.paused {
        "已暂停"@
    } else if s.reset_seconds == 0 {
        "已完成"@
    } else if s.looping {
        "循环运行"@
    } else {
        "运行中"@
    }
}

/// What is said of a task that runs.
pub fn run_label(task: &TaskState) -> (r: &'static str)
    ensures
        r@ == run_label_of(task@),
{
    if task.paused {
        "已暂停"
    } else if task.reset_seconds == 0 {
        "已完成"
    } else if task.looping {
        "循环运行"
    } else {
        "运行中"
    }
}

/// The console: what the device confirmed, what is kept in step with it, and what
/// is said to the user.
#[derive(Debug)]
pub struct Console {
    pub radar: RadarPage,
    pub home: HomePage,
    pub calendar: CalendarPage,
    pub mirror: Mirror,
    ports: Vec<String>,
    connected: bool,
    state: Option<Json>,
    calendar_sync: bool,
    radar_sync: bool,
    radar_sent: u64,
    pending: Option<String>,
    message: String,
    error: bool,
}

#[verifier::ext_equal]
pub struct ConsoleView {
    pub radar: PageView,
    pub home: HomeView,
    pub calendar: CalendarView,
    pub mirror: MirrorView,
    pub ports: Seq<Seq<char>>,
    pub connected: bool,
    pub state: Option<JsonView>,
    pub calendar_sync: bool,
    pub radar_sync: bool,
    pub radar_sent: int,
    pub pending: Option<Seq<char>>,
    pub message: Seq<char>,
    pub error: bool,
}

impl View for Console {
    type V = ConsoleView;

    closed spec fn view(&self) -> ConsoleView {
        ConsoleView {
            radar: self.radar@,
            home: self.home@,
            calendar: self.calendar@,
            mirror: self.mirror@,
            ports: texts(self.ports@),
            connected: self.connected,
            state: match self.state {
                Some(s) => Some(s@),
                None => None,
            },
            calendar_sync: self.calendar_sync,
            radar_sync: self.radar_sync,
            radar_sent: self.radar_sent as int,
            pending: match self.pending {
                Some(p) => Some(p@),
                None => None,
            },
            message: self.message@,
            error: self.error,
        }
    }
}

impl ConsoleView {
    /// The console with something to say that went wrong.
    pub open spec fn failing(self, message: Seq<char>) -> ConsoleView {
        ConsoleView { message, error: true, ..self }
    }

    /// The console with nothing known of the device.
    pub open spec fn forgetful(self) -> ConsoleView {
        ConsoleView {
            radar: PageView { device: None, ..self.radar },
            home: HomeView { clock: None, text: None, image: None, held: None, ..self.home },
            calendar: CalendarView { display: None, ..self.calendar },
            mirror: blank_mirror(),
            connected: false,
            calendar_sync: false,
            radar_sync: false,
            ..self
        }
    }

    /// Whether the calendar has changed and the device is to be told.
    pub open spec fn calendar_due(&self) -> bool {
        self.calendar_sync && self.connected && self.pending is None && self.calendar.needs_send()
    }

    /// Whether the radar has new data and the device is to be told.
    pub open spec fn radar_due(&self, since_ms: int) -> bool {
        self.radar_sync && self.connected && self.pending is None && self.radar.revision
            != self.radar_sent && since_ms >= 5000
    }

    /// Whether the calendar is read again and again.
    pub open spec fn calendar_active(&self, mode: Mode) -> bool {
        mode == Mode::Calendar || self.calendar_sync || (mode == Mode::Home && wants(
            self.home.choices,
            Mode::Calendar,
        ))
    }

    /// Whether the radar is collected again and again.
    pub open spec fn radar_active(&self, mode: Mode) -> bool {
        mode == Mode::Radar || self.radar_sync || (mode == Mode::Home && wants(
            self.home.choices,
            Mode::Radar,
        ))
    }

    /// Whether what a mode edits can be sent.
    pub open spec fn can_apply(&self, mode: Mode) -> bool {
        &&& self.connected && self.pending is None
        &&& (mode == Mode::Calendar || (mode == Mode::Home && wants(
            self.home.choices,
            Mode::Calendar,
        ))) ==> self.calendar.source is Some
        &&& (mode == Mode::Radar || (mode == Mode::Home && wants(self.home.choices, Mode::Radar)))
            ==> self.radar.revision > 0
    }
}

/// While nothing is kept in step, an idle console asks the device nothing,
/// however long ago it was heard of.
pub proof fn law_idle_console_asks_nothing(c: ConsoleView, since_ms: int)
    requires
        !c.calendar_sync,
        !c.radar_sync,
    ensures
        !c.calendar_due(),
        !c.radar_due(since_ms),
{
}

/// Whether an action needs the day that was read.
pub open spec fn needs_calendar(c: ConsoleView, action: Seq<char>) -> bool {
    action == "calendar_update"@ || action == "calendar_only"@ || (action == "home"@ && wants(
        c.home.choices,
        Mode::Calendar,
    ))
}

/// Whether an action needs the data that were collected.
pub open spec fn needs_radar(c: ConsoleView, action: Seq<char>) -> bool {
    action == "radar_usb"@ || action == "radar_only"@ || (action == "home"@ && wants(
        c.home.choices,
        Mode::Radar,
    ))
}

/// Whether an action puts something of its own on the device.
pub open spec fn takes_over(action: Seq<char>) -> bool {
    action == "task"@ || action == "text"@ || action == "image"@ || action == "clear"@ || action
        == "home"@
}

pub open spec fn text_or_null(t: Option<Seq<char>>) -> JsonView {
    match t {
        Some(s) => JsonView::Str(s),
        None => JsonView::Null,
    }
}

/// The part of a request that every action has: the action, the port, the
/// drafts, and what is known of the device.
pub open spec fn request_base(c: ConsoleView, action: Seq<char>, s: Settings) -> JsonView {
    let v = put(empty_object(), "action"@, JsonView::Str(action));
    let v = put(v, "port"@, JsonView::Str(s.port@));
    let v = put(v, "settings"@, settings_json(s));
    let v = put(v, "labels_crc"@, text_or_null(c.mirror.crc));
    let v = put(
        v,
        "radar_crc"@,
        text_or_null(
            match c.radar.device {
                Some(d) => Some(d.crc),
                None => None,
            },
        ),
    );
    let v = put(v, "home_crcs"@, JsonView::Object(picture_sums(c.home.text, c.home.image)));
    put(v, "calendar_signature"@, text_or_null(c.calendar.signature()))
}

/// The scenes of a playlist, or why there is none.
pub open spec fn playlist_of(c: ConsoleView) -> Result<Seq<JsonView>, Seq<char>> {
    match selection(c.home.choices) {
        Err(e) => Err(e),
        Ok(entries) => if 1 <= entries.len() <= 5 {
            Ok(entries)
        } else {
            Err("请勾选至少一个轮播画面"@)
        },
    }
}

/// Why an action cannot be asked for, first things first.
pub open spec fn request_fault(c: ConsoleView, action: Seq<char>, s: Settings) -> Option<Seq<char>> {
    if action == "task"@ && s.task_fault() is Some {
        s.task_fault()
    } else if needs_calendar(c, action) && c.calendar.source is None {
        Some("请等待首次日历读取完成"@)
    } else if action == "home"@ && playlist_of(c) is Err {
        Some(playlist_of(c)->Err_0)
    } else if needs_radar(c, action) && c.radar.data is None {
        Some("请等待雷达首次采集完成"@)
    } else {
        None
    }
}

/// The request for an action, with what it needs besides.
pub open spec fn request_of(c: ConsoleView, action: Seq<char>, s: Settings) -> JsonView {
    let v = request_base(c, action, s);
    let v = if needs_calendar(c, action) {
        put(v, "calendar_snapshot"@, c.calendar.source->0)
    } else {
        v
    };
    let v = if action == "home"@ {
        put(v, "home_entries"@, JsonView::Array(playlist_of(c)->Ok_0))
    } else {
        v
    };
    if needs_radar(c, action) {
        put(v, "snapshot"@, c.radar.data->0)
    } else {
        v
    }
}

/// The console after an action was asked for, with the request, where one goes
/// out: never while another is under way.
pub open spec fn submitted(c: ConsoleView, action: Seq<char>, s: Settings) -> (
    ConsoleView,
    Option<JsonView>,
) {
    if c.pending is Some {
        (c, None)
    } else {
        match request_fault(c, action, s) {
            Some(e) => (c.failing(e), None),
            None => (
                ConsoleView {
                    radar_sent: if needs_radar(c, action) {
                        c.radar.revision
                    } else {
                        c.radar_sent
                    },
                    radar_sync: c.radar_sync && !takes_over(action),
                    calendar_sync: c.calendar_sync && !takes_over(action),
                    pending: Some(action),
                    ..c
                },
                Some(request_of(c, action, s)),
            ),
        }
    }
}

fn text_json(t: Option<&str>) -> (r: Json)
    ensures
        r@ == text_or_null(opt_text(t)),
{
    match t {
        Some(s) => Json::text(s),
        None => Json::Null,
    }
}

impl Console {
    /// A console that knows nothing of a device.
    pub fn new(home: HomePage, message: &str, error: bool) -> (r: Self)
        ensures
            r@.home == home@,
            r@.message == message@,
            r@.error == error,
            r@.radar == (PageView {
                data: None,
                device: None,
                error: None,
                attempted: false,
                revision: 0,
            }),
            r@.calendar == (CalendarView {
                source: None,
                display: None,
                error: None,
                attempted: false,
            }),
            r@.mirror == blank_mirror(),
            r@.ports.len() == 0,
            !r@.connected,
            r@.state is None,
            !r@.calendar_sync,
            !r@.radar_sync,
            r@.radar_sent == 0,
            r@.pending is None,
    {
        Console {
            radar: RadarPage::default(),
            home,
            calendar: CalendarPage::default(),
            mirror: Mirror::default(),
            ports: Vec::new(),
            connected: false,
            state: None,
            calendar_sync: false,
            radar_sync: false,
            radar_sent: 0,
            pending: None,
            message: message.to_owned(),
            error,
        }
    }

    /// Says that something went wrong.
    pub fn fail(&mut self, error: String)
        ensures
            final(self)@ == old(self)@.failing(error@),
    {
        self.message = error;
        self.error = true;
    }

    /// Says that something went well.
    pub fn report(&mut self, message: &str)
        ensures
            final(self)@ == (ConsoleView { message: message@, error: false, ..old(self)@ }),
    {
        self.message = message.to_owned();
        self.error = false;
    }

    fn base(&self, action: &str, settings: &Settings) -> (r: Json)
        ensures
            r@ == request_base(self@, action@, *settings),
    {
        let mut v = Json::object();
        v.insert("action", Json::text(action));
        v.insert("port", Json::text(settings.port.as_str()));
        v.insert("settings", settings.to_json());
        v.insert("labels_crc", text_json(self.mirror.labels_crc()));
        v.insert("radar_crc", text_json(self.radar.device_crc()));
        v.insert("home_crcs", self.home.asset_crcs());
        v.insert("calendar_signature", text_json(self.calendar.signature()));
        v
    }

    /// Asks for an action. Gives the request that is to be carried out, unless
    /// one is under way or something is missing.
    pub fn submit(&mut self, action: &str, settings: &Settings) -> (r: Option<Json>)
        ensures
            final(self)@ == submitted(old(self)@, action@, *settings).0,
            match r {
                Some(v) => submitted(old(self)@, action@, *settings).1 == Some(v@),
                None => submitted(old(self)@, action@, *settings).1 is None,
            },
    {
        if self.pending.is_some() {
            return None;
        }
        let home = same_text(action, "home");
        if same_text(action, "task") {
            match settings.validate_task() {
                Ok(_) => {},
                Err(e) => {
                    self.fail(e);
                    return None;
                },
            }
        }
        let mut request = self.base(action, settings);
        if same_text(action, "calendar_update") || same_text(action, "calendar_only") || (home
            && self.home.wants_calendar()) {
            match self.calendar.snapshot() {
                Some(day) => request.insert("calendar_snapshot", day),
                None => {
                    self.fail("请等待首次日历读取完成".to_owned());
                    return None;
                },
            }
        }
        if home {
            match self.home.entries() {
                Ok(entries) => request.insert("home_entries", Json::list(entries)),
                Err(e) => {
                    self.fail(e);
                    return None;
                },
            }
        }
        if same_text(action, "radar_usb") || same_text(action, "radar_only") || (home
            && self.home.wants_radar()) {
            match self.radar.snapshot() {
                Some(data) => request.insert("snapshot", data),
                None => {
                    self.fail("请等待雷达首次采集完成".to_owned());
                    return None;
                },
            }
            self.radar_sent = self.radar.revision();
        }
        if same_text(action, "task") || same_text(action, "text") || same_text(action, "image")
            || same_text(action, "clear") || home {
            self.radar_sync = false;
            self.calendar_sync = false;
        }
        self.pending = Some(action.to_owned());
        Some(request)
    }
}

/// One action at a time: while one is under way, nothing that is asked for is
/// carried out, and nothing changes.
pub proof fn law_one_action_at_a_time(c: ConsoleView, action: Seq<char>, settings: Settings)
    requires
        c.pending is Some,
    ensures
        submitted(c, action, settings) == (c, None::<JsonView>),
{
}

/// What the device confirmed, part by part, and what is left of its answer.
#[verifier::ext_equal]
pub struct Shown {
    pub mirror: MirrorView,
    pub screen: Option<ScreenView>,
    pub display: Option<DisplayView>,
    pub home: HomeView,
    pub value: JsonView,
}

/// A part of an answer with the time that the answer was under way; a part that
/// is null becomes an object to hold it.
pub open spec fn with_delay(part: JsonView, delay: Option<JsonView>) -> JsonView {
    match delay {
        Some(d) => put(
            if part is Null {
                empty_object()
            } else {
                part
            },
            "_transport_ms"@,
            d,
        ),
        None => part,
    }
}

/// The hourglass behind a playlist.
pub open spec fn task_part(m: MirrorView, v: JsonView, delay: Option<JsonView>) -> Result<
    (MirrorView, JsonView),
    Seq<char>,
> {
    match at(v, "task"@) {
        None => Ok((blank_mirror(), v)),
        Some(part) => {
            let part = with_delay(part, delay);
            match mirror_updated(m, part) {
                Err(e) => Err(e),
                Ok(m) => Ok((m, put(v, "task"@, labels_taken(part)))),
            }
        },
    }
}

/// The radar behind a playlist.
pub open spec fn radar_part(
    screen: Option<ScreenView>,
    v: JsonView,
    delay: Option<JsonView>,
) -> Result<(Option<ScreenView>, JsonView), Seq<char>> {
    match at(v, "radar"@) {
        None => Ok((None, v)),
        Some(part) => {
            let part = with_delay(part, delay);
            match screen_accepted(screen, part) {
                Err(e) => Err(e),
                Ok(s) => Ok((s, put(v, "radar"@, data_taken(part)))),
            }
        },
    }
}

/// The calendar behind a playlist.
pub open spec fn calendar_part(
    display: Option<DisplayView>,
    v: JsonView,
    delay: Option<JsonView>,
) -> Result<(Option<DisplayView>, JsonView), Seq<char>> {
    match at(v, "calendar"@) {
        None => Ok((None, v)),
        Some(part) => {
            let part = with_delay(part, delay);
            match display_accepted(display, part) {
                Err(e) => Err(e),
                Ok(d) => Ok((d, put(v, "calendar"@, display_lightened(part)))),
            }
        },
    }
}

/// The scenes that a device with a playlist keeps in the background, one by one;
/// or the one scene of a device without.
pub open spec fn scenes_shown(c: ConsoleView, v: JsonView) -> Result<
    (MirrorView, Option<ScreenView>, Option<DisplayView>, JsonView),
    Seq<char>,
> {
    if text_of(at(v, "mode"@)) == Some("home"@) {
        let delay = at(v, "_transport_ms"@);
        match task_part(c.mirror, v, delay) {
            Err(e) => Err(e),
            Ok((mirror, v)) => match radar_part(c.radar.device, v, delay) {
                Err(e) => Err(e),
                Ok((screen, v)) => match calendar_part(c.calendar.display, v, delay) {
                    Err(e) => Err(e),
                    Ok((display, v)) => Ok((mirror, screen, display, v)),
                },
            },
        }
    } else {
        match screen_accepted(c.radar.device, v) {
            Err(e) => Err(e),
            Ok(screen) => {
                let v = data_taken(v);
                match mirror_updated(c.mirror, v) {
                    Err(e) => Err(e),
                    Ok(mirror) => {
                        let v = labels_taken(v);
                        match display_accepted(c.calendar.display, v) {
                            Err(e) => Err(e),
                            Ok(display) => Ok((mirror, screen, display, display_lightened(v))),
                        }
                    },
                }
            },
        }
    }
}

/// What the device shows, or what is wrong with the first bad part of its answer.
pub open spec fn shown_of(c: ConsoleView, v: JsonView) -> Result<Shown, Seq<char>> {
    match scenes_shown(c, v) {
        Err(e) => Err(e),
        Ok((mirror, screen, display, value)) => match home_accepted(c.home, value) {
            Err(e) => Err(e),
            Ok(home) => Ok(
                Shown { mirror, screen, display, home, value: home_lightened(value) },
            ),
        },
    }
}

/// The console with what the device shows.
pub open spec fn with_shown(c: ConsoleView, s: Shown) -> ConsoleView {
    ConsoleView {
        mirror: s.mirror,
        radar: PageView { device: s.screen, ..c.radar },
        calendar: CalendarView { display: s.display, ..c.calendar },
        home: s.home,
        ..c
    }
}

/// What is to be done after an action came to its end.
#[derive(Debug)]
pub enum Next {
    /// Nothing.
    Rest,
    /// The ports were listed; the one to be used, where it is clear.
    Ports(Option<String>),
    /// A picture was chosen.
    Picture(String),
}

#[verifier::ext_equal]
pub enum NextView {
    Rest,
    Ports(Option<Seq<char>>),
    Picture(Seq<char>),
}

impl View for Next {
    type V = NextView;

    open spec fn view(&self) -> NextView {
        match self {
            Next::Rest => NextView::Rest,
            Next::Ports(Some(p)) => NextView::Ports(Some(p@)),
            Next::Ports(None) => NextView::Ports(None),
            Next::Picture(p) => NextView::Picture(p@),
        }
    }
}

/// The names of ports.
pub open spec fn port_names(list: Seq<JsonView>) -> Seq<Seq<char>>
    decreases list.len(),
{
    if list.len() == 0 {
        Seq::empty()
    } else {
        match text_of(at(list.last(), "device"@)) {
            Some(name) => port_names(list.drop_last()).push(name),
            None => port_names(list.drop_last()),
        }
    }
}

/// Whether a port is that of the device.
pub open spec fn is_device(p: JsonView) -> bool {
    i64_of(at(p, "vid"@)) == Some(0x303ai64) && i64_of(at(p, "pid"@)) == Some(0x1001i64)
}

/// The ports of devices.
pub open spec fn device_ports(list: Seq<JsonView>) -> Seq<JsonView>
    decreases list.len(),
{
    if list.len() == 0 {
        Seq::empty()
    } else if is_device(list.last()) {
        device_ports(list.drop_last()).push(list.last())
    } else {
        device_ports(list.drop_last())
    }
}

/// The port to be used where none is set and there is just one device.
pub open spec fn clear_port(list: Seq<JsonView>, port: Seq<char>) -> Option<Seq<char>> {
    if port.len() == 0 && device_ports(list).len() == 1 {
        text_of(at(device_ports(list)[0], "device"@))
    } else {
        None
    }
}

/// The console after an action came to its end, and what is to be done next.
/// `port` is the port that is set.
pub open spec fn completed(
    c: ConsoleView,
    action: Seq<char>,
    result: Result<JsonView, Seq<char>>,
    port: Seq<char>,
) -> (ConsoleView, NextView) {
    let c = ConsoleView { pending: None, ..c };
    match result {
        Err(e) => (
            (if action == "browse"@ {
                c
            } else {
                ConsoleView { connected: false, radar_sync: false, calendar_sync: false, ..c }
            }).failing(e),
            NextView::Rest,
        ),
        Ok(v) => if action == "ports"@ {
            let list = match items_of(at(v, "ports"@)) {
                Some(l) => l,
                None => Seq::empty(),
            };
            (
                ConsoleView { ports: port_names(list), ..c },
                NextView::Ports(clear_port(list, port)),
            )
        } else if action == "browse"@ {
            (
                c,
                match text_of(at(v, "path"@)) {
                    Some(path) => if path.len() > 0 {
                        NextView::Picture(path)
                    } else {
                        NextView::Rest
                    },
                    None => NextView::Rest,
                },
            )
        } else {
            match shown_of(c, v) {
                Err(e) => (c.forgetful().failing(e), NextView::Rest),
                Ok(shown) => (confirmed(c, action, shown), NextView::Rest),
            }
        },
    }
}

/// The console after the device confirmed an action.
pub open spec fn confirmed(c: ConsoleView, action: Seq<char>, shown: Shown) -> ConsoleView {
    let d = with_shown(c, shown);
    let mode = text_of(at(shown.value, "mode"@));
    let home = mode == Some("home"@);
    let speaks = action != "status"@ || c.error || !c.connected;
    ConsoleView {
        radar_sync: if home {
            match d.home.clock {
                Some(clock) => has_scene(clock, "radar"@),
                None => false,
            }
        } else if action == "radar_usb"@ || action == "radar_only"@ {
            true
        } else {
            c.radar_sync && mode == Some("radar"@)
        },
        calendar_sync: if home {
            match d.home.clock {
                Some(clock) => has_scene(clock, "calendar"@),
                None => false,
            }
        } else {
            mode == Some("calendar"@)
        },
        connected: true,
        state: Some(shown.value),
        message: if speaks {
            action_label(action) + "：设备已确认"@
        } else {
            c.message
        },
        error: if speaks {
            false
        } else {
            c.error
        },
        ..d
    }
}

/// An answer that is refused in part is refused as a whole: nothing is shown of
/// the device any more, and nothing is kept in step with it.
pub proof fn law_refused_answer_leaves_nothing(
    c: ConsoleView,
    action: Seq<char>,
    v: JsonView,
    port: Seq<char>,
)
    requires
        action != "ports"@,
        action != "browse"@,
        shown_of(ConsoleView { pending: None, ..c }, v) is Err,
    ensures
        ({
            let d = completed(c, action, Ok(v), port).0;
            &&& d.error
            &&& d.mirror == blank_mirror()
            &&& d.radar.device is None
            &&& d.calendar.display is None
            &&& d.home.clock is None
            &&& !d.connected
            &&& !d.calendar_due()
            &&& forall|ms: int| !#[trigger] d.radar_due(ms)
        }),
{
}

fn delayed(part: &Json, delay: &Option<Json>) -> (r: Json)
    ensures
        r@ == with_delay(
            part@,
            match *delay {
                Some(d) => Some(d@),
                None => None,
            },
        ),
{
    match delay {
        Some(d) => {
            let mut out = if part.is_null() {
                Json::object()
            } else {
                part.clone()
            };
            out.insert("_transport_ms", d.clone());
            out
        },
        None => part.clone(),
    }
}

fn list_names(list: &Vec<Json>) -> (r: Vec<String>)
    ensures
        texts(r@) == port_names(models(list@)),
{
    let ghost all = models(list@);
    let mut out: Vec<String> = Vec::new();
    let mut i: usize = 0;
    assert(all.take(0) =~= Seq::empty());
    assert(texts(out@) =~= Seq::empty());
    while i < list.len()
        invariant
            i <= list@.len(),
            all == models(list@),
            texts(out@) == port_names(all.take(i as int)),
        decreases list@.len() - i,
    {
        proof {
            assert(all.take(i as int + 1).drop_last() =~= all.take(i as int));
            assert(all.take(i as int + 1).last() == list@[i as int]@);
        }
        let ghost before = texts(out@);
        match list[i].get_str("device") {
            Some(name) => {
                out.push(name.to_owned());
                assert(texts(out@) =~= before.push(name@));
            },
            None => {},
        }
        i += 1;
    }
    assert(all.take(all.len() as int) =~= all);
    out
}

fn is_device_port(p: &Json) -> (r: bool)
    ensures
        r == is_device(p@),
{
    match (p.get_i64("vid"), p.get_i64("pid")) {
        (Some(v), Some(p)) => v == 0x303a && p == 0x1001,
        _ => false,
    }
}

fn find_clear_port(list: &Vec<Json>, port: &str) -> (r: Option<String>)
    ensures
        match r {
            Some(p) => clear_port(models(list@), port@) == Some(p@),
            None => clear_port(models(list@), port@) is None,
        },
{
    if port.unicode_len() != 0 {
        return None;
    }
    let ghost all = models(list@);
    let mut found: usize = 0;
    let mut place: usize = 0;
    let mut i: usize = 0;
    assert(all.take(0) =~= Seq::empty());
    while i < list.len()
        invariant
            i <= list@.len(),
            all == models(list@),
            found <= i,
            found == device_ports(all.take(i as int)).len(),
            found > 0 ==> place < list@.len() && device_ports(all.take(i as int)).last()
                == all[place as int],
        decreases list@.len() - i,
    {
        proof {
            assert(all.take(i as int + 1).drop_last() =~= all.take(i as int));
            assert(all.take(i as int + 1).last() == list@[i as int]@);
            assert(all[i as int] == list@[i as int]@);
        }
        if is_device_port(&list[i]) {
            found += 1;
            place = i;
        }
        i += 1;
    }
    assert(all.take(all.len() as int) =~= all);
    if found != 1 {
        return None;
    }
    assert(all[place as int] == list@[place as int]@);
    match list[place].get_str("device") {
        Some(name) => Some(name.to_owned()),
        None => None,
    }
}

impl Console {
    /// Takes over what the device shows, part by part.
    fn accept_display(&mut self, value: &mut Json) -> (r: Result<(), String>)
        ensures
            match r {
                Ok(_) => match shown_of(old(self)@, old(value)@) {
                    Ok(s) => final(self)@ == with_shown(old(self)@, s) && final(value)@ == s.value,
                    Err(_) => false,
                },
                Err(e) => shown_of(old(self)@, old(value)@) == Err::<Shown, Seq<char>>(e@)
                    && final(self)@.forgetful() == old(self)@.forgetful(),
            },
    {
        if value.is_str("mode", "home") {
            let delay = match value.get("_transport_ms") {
                Some(d) => Some(d.clone()),
                None => None,
            };
            let task = match value.get("task") {
                Some(part) => Some(delayed(part, &delay)),
                None => None,
            };
            match task {
                Some(mut part) => {
                    self.mirror.update(&mut part)?;
                    value.insert("task", part);
                },
                None => {
                    self.mirror = Mirror::default();
                },
            }
            let radar = match value.get("radar") {
                Some(part) => Some(delayed(part, &delay)),
                None => None,
            };
            match radar {
                Some(mut part) => {
                    self.radar.accept_device(&mut part)?;
                    value.insert("radar", part);
                },
                None => self.radar.clear_device(),
            }
            let calendar = match value.get("calendar") {
                Some(part) => Some(delayed(part, &delay)),
                None => None,
            };
            match calendar {
                Some(mut part) => {
                    self.calendar.accept(&mut part)?;
                    value.insert("calendar", part);
                },
                None => self.calendar.clear_device(),
            }
        } else {
            self.radar.accept_device(value)?;
            self.mirror.update(value)?;
            self.calendar.accept(value)?;
        }
        self.home.accept(value)?;
        Ok(())
    }

    /// Takes over what an action came to.
    pub fn complete(&mut self, action: &str, result: Result<Json, String>, port: &str) -> (r: Next)
        ensures
            ({
                let came = match result {
                    Ok(v) => Ok(v@),
                    Err(e) => Err(e@),
                };
                (final(self)@, r@) == completed(old(self)@, action@, came, port@)
            }),
    {
        self.pending = None;
        let mut value = match result {
            Ok(v) => v,
            Err(e) => {
                if !same_text(action, "browse") {
                    self.connected = false;
                    self.radar_sync = false;
                    self.calendar_sync = false;
                }
                self.fail(e);
                return Next::Rest;
            },
        };
        if same_text(action, "ports") {
            return match value.get_array("ports") {
                Some(list) => {
                    self.ports = list_names(list);
                    Next::Ports(find_clear_port(list, port))
                },
                None => {
                    self.ports = Vec::new();
                    assert(texts(self.ports@) =~= Seq::empty());
                    Next::Ports(None)
                },
            };
        }
        if same_text(action, "browse") {
            return match value.get_str("path") {
                Some(path) => if path.unicode_len() > 0 {
                    Next::Picture(path.to_owned())
                } else {
                    Next::Rest
                },
                None => Next::Rest,
            };
        }
        match self.accept_display(&mut value) {
            Ok(_) => {},
            Err(e) => {
                self.forget_device();
                self.fail(e);
                return Next::Rest;
            },
        }
        let home = value.is_str("mode", "home");
        if home {
            self.radar_sync = self.home.has_radar();
            self.calendar_sync = self.home.has_calendar();
        } else {
            if same_text(action, "radar_usb") || same_text(action, "radar_only") {
                self.radar_sync = true;
            } else if !value.is_str("mode", "radar") {
                self.radar_sync = false;
            }
            self.calendar_sync = value.is_str("mode", "calendar");
        }
        if !same_text(action, "status") || self.error || !self.connected {
            self.message = glue(action_name(action), "：设备已确认");
            self.error = false;
        }
        self.connected = true;
        self.state = Some(value);
        Next::Rest
    }

    fn forget_device(&mut self)
        ensures
            final(self)@ == old(self)@.forgetful(),
    {
        self.connected = false;
        self.radar_sync = false;
        self.calendar_sync = false;
        self.calendar.clear_device();
        self.home.clear_device();
        self.radar.clear_device();
        self.mirror = Mirror::default();
    }

    /// Another port was set: what was known of the device on the old one is
    /// forgotten.
    pub fn port_changed(&mut self)
        ensures
            final(self)@ == (ConsoleView { state: None, ..old(self)@.forgetful() }),
    {
        self.forget_device();
        self.state = None;
    }

    /// Ends that the radar is kept in step.
    pub fn stop_radar_sync(&mut self)
        ensures
            final(self)@ == (ConsoleView { radar_sync: false, ..old(self)@ }),
    {
        self.radar_sync = false;
    }

    /// Whether the calendar has changed and the device is to be told.
    pub fn calendar_due(&self) -> (r: bool)
        ensures
            r == self@.calendar_due(),
    {
        self.calendar_sync && self.connected && self.pending.is_none() && self.calendar.needs_send()
    }

    /// Whether the radar has new data and the device is to be told, so many
    /// milliseconds after it was last heard of.
    pub fn radar_due(&self, since_ms: u64) -> (r: bool)
        ensures
            r == self@.radar_due(since_ms as int),
    {
        self.radar_sync && self.connected && self.pending.is_none() && self.radar.revision()
            != self.radar_sent && since_ms >= 5000
    }

    /// Whether the calendar is read again and again.
    pub fn calendar_active(&self, mode: Mode) -> (r: bool)
        ensures
            r == self@.calendar_active(mode),
    {
        mode == Mode::Calendar || self.calendar_sync || (mode == Mode::Home
            && self.home.wants_calendar())
    }

    /// Whether the radar is collected again and again.
    pub fn radar_active(&self, mode: Mode) -> (r: bool)
        ensures
            r == self@.radar_active(mode),
    {
        mode == Mode::Radar || self.radar_sync || (mode == Mode::Home && self.home.wants_radar())
    }

    /// Whether what a mode edits can be sent.
    pub fn can_apply(&self, mode: Mode) -> (r: bool)
        ensures
            r == self@.can_apply(mode),
    {
        let calendar = mode == Mode::Calendar || (mode == Mode::Home && self.home.wants_calendar());
        let radar = mode == Mode::Radar || (mode == Mode::Home && self.home.wants_radar());
        self.connected && self.pending.is_none() && (!calendar || self.calendar.snapshot().is_some())
            && (!radar || self.radar.revision() > 0)
    }

    /// Whether a picture of the window can be taken: three seconds have passed,
    /// nothing is under way, and the page has something to show.
    pub fn capture_due(&self, mode: Mode, elapsed_ms: u64) -> (r: bool)
        ensures
            r == (elapsed_ms > 3000 && self@.pending is None && (mode == Mode::Radar
                ==> self@.radar.attempted) && (mode == Mode::Calendar ==> self@.calendar.attempted)),
    {
        elapsed_ms > 3000 && self.pending.is_none() && (mode != Mode::Radar || self.radar.ready())
            && (mode != Mode::Calendar || self.calendar.ready())
    }

    /// Whether an action changes what the device shows while it is under way.
    pub fn changing(&self) -> (r: bool)
        ensures
            r == match self@.pending {
                Some(p) => p != "status"@ && p != "ports"@,
                None => false,
            },
    {
        match &self.pending {
            Some(p) => !same_text(p.as_str(), "status") && !same_text(p.as_str(), "ports"),
            None => false,
        }
    }

    /// The action that is under way.
    pub fn pending(&self) -> (r: Option<&str>)
        ensures
            opt_text(r) == self@.pending,
    {
        match &self.pending {
            Some(p) => Some(p.as_str()),
            None => None,
        }
    }

    /// The names of the ports that were listed.
    pub fn ports(&self) -> (r: &Vec<String>)
        ensures
            texts(r@) == self@.ports,
    {
        &self.ports
    }

    /// Whether the device answered the last time.
    pub fn connected(&self) -> (r: bool)
        ensures
            r == self@.connected,
    {
        self.connected
    }

    /// Whether the radar is kept in step.
    pub fn radar_sync(&self) -> (r: bool)
        ensures
            r == self@.radar_sync,
    {
        self.radar_sync
    }

    /// What the device answered last.
    pub fn state(&self) -> (r: Option<&Json>)
        ensures
            option_view(r) == self@.state,
    {
        match &self.state {
            Some(s) => Some(s),
            None => None,
        }
    }

    /// What is said to the user, and whether it is about something that went
    /// wrong.
    pub fn message(&self) -> (r: (&str, bool))
        ensures
            r.0@ == self@.message,
            r.1 == self@.error,
    {
        (self.message.as_str(), self.error)
    }
}

proof fn lemma_request_members()
    ensures
        "action"@.len() == 6,
        "port"@.len() == 4,
        "settings"@.len() == 8,
        "labels_crc"@.len() == 10,
        "radar_crc"@.len() == 9,
        "home_crcs"@.len() == 9,
        "calendar_signature"@.len() == 18,
        "calendar_snapshot"@.len() == 17,
        "home_entries"@.len() == 12,
        "snapshot"@.len() == 8,
        "text"@.len() == 4,
        "image"@.len() == 5,
        "port"@[0] == 'p',
        "text"@[0] == 't',
        "settings"@[1] == 'e',
        "snapshot"@[1] == 'n',
        "radar_crc"@[0] == 'r',
        "home_crcs"@[0] == 'h',
{
    reveal_strlit("action");
    reveal_strlit("port");
    reveal_strlit("settings");
    reveal_strlit("labels_crc");
    reveal_strlit("radar_crc");
    reveal_strlit("home_crcs");
    reveal_strlit("calendar_signature");
    reveal_strlit("calendar_snapshot");
    reveal_strlit("home_entries");
    reveal_strlit("snapshot");
    reveal_strlit("text");
    reveal_strlit("image");
}

proof fn lemma_actions()
    ensures
        "ports"@.len() == 5,
        "status"@.len() == 6,
        "task"@.len() == 4,
        "pause"@.len() == 5,
        "resume"@.len() == 6,
        "reset"@.len() == 5,
        "clear"@.len() == 5,
        "text"@.len() == 4,
        "image"@.len() == 5,
        "home"@.len() == 4,
        "home_stop"@.len() == 9,
        "calendar_update"@.len() == 15,
        "calendar_only"@.len() == 13,
        "radar_only"@.len() == 10,
        "radar_usb"@.len() == 9,
        "browse"@.len() == 6,
        "ports"@[1] == 'o',
        "pause"@[1] == 'a',
        "ports"@[0] == 'p',
        "reset"@[0] == 'r',
        "clear"@[0] == 'c',
        "image"@[0] == 'i',
        "status"@[0] == 's',
        "resume"@[0] == 'r',
        "browse"@[0] == 'b',
        "task"@[1] == 'a',
        "text"@[1] == 'e',
        "task"@[0] == 't',
        "home"@[0] == 'h',
        "pause"@[0] == 'p',
        "text"@[0] == 't',
        "home_stop"@[0] == 'h',
        "radar_usb"@[0] == 'r',
{
    reveal_strlit("ports");
    reveal_strlit("status");
    reveal_strlit("task");
    reveal_strlit("pause");
    reveal_strlit("resume");
    reveal_strlit("reset");
    reveal_strlit("clear");
    reveal_strlit("text");
    reveal_strlit("image");
    reveal_strlit("home");
    reveal_strlit("home_stop");
    reveal_strlit("calendar_update");
    reveal_strlit("calendar_only");
    reveal_strlit("radar_only");
    reveal_strlit("radar_usb");
    reveal_strlit("browse");
}

/// A request says what is asked for, on which port and with which drafts, what is
/// known of the device, and what the action needs besides: the day that was read,
/// the data that were collected, the scenes that are ticked.
pub proof fn law_request_says_what_is_asked(c: ConsoleView, action: Seq<char>, s: Settings)
    ensures
        submitted(c, action, s).1 is Some ==> ({
            let v = submitted(c, action, s).1->0;
            let day = action == "calendar_update"@ || action == "calendar_only"@ || (action
                == "home"@ && exists|i: int|
                0 <= i < c.home.choices.len() && (#[trigger] c.home.choices[i]).enabled
                    && c.home.choices[i].mode == Mode::Calendar);
            let data = action == "radar_usb"@ || action == "radar_only"@ || (action == "home"@
                && exists|i: int|
                0 <= i < c.home.choices.len() && (#[trigger] c.home.choices[i]).enabled
                    && c.home.choices[i].mode == Mode::Radar);
            &&& at(v, "action"@) == Some(JsonView::Str(action))
            &&& at(v, "port"@) == Some(JsonView::Str(s.port@))
            &&& at(v, "settings"@) == Some(settings_json(s))
            &&& text_of(at(v, "labels_crc"@)) == c.mirror.crc
            &&& text_of(at(v, "radar_crc"@)) == match c.radar.device {
                Some(d) => Some(d.crc),
                None => None,
            }
            &&& text_of(at(v, "calendar_signature"@)) == match c.calendar.display {
                Some(d) => Some(d.signature),
                None => None,
            }
            &&& at(v, "calendar_snapshot"@) == if day {
                c.calendar.source
            } else {
                None
            }
            &&& day ==> c.calendar.source is Some
            &&& at(v, "snapshot"@) == if data {
                c.radar.data
            } else {
                None
            }
            &&& data ==> c.radar.data is Some
            &&& at(v, "home_entries"@) is Some <==> action == "home"@
            &&& action == "home"@ ==> selection(c.home.choices) is Ok && at(v, "home_entries"@)
                == Some(JsonView::Array(selection(c.home.choices)->Ok_0)) && 1 <= selection(
                c.home.choices,
            )->Ok_0.len() <= 5
        }),
{
    lemma_request_members();
    lemma_actions();
}

/// A request names the pictures that are known by the sums of their bytes.
pub proof fn law_request_names_the_pictures(c: ConsoleView, action: Seq<char>, s: Settings)
    ensures
        submitted(c, action, s).1 is Some ==> ({
            let sums = at(submitted(c, action, s).1->0, "home_crcs"@);
            &&& sums is Some
            &&& text_of(at(sums->0, "text"@)) == match c.home.text {
                Some(p) => Some(p.crc),
                None => None,
            }
            &&& text_of(at(sums->0, "image"@)) == match c.home.image {
                Some(p) => Some(p.crc),
                None => None,
            }
        }),
{
    lemma_request_members();
    lemma_actions();
}

/// A console at rest refuses an action only for a reason: drafts that make no
/// task, no day or no data yet where one is needed, or no scenes to show. It then
/// says so and stays at rest.
pub proof fn law_actions_are_refused_for_a_reason(c: ConsoleView, action: Seq<char>, s: Settings)
    requires
        c.pending is None,
    ensures
        ({
            let (d, request) = submitted(c, action, s);
            let no_day = c.calendar.source is None && (action == "calendar_update"@ || action
                == "calendar_only"@ || (action == "home"@ && wants(c.home.choices, Mode::Calendar)));
            let no_data = c.radar.data is None && (action == "radar_usb"@ || action
                == "radar_only"@ || (action == "home"@ && wants(c.home.choices, Mode::Radar)));
            let no_scenes = action == "home"@ && (selection(c.home.choices) is Err || !(1
                <= selection(c.home.choices)->Ok_0.len() <= 5));
            let no_task = action == "task"@ && s.task_fault() is Some;
            &&& request is None <==> no_task || no_day || no_scenes || no_data
            &&& request is None ==> d.error && d.pending is None && d == (ConsoleView {
                message: d.message,
                error: true,
                ..c
            })
            &&& request is None && no_task ==> Some(d.message) == s.task_fault()
            &&& request is None && !no_task && no_day ==> d.message == "请等待首次日历读取完成"@
            &&& request is None && !no_task && !no_day && no_scenes && selection(
                c.home.choices,
            ) is Err ==> d.message == selection(c.home.choices)->Err_0
            &&& request is None && !no_task && !no_day && !no_scenes ==> d.message
                == "请等待雷达首次采集完成"@
            &&& request is Some ==> d.pending == Some(action)
        }),
{
    lemma_actions();
}

/// What an action that goes out changes of the console: it is under way, the data
/// that go with it are the last ones sent, and one that puts something of its own
/// on the device ends that the calendar and the radar are kept in step.
pub proof fn law_action_is_under_way(c: ConsoleView, action: Seq<char>, s: Settings)
    ensures
        submitted(c, action, s).1 is Some ==> ({
            let d = submitted(c, action, s).0;
            let own = action == "task"@ || action == "text"@ || action == "image"@ || action
                == "clear"@ || action == "home"@;
            let data = at(submitted(c, action, s).1->0, "snapshot"@) is Some;
            &&& d.pending == Some(action)
            &&& d.radar_sent == if data {
                c.radar.revision
            } else {
                c.radar_sent
            }
            &&& d.radar_sync <==> c.radar_sync && !own
            &&& d.calendar_sync <==> c.calendar_sync && !own
            &&& d.radar == c.radar && d.home == c.home && d.calendar == c.calendar && d.mirror
                == c.mirror && d.ports == c.ports && d.connected == c.connected && d.state
                == c.state && d.message == c.message && d.error == c.error
            &&& !d.calendar_due()
            &&& forall|ms: int| !#[trigger] d.radar_due(ms)
        }),
{
    lemma_request_members();
    lemma_actions();
    law_request_says_what_is_asked(c, action, s);
}

/// An action that failed is over and its fault is shown; unless it was the choice
/// of a picture, the device counts as lost and nothing is kept in step with it,
/// and what it confirmed before is still shown.
pub proof fn law_failed_action_is_shown(
    c: ConsoleView,
    action: Seq<char>,
    fault: Seq<char>,
    port: Seq<char>,
)
    ensures
        ({
            let (d, next) = completed(c, action, Err(fault), port);
            let lost = action != "browse"@;
            &&& next is Rest
            &&& d.pending is None
            &&& d.message == fault
            &&& d.error
            &&& d.connected == (c.connected && !lost)
            &&& d.radar_sync == (c.radar_sync && !lost)
            &&& d.calendar_sync == (c.calendar_sync && !lost)
            &&& d.radar == c.radar && d.home == c.home && d.calendar == c.calendar && d.mirror
                == c.mirror && d.ports == c.ports && d.state == c.state && d.radar_sent
                == c.radar_sent
        }),
{
}

/// An answer of the device that is good in all its parts is what is shown from
/// then on; the calendar and the radar are kept in step while the device shows
/// them, by themselves or in a playlist.
pub proof fn law_confirmed_action_is_shown(
    c: ConsoleView,
    action: Seq<char>,
    v: JsonView,
    port: Seq<char>,
)
    requires
        action != "ports"@,
        action != "browse"@,
        shown_of(ConsoleView { pending: None, ..c }, v) is Ok,
    ensures
        ({
            let shown = shown_of(ConsoleView { pending: None, ..c }, v)->Ok_0;
            let (d, next) = completed(c, action, Ok(v), port);
            let mode = text_of(at(shown.value, "mode"@));
            let quiet = action == "status"@ && c.connected && !c.error;
            &&& next is Rest
            &&& d.pending is None
            &&& d.connected
            &&& d.state == Some(shown.value)
            &&& d.mirror == shown.mirror
            &&& d.radar.device == shown.screen
            &&& d.radar.data == c.radar.data && d.radar.revision == c.radar.revision
            &&& d.calendar.display == shown.display
            &&& d.calendar.source == c.calendar.source
            &&& d.home == shown.home
            &&& d.ports == c.ports && d.radar_sent == c.radar_sent
            &&& quiet ==> d.message == c.message && !d.error
            &&& !quiet ==> d.message == action_label(action) + "：设备已确认"@ && !d.error
            &&& mode == Some("home"@) && d.home.clock is Some ==> {
                &&& d.radar_sync <==> exists|i: int|
                    0 <= i < d.home.clock->0.entries.len() && (#[trigger] d.home.clock->0.entries[i]).mode
                        == "radar"@
                &&& d.calendar_sync <==> exists|i: int|
                    0 <= i < d.home.clock->0.entries.len() && (#[trigger] d.home.clock->0.entries[i]).mode
                        == "calendar"@
            }
            &&& mode != Some("home"@) ==> {
                &&& d.radar_sync <==> action == "radar_usb"@ || action == "radar_only"@ || (
                c.radar_sync && mode == Some("radar"@))
                &&& d.calendar_sync <==> mode == Some("calendar"@)
            }
        }),
{
}

/// The names of the ports come in the order of the list, and one device alone is
/// the port to be used where none is set.
pub proof fn law_ports_are_listed(c: ConsoleView, list: Seq<JsonView>, v: JsonView, port: Seq<char>)
    requires
        at(v, "ports"@) == Some(JsonView::Array(list)),
        forall|i: int| 0 <= i < list.len() ==> text_of(at(#[trigger] list[i], "device"@)) is Some,
    ensures
        ({
            let (d, next) = completed(c, "ports"@, Ok(v), port);
            let devices = list.filter(|p: JsonView| names_device(p));
            &&& d.ports.len() == list.len()
            &&& forall|i: int|
                0 <= i < list.len() ==> Some(#[trigger] d.ports[i]) == text_of(
                    at(list[i], "device"@),
                )
            &&& d == (ConsoleView { ports: d.ports, pending: None, ..c })
            &&& next == NextView::Ports(
                if port.len() == 0 && devices.len() == 1 {
                    text_of(at(devices[0], "device"@))
                } else {
                    None
                },
            )
        }),
{
    lemma_actions();
    lemma_port_names(list);
    lemma_device_ports(list);
}

/// Whether the numbers of a port are those of the device's maker and model.
pub open spec fn names_device(p: JsonView) -> bool {
    &&& i64_of(at(p, "vid"@)) matches Some(vid) && vid == 12346
    &&& i64_of(at(p, "pid"@)) matches Some(pid) && pid == 4097
}

proof fn lemma_port_names(list: Seq<JsonView>)
    requires
        forall|i: int| 0 <= i < list.len() ==> text_of(at(#[trigger] list[i], "device"@)) is Some,
    ensures
        port_names(list).len() == list.len(),
        forall|i: int|
            0 <= i < list.len() ==> Some(#[trigger] port_names(list)[i]) == text_of(
                at(list[i], "device"@),
            ),
    decreases list.len(),
{
    if list.len() > 0 {
        lemma_port_names(list.drop_last());
    }
}

proof fn lemma_device_ports(list: Seq<JsonView>)
    ensures
        device_ports(list) == list.filter(|p: JsonView| names_device(p)),
    decreases list.len(),
{
    reveal(Seq::filter);
    if list.len() > 0 {
        lemma_device_ports(list.drop_last());
        assert(is_device(list.last()) == names_device(list.last()));
    }
}

/// A picture that was chosen is handed on under its path, and nothing else
/// changes; where none was chosen there is nothing to do.
pub proof fn law_chosen_picture_is_handed_on(c: ConsoleView, v: JsonView, port: Seq<char>)
    ensures
        ({
            let (d, next) = completed(c, "browse"@, Ok(v), port);
            &&& d == (ConsoleView { pending: None, ..c })
            &&& next matches NextView::Picture(path) ==> path.len() > 0 && at(v, "path"@) == Some(
                JsonView::Str(path),
            )
            &&& text_of(at(v, "path"@)) is Some && text_of(at(v, "path"@))->0.len() > 0 ==> next
                == NextView::Picture(text_of(at(v, "path"@))->0)
            &&& next is Picture || next is Rest
        }),
{
    lemma_actions();
}

/// What a user reads of an action.
pub proof fn law_actions_have_their_names(action: Seq<char>)
    ensures
        action_label("ports"@) == "刷新串口"@,
        action_label("status"@) == "查询设备"@,
        action_label("task"@) == "应用任务"@,
        action_label("pause"@) == "暂停"@,
        action_label("resume"@) == "继续"@,
        action_label("reset"@) == "重置"@,
        action_label("clear"@) == "停止显示"@,
        action_label("text"@) == "发送文字"@,
        action_label("image"@) == "发送图片"@,
        action_label("home"@) == "应用轮播"@,
        action_label("home_stop"@) == "停止轮播"@,
        action_label("calendar_update"@) == "同步日历"@,
        action_label("calendar_only"@) == "应用日历"@,
        action_label("radar_only"@) == "应用雷达"@,
        action_label("radar_usb"@) == "同步雷达"@,
        action_label("browse"@) == "选择图片"@,
        !seq![
            "ports"@,
            "status"@,
            "task"@,
            "pause"@,
            "resume"@,
            "reset"@,
            "clear"@,
            "text"@,
            "image"@,
            "home"@,
            "home_stop"@,
            "calendar_update"@,
            "calendar_only"@,
            "radar_only"@,
            "radar_usb"@,
            "browse"@,
        ].contains(action) ==> action_label(action) == action,
{
    lemma_actions();
    let known = seq![
        "ports"@,
        "status"@,
        "task"@,
        "pause"@,
        "resume"@,
        "reset"@,
        "clear"@,
        "text"@,
        "image"@,
        "home"@,
        "home_stop"@,
        "calendar_update"@,
        "calendar_only"@,
        "radar_only"@,
        "radar_usb"@,
        "browse"@,
    ];
    assert forall|i: int| 0 <= i < 16 && #[trigger] known[i] == action implies known.contains(
        action,
    ) by {}
    assert(known[0] == "ports"@ && known[1] == "status"@ && known[2] == "task"@ && known[3]
        == "pause"@ && known[4] == "resume"@ && known[5] == "reset"@ && known[6] == "clear"@
        && known[7] == "text"@ && known[8] == "image"@ && known[9] == "home"@ && known[10]
        == "home_stop"@ && known[11] == "calendar_update"@ && known[12] == "calendar_only"@
        && known[13] == "radar_only"@ && known[14] == "radar_usb"@ && known[15] == "browse"@);
}

/// A task that is paused stays so however much is left of it; one that is not
/// paused and has nothing left is done, and only one that runs is said to go
/// round.
pub proof fn law_run_label_follows_the_task(s: StateView)
    ensures
        run_label_of(s) == "已暂停"@ <==> s.paused,
        run_label_of(s) == "已完成"@ <==> !s.paused && s.reset_seconds == 0,
        run_label_of(s) == "循环运行"@ <==> !s.paused && s.reset_seconds != 0 && s.looping,
        run_label_of(s) == "运行中"@ <==> !s.paused && s.reset_seconds != 0 && !s.looping,
{
    reveal_strlit("已暂停");
    reveal_strlit("已完成");
    reveal_strlit("循环运行");
    reveal_strlit("运行中");
    assert("已暂停"@[1] == '暂');
    assert("已完成"@[1] == '完');
    assert("运行中"@[1] == '行');
}

/// New data are sent once: after an action that took them along nothing is due
/// until others are collected. While the radar is in step, what is new is due as
/// soon as five seconds have passed, and never sooner.
pub proof fn law_new_data_are_sent_once(c: ConsoleView, action: Seq<char>, s: Settings, ms: int)
    ensures
        submitted(c, action, s).1 is Some && (action == "radar_usb"@ || action == "radar_only"@)
            ==> ({
            let d = submitted(c, action, s).0;
            !(ConsoleView { pending: None, radar_sync: true, ..d }).radar_due(ms)
        }),
        c.radar_sync && c.connected && c.pending is None && c.radar.revision != c.radar_sent ==> (
        c.radar_due(ms) <==> ms >= 5000),
        c.radar_due(ms) ==> c.radar_sync && c.connected && c.pending is None,
        c.calendar_due() ==> c.calendar_sync && c.connected && c.pending is None
            && c.calendar.source is Some,
{
    lemma_actions();
}

/// A day that the device does not show yet is due as soon as nothing else is under
/// way, and one that it shows is not.
pub proof fn law_new_day_is_sent_once(c: ConsoleView)
    requires
        c.calendar_sync,
        c.connected,
        c.pending is None,
        c.calendar.source is Some,
    ensures
        c.calendar_due() <==> text_of(at(c.calendar.source->0, "signature"@)) != match c.calendar.display {
            Some(d) => Some(d.signature),
            None => None,
        },
{
}

/// What can be sent is what would not be refused for want of a day or of data, and
/// the button of a mode stands for the action of that mode.
pub proof fn law_what_can_be_applied_is_not_refused(c: ConsoleView, mode: Mode, s: Settings)
    requires
        c.can_apply(mode),
        mode != Mode::Home,
        mode != Mode::Hourglass || s.task_fault() is None,
        c.radar.revision > 0 ==> c.radar.data is Some,
    ensures
        c.connected,
        c.pending is None,
        submitted(c, mode_action(mode), s).1 is Some,
        at(submitted(c, mode_action(mode), s).1->0, "action"@) == Some(
            JsonView::Str(
                match mode {
                    Mode::Home => "home"@,
                    Mode::Hourglass => "task"@,
                    Mode::Text => "text"@,
                    Mode::Image => "image"@,
                    Mode::Radar => "radar_only"@,
                    Mode::Calendar => "calendar_only"@,
                },
            ),
        ),
{
    lemma_actions();
    law_request_says_what_is_asked(c, mode_action(mode), s);
}

/// A page that is open, ticked for the playlist or kept in step is read again and
/// again, and no other.
pub proof fn law_pages_are_read_while_they_are_wanted(c: ConsoleView, mode: Mode)
    ensures
        c.calendar_active(mode) <==> c.calendar_sync || mode == Mode::Calendar || (mode
            == Mode::Home && exists|i: int|
            0 <= i < c.home.choices.len() && (#[trigger] c.home.choices[i]).enabled
                && c.home.choices[i].mode == Mode::Calendar),
        c.radar_active(mode) <==> c.radar_sync || mode == Mode::Radar || (mode == Mode::Home
            && exists|i: int|
            0 <= i < c.home.choices.len() && (#[trigger] c.home.choices[i]).enabled
                && c.home.choices[i].mode == Mode::Radar),
{
}

proof fn lemma_part_members()
    ensures
        "task"@.len() == 4,
        "radar"@.len() == 5,
        "calendar"@.len() == 8,
        "mode"@.len() == 4,
        "home_id"@.len() == 7,
        "_transport_ms"@.len() == 13,
        "task"@[0] == 't',
        "mode"@[0] == 'm',
{
    reveal_strlit("task");
    reveal_strlit("radar");
    reveal_strlit("calendar");
    reveal_strlit("mode");
    reveal_strlit("home_id");
    reveal_strlit("_transport_ms");
}

/// A part of an answer tells how long the whole was under way, and is otherwise what it
/// was.
pub proof fn law_parts_tell_the_delay(part: JsonView, delay: JsonView, key: Seq<char>)
    requires
        part is Object || part is Null,
    ensures
        at(with_delay(part, Some(delay)), "_transport_ms"@) == Some(delay),
        key != "_transport_ms"@ ==> at(with_delay(part, Some(delay)), key) == at(part, key),
        with_delay(part, None) == part,
{
}

/// An answer with a playlist is taken apart: the task, the radar and the calendar come
/// from the parts under their names, nothing from a part that is not there, and the
/// playlist from the answer itself.
pub proof fn law_playlist_answer_is_taken_apart(c: ConsoleView, v: JsonView)
    requires
        at(v, "mode"@) == Some(JsonView::Str("home"@)),
        shown_of(c, v) is Ok,
    ensures
        ({
            let s = shown_of(c, v)->Ok_0;
            let delay = at(v, "_transport_ms"@);
            &&& at(v, "task"@) is None ==> s.mirror == blank_mirror()
            &&& at(v, "task"@) matches Some(part) ==> mirror_updated(
                c.mirror,
                with_delay(part, delay),
            ) == Ok::<MirrorView, Seq<char>>(s.mirror)
            &&& at(v, "radar"@) is None ==> s.screen is None
            &&& at(v, "radar"@) matches Some(part) ==> screen_accepted(
                c.radar.device,
                with_delay(part, delay),
            ) == Ok::<Option<ScreenView>, Seq<char>>(s.screen)
            &&& at(v, "calendar"@) is None ==> s.display is None
            &&& at(v, "calendar"@) matches Some(part) ==> display_accepted(
                c.calendar.display,
                with_delay(part, delay),
            ) == Ok::<Option<DisplayView>, Seq<char>>(s.display)
            &&& s.home.clock matches Some(clock) && at(v, "home_id"@) == Some(
                JsonView::Str(clock.id),
            )
            &&& s.home.choices == c.home.choices
        }),
{
    lemma_part_members();
    let (mirror, screen, display, value) = scenes_shown(c, v)->Ok_0;
    let delay = at(v, "_transport_ms"@);
    let a = (task_part(c.mirror, v, delay)->Ok_0).1;
    let b = (radar_part(c.radar.device, a, delay)->Ok_0).1;
    assert(at(a, "radar"@) == at(v, "radar"@) && at(a, "calendar"@) == at(v, "calendar"@));
    assert(at(b, "calendar"@) == at(a, "calendar"@));
    assert(at(a, "mode"@) == at(v, "mode"@) && at(b, "mode"@) == at(a, "mode"@) && at(value, "mode"@)
        == at(b, "mode"@));
    assert(at(a, "home_id"@) == at(v, "home_id"@) && at(b, "home_id"@) == at(a, "home_id"@) && at(
        value,
        "home_id"@,
    ) == at(b, "home_id"@));
    law_clock_is_what_the_device_says(value);
}

/// An answer without a playlist is about one scene, and all pages go by it: the one that
/// it is about shows it, and the others show nothing.
pub proof fn law_single_answer_is_for_one_page(c: ConsoleView, v: JsonView)
    requires
        at(v, "mode"@) != Some(JsonView::Str("home"@)),
        shown_of(c, v) is Ok,
    ensures
        ({
            let s = shown_of(c, v)->Ok_0;
            &&& screen_accepted(c.radar.device, v) == Ok::<Option<ScreenView>, Seq<char>>(s.screen)
            &&& mirror_updated(c.mirror, data_taken(v)) == Ok::<MirrorView, Seq<char>>(s.mirror)
            &&& s.home.clock is None
            &&& at(v, "mode"@) != Some(JsonView::Str("calendar"@)) ==> s.display is None
        }),
{
    lemma_part_members();
    reveal_strlit("labels");
    reveal_strlit("radar_data");
    reveal_strlit("calendar_pages");
    assert("labels"@.len() == 6 && "radar_data"@.len() == 10 && "calendar_pages"@.len() == 14);
}

} // verus!
