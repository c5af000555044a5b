//! The calendar scene: what was read of the day, and apart from it what the
//! device confirmed that it shows.

use vstd::prelude::*;

use crate::calendar_data::{
    day_json, item_json, items_json, signed, signature_of, AccountView, ItemView,
};
use crate::json::{
    at, bool_of, items_of, models, opt_text, option_view, put, same_text, text_of, u64_of,
    without, Json, JsonView,
};
use crate::mirror::{exact_bytes, read_bytes, rgba_view};
use crate::outside::{decode_rgba, misfit, picture_of, Rgba};
use crate::typed::{
    all_fine, exact_field, fault_view, field_at, field_views, find_exact, find_field,
    law_nothing_said_of_good_lists, law_nothing_said_of_good_records, list_field, name_views,
    plain_field, record_fault, said, say, say_misfit, try_list, try_plain, try_record, Field,
    Plain,
};

verus! {

/// The page that the device shows, with the signature of its day.
#[derive(Debug)]
pub struct Display {
    pub signature: String,
    pub page: Rgba,
}

#[verifier::ext_equal]
pub struct DisplayView {
    pub signature: Seq<char>,
    pub page: (u32, u32, Seq<u8>),
}

impl View for Display {
    type V = DisplayView;

    open spec fn view(&self) -> DisplayView {
        DisplayView { signature: self.signature@, page: rgba_view(self.page) }
    }
}

/// A page that was decoded, where it fills the screen.
pub open spec fn page_placed(signature: Seq<char>, decoded: Result<(u32, u32, Seq<u8>), Seq<char>>) -> Result<
    DisplayView,
    Seq<char>,
> {
    match decoded {
        Err(e) => Err(e),
        Ok(p) => if p.0 != 320 || p.1 != 240 {
            Err("日历图片尺寸不是320×240"@)
        } else {
            Ok(DisplayView { signature, page: p })
        },
    }
}

/// The page after the device described it: the one that came with the
/// description, or the known one, where it is of the same day.
pub open spec fn page_taken(
    known: Option<DisplayView>,
    signature: Seq<char>,
    meta: JsonView,
) -> Result<DisplayView, Seq<char>> {
    match at(meta, "data"@) {
        Some(data) => match exact_bytes(data) {
            None => Err(misfit(Plain::Bytes, data)),
            Some(bytes) => match u64_of(at(meta, "size"@)) {
                Some(n) => if n != bytes.len() {
                    Err("日历图片大小不一致"@)
                } else {
                    page_placed(signature, picture_of(bytes))
                },
                None => Err("日历图片大小不一致"@),
            },
        },
        None => match known {
            Some(d) => if d.signature == signature {
                Ok(d)
            } else {
                Err("日历页面尚未完整回读，请重新检测连接"@)
            },
            None => Err("日历页面尚未完整回读，请重新检测连接"@),
        },
    }
}

/// What the device shows after it said so, first things first. It shows the
/// first page and does not turn it.
pub open spec fn display_accepted(known: Option<DisplayView>, v: JsonView) -> Result<
    Option<DisplayView>,
    Seq<char>,
> {
    if text_of(at(v, "mode"@)) != Some("calendar"@) {
        Ok(None)
    } else {
        match text_of(at(v, "calendar_signature"@)) {
            None => Err("日历缺少签名"@),
            Some(signature) => match u64_of(at(v, "calendar_elapsed_ms"@)) {
                None => Err("日历缺少分页相位"@),
                Some(elapsed) => match u64_of(at(v, "calendar_page_ms"@)) {
                    None => Err("日历缺少分页时长"@),
                    Some(page_ms) => match items_of(at(v, "calendar_pages"@)) {
                        None => Err("日历缺少页面列表"@),
                        Some(pages) => if pages.len() != 1 || page_ms != 0 || elapsed != 0 || !(
                        pages[0] is Object) {
                            Err("日历分页回执无效"@)
                        } else {
                            match page_taken(known, signature, pages[0]) {
                                Ok(d) => Ok(Some(d)),
                                Err(e) => Err(e),
                            }
                        },
                    },
                },
            },
        }
    }
}

/// What is left of the answer of the device: the bytes of the page are taken out
/// of one that has all that goes with it, whether or not they turn out to be a
/// page.
pub open spec fn display_lightened(v: JsonView) -> JsonView {
    match items_of(at(v, "calendar_pages"@)) {
        Some(pages) => if text_of(at(v, "mode"@)) == Some("calendar"@) && text_of(
            at(v, "calendar_signature"@),
        ) is Some && u64_of(at(v, "calendar_elapsed_ms"@)) == Some(0u64) && u64_of(
            at(v, "calendar_page_ms"@),
        ) == Some(0u64) && pages.len() == 1 && pages[0] is Object {
            put(v, "calendar_pages"@, JsonView::Array(seq![without(pages[0], "data"@)]))
        } else {
            v
        },
        None => v,
    }
}

/// The page of the calendar.
#[derive(Debug)]
pub struct CalendarPage {
    source: Option<Json>,
    display: Option<Display>,
    error: Option<String>,
    attempted: bool,
}

#[verifier::ext_equal]
pub struct CalendarView {
    pub source: Option<JsonView>,
    pub display: Option<DisplayView>,
    pub error: Option<Seq<char>>,
    pub attempted: bool,
}

impl View for CalendarPage {
    type V = CalendarView;

    closed spec fn view(&self) -> CalendarView {
        CalendarView {
            source: match self.source {
                Some(s) => Some(s@),
                None => None,
            },
            display: match self.display {
                Some(d) => Some(d@),
                None => None,
            },
            error: match self.error {
                Some(e) => Some(e@),
                None => None,
            },
            attempted: self.attempted,
        }
    }
}

impl CalendarView {
    /// The signature of the day that the device shows.
    pub open spec fn signature(&self) -> Option<Seq<char>> {
        match self.display {
            Some(d) => Some(d.signature),
            None => None,
        }
    }

    /// Whether the day that was read is not the one that the device shows.
    pub open spec fn needs_send(&self) -> bool {
        match self.source {
            Some(s) => text_of(at(s, "signature"@)) != self.signature(),
            None => false,
        }
    }
}

/// Reading a day changes nothing of what the device shows, and once the device
/// shows a day with the same signature there is nothing to send.
pub proof fn law_same_day_is_not_sent_again(p: CalendarView, day: JsonView, v: JsonView)
    requires
        p.source == Some(day),
        text_of(at(v, "mode"@)) == Some("calendar"@),
        text_of(at(v, "calendar_signature"@)) == text_of(at(day, "signature"@)),
    ensures
        match display_accepted(p.display, v) {
            Ok(d) => !(CalendarView { display: d, ..p }).needs_send(),
            Err(_) => true,
        },
{
}

/// Two readings of a day with the same content have the same signature, wherever
/// they were read from.
pub proof fn law_signature_is_of_the_content(day: JsonView, path: Seq<char>, other: Seq<char>)
    requires
        day is Object,
    ensures
        text_of(at(signed(day, path), "signature"@)) == Some(signature_of(day)),
        text_of(at(signed(day, path), "signature"@)) == text_of(
            at(signed(day, other), "signature"@),
        ),
{
    reveal_strlit("signature");
    reveal_strlit("db_path");
    assert("signature"@.len() != "db_path"@.len());
}

/// An answer without the bytes of the page can follow one with them.
pub proof fn law_page_is_kept(known: Option<DisplayView>, v: JsonView)
    ensures
        match display_accepted(known, v) {
            Ok(Some(d)) => display_accepted(Some(d), display_lightened(v)) == Ok::<
                Option<DisplayView>,
                Seq<char>,
            >(Some(d)),
            _ => true,
        },
{
    match display_accepted(known, v) {
        Ok(Some(d)) => {
            reveal_strlit("calendar_pages");
            reveal_strlit("mode");
            reveal_strlit("calendar_signature");
            reveal_strlit("calendar_elapsed_ms");
            reveal_strlit("calendar_page_ms");
            assert("calendar_pages"@.len() == 14);
            let w = display_lightened(v);
            assert(at(w, "mode"@) == at(v, "mode"@));
            assert(at(w, "calendar_signature"@) == at(v, "calendar_signature"@));
            assert(at(w, "calendar_elapsed_ms"@) == at(v, "calendar_elapsed_ms"@));
            assert(at(w, "calendar_page_ms"@) == at(v, "calendar_page_ms"@));
            let pages = items_of(at(v, "calendar_pages"@))->0;
            assert(at(without(pages[0], "data"@), "data"@) is None);
        },
        _ => {},
    }
}

/// A page that was decoded, where it fills the screen.
pub fn place_page(signature: &str, decoded: Result<Rgba, String>) -> (r: Result<Display, String>)
    ensures
        ({
            let d = match decoded {
                Ok(p) => Ok(rgba_view(p)),
                Err(e) => Err(e@),
            };
            match r {
                Ok(p) => page_placed(signature@, d) == Ok::<DisplayView, Seq<char>>(p@),
                Err(e) => page_placed(signature@, d) == Err::<DisplayView, Seq<char>>(e@),
            }
        }),
{
    match decoded {
        Ok(page) => {
            if page.width != 320 || page.height != 240 {
                return Err("日历图片尺寸不是320×240".to_owned());
            }
            Ok(Display { signature: signature.to_owned(), page })
        },
        Err(e) => Err(e),
    }
}

/// The page that comes with its description; `None` where the known one stays.
fn take_page(known: &Option<Display>, signature: &str, meta: &Json) -> (r: Result<
    Option<Display>,
    String,
>)
    ensures
        ({
            let k = match *known {
                Some(d) => Some(d@),
                None => None,
            };
            let taken = page_taken(k, signature@, meta@);
            match r {
                Ok(Some(d)) => taken == Ok::<DisplayView, Seq<char>>(d@),
                Ok(None) => k is Some && taken == Ok::<DisplayView, Seq<char>>(k->0),
                Err(e) => taken == Err::<DisplayView, Seq<char>>(e@),
            }
        }),
{
    match meta.get("data") {
        Some(data) => {
            let bytes = match read_bytes(data) {
                Some(b) => b,
                None => {
                    return Err(say_misfit(Plain::Bytes, data));
                },
            };
            match meta.get_u64("size") {
                Some(n) => {
                    if n != bytes.len() as u64 {
                        return Err("日历图片大小不一致".to_owned());
                    }
                },
                None => {
                    return Err("日历图片大小不一致".to_owned());
                },
            }
            match place_page(signature, decode_rgba(&bytes)) {
                Ok(d) => Ok(Some(d)),
                Err(e) => Err(e),
            }
        },
        None => {
            match known {
                Some(d) => {
                    if same_text(&d.signature, signature) {
                        return Ok(None);
                    }
                },
                None => {},
            }
            Err("日历页面尚未完整回读，请重新检测连接".to_owned())
        },
    }
}

impl Default for CalendarPage {
    fn default() -> (r: Self)
        ensures
            r@ == (CalendarView { source: None, display: None, error: None, attempted: false }),
    {
        CalendarPage { source: None, display: None, error: None, attempted: false }
    }
}

impl CalendarPage {
    /// Takes over what reading the day came to. What the device shows stays as it
    /// is.
    pub fn collected(&mut self, result: Result<Json, String>)
        ensures
            final(self)@ == match result {
                Ok(data) => CalendarView {
                    source: Some(data@),
                    display: old(self)@.display,
                    error: None,
                    attempted: true,
                },
                Err(e) => CalendarView { error: Some(e@), attempted: true, ..old(self)@ },
            },
    {
        self.attempted = true;
        match result {
            Ok(data) => {
                self.source = Some(data);
                self.error = None;
            },
            Err(e) => {
                self.error = Some(e);
            },
        }
    }

    /// A copy of the day that was read.
    pub fn snapshot(&self) -> (r: Option<Json>)
        ensures
            match r {
                Some(d) => self@.source == Some(d@),
                None => self@.source is None,
            },
    {
        match &self.source {
            Some(d) => Some(d.clone()),
            None => None,
        }
    }

    /// Whether the day that was read is not the one that the device shows.
    pub fn needs_send(&self) -> (r: bool)
        ensures
            r == self@.needs_send(),
    {
        match &self.source {
            Some(s) => match (s.get_str("signature"), self.signature()) {
                (Some(a), Some(b)) => !same_text(a, b),
                (None, None) => false,
                _ => true,
            },
            None => false,
        }
    }

    /// The signature of the day that the device shows.
    pub fn signature(&self) -> (r: Option<&str>)
        ensures
            opt_text(r) == self@.signature(),
    {
        match &self.display {
            Some(d) => Some(d.signature.as_str()),
            None => None,
        }
    }

    /// Whether a reading has come to an end, well or not.
    pub fn ready(&self) -> (r: bool)
        ensures
            r == self@.attempted,
    {
        self.attempted
    }

    /// What went wrong with the last reading.
    pub fn error(&self) -> (r: Option<&str>)
        ensures
            opt_text(r) == self@.error,
    {
        match &self.error {
            Some(e) => Some(e.as_str()),
            None => None,
        }
    }

    /// What the device confirmed that it shows.
    pub fn display(&self) -> (r: Option<&Display>)
        ensures
            match r {
                Some(d) => self@.display == Some(d@),
                None => self@.display is None,
            },
    {
        match &self.display {
            Some(d) => Some(d),
            None => None,
        }
    }

    /// Forgets what the device confirmed.
    pub fn clear_device(&mut self)
        ensures
            final(self)@ == (CalendarView { display: None, ..old(self)@ }),
    {
        self.display = None;
    }

    /// Takes over what the device says that it shows. Only a whole answer changes
    /// anything, and the bytes of its page leave the answer.
    pub fn accept(&mut self, value: &mut Json) -> (r: Result<(), String>)
        ensures
            final(value)@ == display_lightened(old(value)@),
            match r {
                Ok(_) => display_accepted(old(self)@.display, old(value)@) == Ok::<
                    Option<DisplayView>,
                    Seq<char>,
                >(final(self)@.display) && final(self)@ == (CalendarView {
                    display: final(self)@.display,
                    ..old(self)@
                }),
                Err(e) => display_accepted(old(self)@.display, old(value)@) == Err::<
                    Option<DisplayView>,
                    Seq<char>,
                >(e@) && final(self)@ == old(self)@,
            },
    {
        if !value.is_str("mode", "calendar") {
            self.clear_device();
            return Ok(());
        }
        let signature = match value.get_str("calendar_signature") {
            Some(s) => s.to_owned(),
            None => {
                return Err("日历缺少签名".to_owned());
            },
        };
        let elapsed = match value.get_u64("calendar_elapsed_ms") {
            Some(n) => n,
            None => {
                return Err("日历缺少分页相位".to_owned());
            },
        };
        let page_ms = match value.get_u64("calendar_page_ms") {
            Some(n) => n,
            None => {
                return Err("日历缺少分页时长".to_owned());
            },
        };
        let pages = match value.get_array("calendar_pages") {
            Some(p) => p,
            None => {
                return Err("日历缺少页面列表".to_owned());
            },
        };
        let ghost all = models(pages@);
        if pages.len() != 1 || page_ms != 0 || elapsed != 0 {
            return Err("日历分页回执无效".to_owned());
        }
        assert(all[0] == pages@[0]@);
        if !pages[0].is_object() {
            return Err("日历分页回执无效".to_owned());
        }
        let taken = take_page(&self.display, signature.as_str(), &pages[0]);
        let mut meta = pages[0].clone();
        meta.remove("data");
        let ghost light = meta@;
        let mut rest: Vec<Json> = Vec::new();
        rest.push(meta);
        assert(models(rest@) =~= seq![light]);
        value.insert("calendar_pages", Json::list(rest));
        match taken {
            Ok(Some(d)) => {
                self.display = Some(d);
            },
            Ok(None) => {},
            Err(e) => {
                return Err(e);
            },
        }
        Ok(())
    }
}

/// A line of the day that was read.
#[derive(Debug)]
pub struct Item {
    pub text: String,
    pub done: bool,
}

impl View for Item {
    type V = ItemView;

    open spec fn view(&self) -> ItemView {
        ItemView { text: self.text@, done: self.done }
    }
}

/// The day that was read, as the editor lists it.
#[derive(Debug)]
pub struct Snapshot {
    pub date: String,
    pub account: String,
    pub db_path: String,
    pub items: Vec<Item>,
}

#[verifier::ext_equal]
pub struct SnapshotView {
    pub date: Seq<char>,
    pub account: Seq<char>,
    pub db_path: Seq<char>,
    pub items: Seq<ItemView>,
}

pub open spec fn item_views(v: Seq<Item>) -> Seq<ItemView> {
    Seq::new(v.len(), |i: int| v[i]@)
}

impl View for Snapshot {
    type V = SnapshotView;

    open spec fn view(&self) -> SnapshotView {
        SnapshotView {
            date: self.date@,
            account: self.account@,
            db_path: self.db_path@,
            items: item_views(self.items@),
        }
    }
}

/// A line of a day, where it can be read.
pub open spec fn line_of(v: JsonView) -> Option<ItemView> {
    match (text_of(exact_field(v, "text"@, 0, 2)), bool_of(exact_field(v, "done"@, 1, 2))) {
        (Some(text), Some(done)) => Some(ItemView { text, done }),
        _ => None,
    }
}

/// The day that was read, where all fields are there and of their type.
pub open spec fn snapshot_of(v: JsonView) -> Option<SnapshotView> {
    match (
        text_of(exact_field(v, "date"@, 0, 4)),
        text_of(exact_field(v, "account"@, 1, 4)),
        text_of(exact_field(v, "db_path"@, 2, 4)),
        items_of(exact_field(v, "items"@, 3, 4)),
    ) {
        (Some(date), Some(account), Some(db_path), Some(items)) => if forall|i: int|
            0 <= i < items.len() ==> line_of(#[trigger] items[i]) is Some {
            Some(
                SnapshotView {
                    date,
                    account,
                    db_path,
                    items: Seq::new(items.len(), |i: int| line_of(items[i])->0),
                },
            )
        } else {
            None
        },
        _ => None,
    }
}

/// What is said of a line that cannot be read.
pub open spec fn line_fault(v: JsonView) -> Option<Seq<char>> {
    record_fault(
        v,
        "struct Item"@,
        seq![
            "text"@,
            "done"@,
        ],
        seq![
            plain_field(field_at(v, "text"@, 0), Plain::Text),
            plain_field(field_at(v, "done"@, 1), Plain::Flag),
        ],
    )
}

/// What is said of a line that cannot be read.
fn check_line(v: &Json) -> (r: Option<String>)
    ensures
        fault_view(r) == line_fault(v@),
{
    let fields: Vec<Field> = vec![
        try_plain(find_field(v, "text", 0), Plain::Text),
        try_plain(find_field(v, "done", 1), Plain::Flag),
    ];
    assert(field_views(fields@) =~= seq![
        plain_field(field_at(v@, "text"@, 0), Plain::Text),
        plain_field(field_at(v@, "done"@, 1), Plain::Flag),
    ]);
    let names: Vec<&str> = vec![
        "text",
        "done",
    ];
    assert(name_views(names@) =~= seq![
        "text"@,
        "done"@,
    ]);
    try_record(v, "struct Item", &names, &fields)
}

/// What is said of a day that cannot be read.
pub open spec fn snapshot_fault(v: JsonView) -> Option<Seq<char>> {
    record_fault(
        v,
        "struct Snapshot"@,
        seq![
            "date"@,
            "account"@,
            "db_path"@,
            "items"@,
        ],
        seq![
            plain_field(field_at(v, "date"@, 0), Plain::Text),
            plain_field(field_at(v, "account"@, 1), Plain::Text),
            plain_field(field_at(v, "db_path"@, 2), Plain::Text),
            list_field(field_at(v, "items"@, 3), |e: JsonView| line_fault(e)),
        ],
    )
}

/// What is said of a day that cannot be read.
fn check_snapshot(v: &Json) -> (r: Option<String>)
    ensures
        fault_view(r) == snapshot_fault(v@),
{
    let items = try_list(find_field(v, "items", 3), check_line, Ghost(|e: JsonView| line_fault(e)));
    let fields: Vec<Field> = vec![
        try_plain(find_field(v, "date", 0), Plain::Text),
        try_plain(find_field(v, "account", 1), Plain::Text),
        try_plain(find_field(v, "db_path", 2), Plain::Text),
        items,
    ];
    assert(field_views(fields@) =~= seq![
        plain_field(field_at(v@, "date"@, 0), Plain::Text),
        plain_field(field_at(v@, "account"@, 1), Plain::Text),
        plain_field(field_at(v@, "db_path"@, 2), Plain::Text),
        list_field(field_at(v@, "items"@, 3), |e: JsonView| line_fault(e)),
    ]);
    let names: Vec<&str> = vec![
        "date",
        "account",
        "db_path",
        "items",
    ];
    assert(name_views(names@) =~= seq![
        "date"@,
        "account"@,
        "db_path"@,
        "items"@,
    ]);
    try_record(v, "struct Snapshot", &names, &fields)
}

proof fn lemma_line_reason(v: JsonView)
    ensures
        line_of(v) is Some <==> line_fault(v) is None,
{
    let fields = seq![
        plain_field(field_at(v, "text"@, 0), Plain::Text),
        plain_field(field_at(v, "done"@, 1), Plain::Flag),
    ];
    law_nothing_said_of_good_records(v, "struct Item"@, seq!["text"@, "done"@], fields);
    assert(all_fine(fields) <==> fields[0] is Fine && fields[1] is Fine);
}

/// A day is read just where nothing can be said of it.
pub proof fn law_days_are_refused_for_a_reason(v: JsonView)
    ensures
        snapshot_of(v) is Some <==> snapshot_fault(v) is None,
{
    let fields = seq![
        plain_field(field_at(v, "date"@, 0), Plain::Text),
        plain_field(field_at(v, "account"@, 1), Plain::Text),
        plain_field(field_at(v, "db_path"@, 2), Plain::Text),
        list_field(field_at(v, "items"@, 3), |e: JsonView| line_fault(e)),
    ];
    let names = seq!["date"@, "account"@, "db_path"@, "items"@];
    law_nothing_said_of_good_records(v, "struct Snapshot"@, names, fields);
    assert(all_fine(fields) <==> fields[0] is Fine && fields[1] is Fine && fields[2] is Fine
        && fields[3] is Fine);
    if let Some(items) = items_of(field_at(v, "items"@, 3)) {
        law_nothing_said_of_good_lists(items, |e: JsonView| line_fault(e));
        assert forall|i: int| 0 <= i < items.len() implies (line_of(#[trigger] items[i]) is Some
            <==> line_fault(items[i]) is None) by {
            lemma_line_reason(items[i]);
        }
    }
}

/// The record of a day can be listed: it names the day, the calendar, the place
/// that it was read from, and every line.
pub proof fn law_record_can_be_listed(
    date: Seq<char>,
    weekday: Seq<char>,
    account: AccountView,
    items: Seq<ItemView>,
    path: Seq<char>,
)
    ensures
        snapshot_of(signed(day_json(date, weekday, account, items), path)) == Some(
            SnapshotView { date, account: account.name, db_path: path, items },
        ),
{
    reveal_strlit("date");
    reveal_strlit("weekday");
    reveal_strlit("account");
    reveal_strlit("account_id");
    reveal_strlit("items");
    reveal_strlit("total");
    reveal_strlit("done");
    reveal_strlit("layout");
    reveal_strlit("signature");
    reveal_strlit("db_path");
    reveal_strlit("text");
    let v = signed(day_json(date, weekday, account, items), path);
    let list = items_json(items);
    assert("date"@[1] == 'a' && "done"@[1] == 'o');
    assert("items"@[0] == 'i' && "total"@[0] == 't');
    assert("account"@[0] == 'a' && "weekday"@[0] == 'w' && "db_path"@[0] == 'd');
    assert("date"@.len() == 4 && "done"@.len() == 4 && "weekday"@.len() == 7 && "account"@.len()
        == 7);
    assert("account_id"@.len() == 10 && "items"@.len() == 5 && "total"@.len() == 5 && "layout"@.len()
        == 6 && "db_path"@.len() == 7 && "signature"@.len() == 9);
    assert("date"@ != "done"@ && "date"@ != "weekday"@ && "date"@ != "account"@ && "date"@
        != "account_id"@ && "date"@ != "items"@ && "date"@ != "total"@ && "date"@ != "layout"@);
    assert("account"@ != "weekday"@ && "account"@ != "account_id"@ && "account"@ != "items"@
        && "account"@ != "total"@ && "account"@ != "done"@ && "account"@ != "layout"@ && "account"@
        != "db_path"@);
    assert(at(v, "date"@) == Some(JsonView::Str(date)));
    assert(at(v, "account"@) == Some(JsonView::Str(account.name)));
    assert(at(v, "db_path"@) == Some(JsonView::Str(path)));
    assert(at(v, "items"@) == Some(JsonView::Array(list)));
    assert("text"@[0] == 't' && "done"@[0] == 'd');
    assert forall|i: int| 0 <= i < list.len() implies line_of(#[trigger] list[i]) == Some(
        items[i],
    ) by {
        assert(list[i] == item_json(items[i]));
    }
    assert(snapshot_of(v)->0.items =~= items);
}

impl Snapshot {
    /// Reads the record of a day, or says what is wrong with it.
    pub fn read(v: &Json) -> (r: Result<Snapshot, String>)
        ensures
            match r {
                Ok(s) => snapshot_of(v@) == Some(s@),
                Err(e) => snapshot_of(v@) is None && e@ == said(snapshot_fault(v@)),
            },
    {
        match Snapshot::fields(v) {
            Some(s) => Ok(s),
            None => Err(say(check_snapshot(v))),
        }
    }

    fn fields(v: &Json) -> (r: Option<Snapshot>)
        ensures
            match r {
                Some(s) => snapshot_of(v@) == Some(s@),
                None => snapshot_of(v@) is None,
            },
    {
        let (date, account, db_path, list) = match (
            text_in(find_exact(v, "date", 0, 4)),
            text_in(find_exact(v, "account", 1, 4)),
            text_in(find_exact(v, "db_path", 2, 4)),
            list_in(find_exact(v, "items", 3, 4)),
        ) {
            (Some(d), Some(a), Some(p), Some(l)) => (d, a, p, l),
            _ => {
                return None;
            },
        };
        let ghost all = models(list@);
        let mut items: Vec<Item> = Vec::new();
        let mut i: usize = 0;
        while i < list.len()
            invariant
                i <= list@.len(),
                all == models(list@),
                items_of(exact_field(v@, "items"@, 3, 4)) == Some(all),
                items@.len() == i,
                forall|k: int|
                    #![trigger all[k]]
                    #![trigger items@[k]]
                    0 <= k < i ==> line_of(all[k]) == Some(items@[k]@),
            decreases list@.len() - i,
        {
            assert(all[i as int] == list@[i as int]@);
            match (
                text_in(find_exact(&list[i], "text", 0, 2)),
                flag_in(find_exact(&list[i], "done", 1, 2)),
            ) {
                (Some(text), Some(done)) => {
                    items.push(Item { text: text.to_owned(), done });
                },
                _ => {
                    return None;
                },
            }
            i += 1;
        }
        assert(item_views(items@) =~= Seq::new(all.len(), |i: int| line_of(all[i])->0));
        Some(
            Snapshot {
                date: date.to_owned(),
                account: account.to_owned(),
                db_path: db_path.to_owned(),
                items,
            },
        )
    }
}

fn text_in<'a>(v: Option<&'a Json>) -> (r: Option<&'a str>)
    ensures
        opt_text(r) == text_of(option_view(v)),
{
    match v {
        Some(v) => v.as_str(),
        None => None,
    }
}

fn flag_in(v: Option<&Json>) -> (r: Option<bool>)
    ensures
        r == bool_of(option_view(v)),
{
    match v {
        Some(v) => v.as_bool(),
        None => None,
    }
}

fn list_in<'a>(v: Option<&'a Json>) -> (r: Option<&'a Vec<Json>>)
    ensures
        match r {
            Some(l) => items_of(option_view(v)) == Some(models(l@)),
            None => items_of(option_view(v)) is None,
        },
{
    match v {
        Some(v) => v.as_array(),
        None => None,
    }
}

proof fn lemma_display_members()
    ensures
        "mode"@.len() == 4,
        "calendar_signature"@.len() == 18,
        "calendar_elapsed_ms"@.len() == 19,
        "calendar_page_ms"@.len() == 16,
        "calendar_pages"@.len() == 14,
        "data"@.len() == 4,
        "size"@.len() == 4,
        "mode"@[0] == 'm',
        "data"@[0] == 'd',
        "size"@[0] == 's',
{
    reveal_strlit("mode");
    reveal_strlit("calendar_signature");
    reveal_strlit("calendar_elapsed_ms");
    reveal_strlit("calendar_page_ms");
    reveal_strlit("calendar_pages");
    reveal_strlit("data");
    reveal_strlit("size");
}

/// A device shows a calendar where it says so: under the signature that it gives, one
/// page that does not turn, with the picture that came along or, for a day that is
/// known already, the known one.
pub proof fn law_display_is_what_the_device_says(known: Option<DisplayView>, v: JsonView)
    ensures
        ({
            let shows = at(v, "mode"@) == Some(JsonView::Str("calendar"@));
            let signature = text_of(at(v, "calendar_signature"@));
            let pages = items_of(at(v, "calendar_pages"@));
            let still = u64_of(at(v, "calendar_elapsed_ms"@)) == Some(0u64) && u64_of(
                at(v, "calendar_page_ms"@),
            ) == Some(0u64) && pages is Some && pages->0.len() == 1 && pages->0[0] is Object;
            let data = at(pages->0[0], "data"@);
            let size = u64_of(at(pages->0[0], "size"@));
            let drawn = data is Some && exact_bytes(data->0) is Some && size == Some(
                exact_bytes(data->0)->0.len() as u64,
            ) && size is Some && size->0 == exact_bytes(data->0)->0.len() && picture_of(
                exact_bytes(data->0)->0,
            ) is Ok && picture_of(exact_bytes(data->0)->0)->Ok_0.0 == 320 && picture_of(
                exact_bytes(data->0)->0,
            )->Ok_0.1 == 240;
            let kept = data is None && known is Some && signature == Some(known->0.signature);
            let r = display_accepted(known, v);
            &&& !shows ==> r == Ok::<Option<DisplayView>, Seq<char>>(None)
            &&& shows ==> (r is Ok <==> signature is Some && still && (drawn || kept))
            &&& shows && r is Ok ==> {
                &&& r->Ok_0 matches Some(d)
                &&& Some(d.signature) == signature
                &&& drawn ==> picture_of(exact_bytes(data->0)->0) == Ok::<
                    (u32, u32, Seq<u8>),
                    Seq<char>,
                >(d.page)
                &&& kept ==> d == known->0
            }
        }),
{
    lemma_display_members();
}

/// A line of a day and the day itself are read from their members: the date, the
/// calendar, the place, and every line with its mark.
pub proof fn law_day_is_read_from_its_members(v: JsonView)
    requires
        v is Object,
    ensures
        snapshot_of(v) matches Some(day) ==> {
            &&& at(v, "date"@) == Some(JsonView::Str(day.date))
            &&& at(v, "account"@) == Some(JsonView::Str(day.account))
            &&& at(v, "db_path"@) == Some(JsonView::Str(day.db_path))
            &&& at(v, "items"@) matches Some(JsonView::Array(items))
            &&& items.len() == day.items.len()
            &&& forall|i: int|
                #![trigger day.items[i]]
                0 <= i < items.len() && items[i] is Object ==> at(items[i], "text"@) == Some(
                    JsonView::Str(day.items[i].text),
                ) && at(items[i], "done"@) == Some(JsonView::Bool(day.items[i].done))
        },
{
    reveal_strlit("date");
    reveal_strlit("account");
    reveal_strlit("db_path");
    reveal_strlit("items");
    match snapshot_of(v) {
        Some(day) => {
            let items = items_of(at(v, "items"@))->0;
            assert forall|i: int|
                #![trigger day.items[i]]
                0 <= i < items.len() && items[i] is Object implies at(items[i], "text"@) == Some(
                JsonView::Str(day.items[i].text),
            ) && at(items[i], "done"@) == Some(JsonView::Bool(day.items[i].done)) by {
                assert(line_of(items[i]) is Some);
                assert(day.items[i] == line_of(items[i])->0);
            }
        },
        None => {},
    }
}

} // verus!
