//! Where a request goes: to the ports, to a dialog, to a source of data, or to
//! the device.

use vstd::prelude::*;

use crate::device::{execute_device, executed};
use crate::json::{at, is_text, same_text, text_of, Json, JsonView};
use crate::outside::fresh_id;
use crate::playlist::{
    known_in, known_of, law_status_starts_with_the_handshake, ping_result, status_result_with_hints,
    status_shown, with_port,
};
use crate::radar_data::Scaled;
use crate::script::{value_end, value_turn, AnswerView, AskView, Halt, Turn};
use crate::text::{chars_of, hex_digit, hexadecimal, text_of_chars};
use crate::usb::HoloCubicUsb;

verus! {

/// Where a request goes.
#[derive(Debug)]
pub enum Route {
    /// The ports are listed.
    Ports,
    /// A picture is chosen.
    Browse,
    /// The radar is collected, with the cache in this directory where one is
    /// named.
    Radar(Option<String>),
    /// The day of the calendar is read.
    CalendarData,
    /// The device is asked.
    Device,
}

#[verifier::ext_equal]
pub enum RouteView {
    Ports,
    Browse,
    Radar(Option<Seq<char>>),
    CalendarData,
    Device,
}

impl View for Route {
    type V = RouteView;

    open spec fn view(&self) -> RouteView {
        match self {
            Route::Ports => RouteView::Ports,
            Route::Browse => RouteView::Browse,
            Route::Radar(Some(d)) => RouteView::Radar(Some(d@)),
            Route::Radar(None) => RouteView::Radar(None),
            Route::CalendarData => RouteView::CalendarData,
            Route::Device => RouteView::Device,
        }
    }
}

/// Where a request goes; without an action it goes nowhere.
pub open spec fn route_of(request: JsonView) -> Option<RouteView> {
    match text_of(at(request, "action"@)) {
        None => None,
        Some(action) => Some(
            if action == "ports"@ {
                RouteView::Ports
            } else if action == "browse"@ {
                RouteView::Browse
            } else if action == "radar"@ {
                RouteView::Radar(text_of(at(request, "cache_dir"@)))
            } else if action == "calendar_data"@ {
                RouteView::CalendarData
            } else {
                RouteView::Device
            },
        ),
    }
}

/// Finds out where a request goes.
pub fn route(request: &Json) -> (r: Result<Route, String>)
    ensures
        match r {
            Ok(route) => route_of(request@) == Some(route@),
            Err(e) => route_of(request@) is None && e@ == "缺少 action"@,
        },
{
    let action = match request.get_str("action") {
        Some(a) => a,
        None => {
            return Err("缺少 action".to_owned());
        },
    };
    if same_text(action, "ports") {
        Ok(Route::Ports)
    } else if same_text(action, "browse") {
        Ok(Route::Browse)
    } else if same_text(action, "radar") {
        Ok(
            Route::Radar(
                match request.get_str("cache_dir") {
                    Some(d) => Some(d.to_owned()),
                    None => None,
                },
            ),
        )
    } else if same_text(action, "calendar_data") {
        Ok(Route::CalendarData)
    } else {
        Ok(Route::Device)
    }
}

/// What a request to the device comes to: its state, a sign of life, or an
/// action.
pub open spec fn called(
    log: Seq<AnswerView>,
    pos: int,
    port: Seq<char>,
    request: JsonView,
    points: Option<u32>,
    scaled: Seq<Scaled>,
) -> Turn<JsonView> {
    let action = text_of(at(request, "action"@));
    if action == Some("status"@) {
        status_shown(log, pos, port, known_in(request))
    } else if action == Some("ping"@) || action == Some("hello"@) {
        with_port(value_turn(log, pos, AskView::Ready { timeout_ms: 6000 }), port)
    } else {
        executed(log, pos, port, request, points, scaled)
    }
}

/// Carries out a request to the device.
pub fn call(
    device: &mut HoloCubicUsb,
    request: &Json,
    points: Option<u32>,
    scaled: &Vec<Scaled>,
) -> (r: Result<Json, Halt>)
    ensures
        value_end(r, final(device).pos()) == called(
            old(device).log(),
            old(device).pos(),
            old(device).port(),
            request@,
            points,
            scaled@,
        ),
        final(device).log() == old(device).log(),
        final(device).port() == old(device).port(),
{
    let action = request.get_str("action");
    if is_text(action, "status") {
        status_result_with_hints(device, &known_of(request))
    } else if is_text(action, "ping") || is_text(action, "hello") {
        ping_result(device)
    } else {
        execute_device(device, request, points, scaled)
    }
}

/// A name for a playlist: eight hexadecimal digits that no other playlist is
/// likely to have.
pub fn session_id() -> (r: String)
    ensures
        r@.len() == 8,
        hexadecimal(r@),
{
    let id = fresh_id();
    let chars = chars_of(id.as_str());
    let r = text_of_chars(vstd::slice::slice_subrange(chars.as_slice(), 0, 8));
    assert(r@ =~= id@.take(8));
    assert forall|i: int| 0 <= i < r@.len() implies hex_digit(#[trigger] r@[i]) by {
        assert(r@[i] == id@[i]);
    }
    r
}

proof fn lemma_routes()
    ensures
        "ports"@.len() == 5,
        "browse"@.len() == 6,
        "radar"@.len() == 5,
        "calendar_data"@.len() == 13,
        "status"@.len() == 6,
        "ping"@.len() == 4,
        "hello"@.len() == 5,
        "ports"@[0] == 'p',
        "radar"@[0] == 'r',
        "hello"@[0] == 'h',
        "browse"@[0] == 'b',
        "status"@[0] == 's',
{
    reveal_strlit("ports");
    reveal_strlit("browse");
    reveal_strlit("radar");
    reveal_strlit("calendar_data");
    reveal_strlit("status");
    reveal_strlit("ping");
    reveal_strlit("hello");
}

/// The ports, the choice of a picture, the radar and the day of the calendar are not
/// asked of the device; every other action is.
pub proof fn law_requests_go_where_they_belong(request: JsonView)
    ensures
        ({
            let action = text_of(at(request, "action"@));
            &&& route_of(request) is None <==> action is None
            &&& route_of(request) == Some(RouteView::Ports) <==> action == Some("ports"@)
            &&& route_of(request) == Some(RouteView::Browse) <==> action == Some("browse"@)
            &&& route_of(request) == Some(RouteView::Radar(text_of(at(request, "cache_dir"@))))
                <==> action == Some("radar"@)
            &&& route_of(request) == Some(RouteView::CalendarData) <==> action == Some(
                "calendar_data"@,
            )
            &&& route_of(request) == Some(RouteView::Device) <==> action is Some && action != Some(
                "ports"@,
            ) && action != Some("browse"@) && action != Some("radar"@) && action != Some(
                "calendar_data"@,
            )
        }),
{
    lemma_routes();
}

/// A request for the state reads what the device shows, a sign of life is the
/// handshake alone, and any other request is carried out as an action.
pub proof fn law_calls_are_told_apart(
    log: Seq<AnswerView>,
    pos: int,
    port: Seq<char>,
    request: JsonView,
    points: Option<u32>,
    scaled: Seq<Scaled>,
)
    requires
        0 <= pos <= log.len(),
    ensures
        ({
            let run = called(log, pos, port, request, points, scaled);
            let action = text_of(at(request, "action"@));
            let sign = action == Some("ping"@) || action == Some("hello"@);
            &&& action == Some("status"@) ==> run == status_shown(
                log,
                pos,
                port,
                known_in(request),
            )
            &&& action == Some("status"@) || sign ==> (pos == log.len() ==> run == Turn::<
                JsonView,
            >::Ask(AskView::Ready { timeout_ms: 6000 }))
            &&& sign && pos < log.len() && log[pos] is Value ==> (run matches Turn::Done(v, n) && n
                == pos + 1 && (log[pos]->Value_0 is Object ==> at(v, "port"@) == Some(
                JsonView::Str(port),
            )) && forall|k: Seq<char>|
                k != "port"@ ==> #[trigger] at(v, k) == at(log[pos]->Value_0, k))
            &&& action != Some("status"@) && !sign ==> run == executed(
                log,
                pos,
                port,
                request,
                points,
                scaled,
            )
        }),
{
    lemma_routes();
    law_status_starts_with_the_handshake(log, pos, port, request);
}

} // verus!
