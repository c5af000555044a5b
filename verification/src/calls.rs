//! What comes of a request to the device: the questions that it takes, from the
//! handshake on, and what they hold.

use vstd::prelude::*;

use crate::actions::{calendar_sent, playlist_started, radar_sent};
use crate::bridge::called;
use crate::device::{
    action_run, calendar_run, frame_shown, home_run, plain_done, radar_run, DoneView,
};
use crate::json::{at, bool_of, items_of, text_at, text_of, u64_of, JsonView};
use crate::preload::{
    image_drawn, playlist_prepared, selected, task_prepared, task_start, text_drawn, PreparedView,
};
use crate::protocol::{crc_hex, law_sum_is_eight_digits};
use crate::radar_data::{compacted_json, Scaled};
use crate::readback::bytes_of;
use crate::script::{bytes_turn, AnswerView, AskView, Turn};
use crate::task::task_settings;
use crate::text::{numeral, padded, trimmed};
use crate::trace::{
    calendar_len, command_in, law_playlist_is_loaded_before_it_starts, lemma_calendar_cut,
    lemma_lift_calendar, lemma_lift_picture, lemma_lift_radar, lemma_radar_cut, lemma_radar_sends,
    lemma_started_asks, lemma_upload_cut, or_null, radar_bytes, radar_len, reply_in, same_ask,
    sends_calendar, sends_picture, sends_radar, upload_len,
};
use crate::usb::upload;

verus! {

/// Whether a request is for an action on the device.
pub open spec fn acts(request: JsonView, action: Seq<char>) -> bool {
    text_of(at(request, "action"@)) == Some(action)
}

proof fn lemma_action_names()
    ensures
        "status"@.len() == 6,
        "ping"@.len() == 4,
        "hello"@.len() == 5,
        "clear"@.len() == 5,
        "pause"@.len() == 5,
        "resume"@.len() == 6,
        "reset"@.len() == 5,
        "home_stop"@.len() == 9,
        "text"@.len() == 4,
        "image"@.len() == 5,
        "task"@.len() == 4,
        "radar_usb"@.len() == 9,
        "radar_only"@.len() == 10,
        "calendar_update"@.len() == 15,
        "calendar_only"@.len() == 13,
        "home"@.len() == 4,
        "status"@[0] == 's',
        "resume"@[0] == 'r',
        "ping"@[0] == 'p',
        "text"@[0] == 't',
        "task"@[0] == 't',
        "home"@[0] == 'h',
        "hello"@[0] == 'h',
        "clear"@[0] == 'c',
        "pause"@[0] == 'p',
        "reset"@[0] == 'r',
        "image"@[0] == 'i',
        "home_stop"@[0] == 'h',
        "radar_usb"@[0] == 'r',
        "text"@[1] == 'e',
        "task"@[1] == 'a',
{
    reveal_strlit("status");
    reveal_strlit("ping");
    reveal_strlit("hello");
    reveal_strlit("clear");
    reveal_strlit("pause");
    reveal_strlit("resume");
    reveal_strlit("reset");
    reveal_strlit("home_stop");
    reveal_strlit("text");
    reveal_strlit("image");
    reveal_strlit("task");
    reveal_strlit("radar_usb");
    reveal_strlit("radar_only");
    reveal_strlit("calendar_update");
    reveal_strlit("calendar_only");
    reveal_strlit("home");
}

proof fn lemma_task_names()
    ensures
        "cmd"@.len() == 3,
        "seconds"@.len() == 7,
        "bp"@.len() == 2,
        "timed"@.len() == 5,
        "looping"@.len() == 7,
        "accent"@.len() == 6,
        "restore"@.len() == 7,
        "task"@.len() == 4,
        "seconds"@[0] == 's',
        "looping"@[0] == 'l',
        "restore"@[0] == 'r',
{
    reveal_strlit("cmd");
    reveal_strlit("seconds");
    reveal_strlit("bp");
    reveal_strlit("timed");
    reveal_strlit("looping");
    reveal_strlit("accent");
    reveal_strlit("restore");
    reveal_strlit("task");
}

proof fn lemma_called_first(
    log: Seq<AnswerView>,
    port: Seq<char>,
    request: JsonView,
    points: Option<u32>,
    scaled: Seq<Scaled>,
    action: Seq<char>,
)
    requires
        acts(request, action),
        action != "status"@ && action != "ping"@ && action != "hello"@,
        called(log, 0, port, request, points, scaled) is Done,
    ensures
        log.len() > 0,
        reply_in(log[0]) is Some,
        called(log.take(0), 0, port, request, points, scaled) == Turn::<JsonView>::Ask(
            AskView::Ready { timeout_ms: 6000 },
        ),
        action_run(log, 1, action, request, reply_in(log[0])->0, points, scaled) is Done,
        at(called(log, 0, port, request, points, scaled)->Done_0, "port"@) == Some(
            JsonView::Str(port),
        ) || !(called(log, 0, port, request, points, scaled)->Done_0 is Object),
{
}

proof fn lemma_called_at(
    log: Seq<AnswerView>,
    port: Seq<char>,
    request: JsonView,
    points: Option<u32>,
    scaled: Seq<Scaled>,
    action: Seq<char>,
    j: int,
)
    requires
        acts(request, action),
        action != "status"@ && action != "ping"@ && action != "hello"@,
        1 <= j <= log.len(),
        reply_in(log[0]) is Some,
    ensures
        action_run(log.take(j), 1, action, request, reply_in(log[0])->0, points, scaled) is Ask
            ==> same_ask(
            action_run(log.take(j), 1, action, request, reply_in(log[0])->0, points, scaled),
            called(log.take(j), 0, port, request, points, scaled),
        ),
{
    assert(log.take(j)[0] == log[0]);
}

/// What a task is started with: the seconds that hours, minutes and seconds make, what
/// remains in hundredths of a per cent, whether the percentage follows the time and
/// whether the task starts over, and the colour as one number.
pub open spec fn starts_task(command: JsonView, settings: JsonView, points: Option<u32>) -> bool {
    let hours = u64_of(at(settings, "hours"@));
    let minutes = u64_of(at(settings, "minutes"@));
    let seconds = u64_of(at(settings, "seconds"@));
    let color = items_of(at(settings, "accent"@));
    &&& at(command, "cmd"@) == Some(JsonView::Str("task"@))
    &&& hours is Some && minutes is Some && seconds is Some
    &&& at(command, "seconds"@) == Some(
        JsonView::Int(3600 * hours->0 + 60 * minutes->0 + seconds->0),
    )
    &&& points is Some && points->0 <= 10000
    &&& at(command, "bp"@) == Some(JsonView::Int(points->0 as int))
    &&& at(settings, "timed"@) matches Some(JsonView::Bool(_))
    &&& at(command, "timed"@) == at(settings, "timed"@)
    &&& at(settings, "looping"@) matches Some(JsonView::Bool(_))
    &&& at(command, "looping"@) == at(settings, "looping"@)
    &&& color is Some && color->0.len() == 3
    &&& u64_of(Some(color->0[0])) is Some && u64_of(Some(color->0[1])) is Some && u64_of(
        Some(color->0[2]),
    ) is Some
    &&& at(command, "accent"@) == Some(
        JsonView::Int(
            65536 * u64_of(Some(color->0[0]))->0 + 256 * u64_of(Some(color->0[1]))->0 + u64_of(
                Some(color->0[2]),
            )->0,
        ),
    )
    &&& at(command, "restore"@) is None
}

proof fn lemma_task_command(settings: JsonView, points: Option<u32>)
    requires
        task_settings(settings, points) is Ok,
    ensures
        starts_task(task_start(settings, task_settings(settings, points)->Ok_0), settings, points),
{
    lemma_task_names();
}

/// A task is started as it was set: the device is asked whether it is there; its label
/// picture is drawn with the name, without white space around it, and the note, and is
/// uploaded; and then the task is started with its seconds, what remains of it and its
/// colour, which the device confirmed.
pub proof fn law_task_is_started_as_set(
    log: Seq<AnswerView>,
    port: Seq<char>,
    request: JsonView,
    points: Option<u32>,
    scaled: Seq<Scaled>,
    settings: JsonView,
)
    requires
        acts(request, "task"@),
        at(request, "settings"@) == Some(settings),
        called(log, 0, port, request, points, scaled) is Done,
    ensures
        ({
            let run = |l: Seq<AnswerView>| called(l, 0, port, request, points, scaled);
            let state = reply_in(log[0])->0;
            let name = text_of(at(settings, "task_name"@));
            let note = text_of(at(settings, "footer"@));
            let labels = log[1]->Bytes_0;
            let m = 2 + upload_len(labels);
            let start = command_in(run(log.take(m)), "task"@, 8000);
            let reply = or_null(reply_in(log[m]));
            &&& m < log.len()
            &&& run(log.take(0)) == Turn::<JsonView>::Ask(AskView::Ready { timeout_ms: 6000 })
            &&& reply_in(log[0]) is Some
            &&& u64_of(at(state, "task_protocol"@)) == Some(1u64)
            &&& u64_of(at(state, "mirror_protocol"@)) == Some(1u64)
            &&& u64_of(at(state, "loop_protocol"@)) == Some(1u64)
            &&& name is Some && 1 <= trimmed(name->0).len() <= 24
            &&& run(log.take(1)) == Turn::<JsonView>::Ask(
                AskView::Labels {
                    title: trimmed(name->0),
                    footer: if note is Some {
                        note->0
                    } else {
                        Seq::empty()
                    },
                },
            )
            &&& log[1] is Bytes
            &&& sends_picture(run, log, 2, labels, "task_labels"@)
            &&& start is Some
            &&& starts_task(start->0, settings, points)
            &&& text_of(at(reply, "mode"@)) == Some("task"@)
            &&& u64_of(at(reply, "bp"@)) == Some(points->0 as u64)
            &&& bool_of(at(reply, "looping"@)) == bool_of(at(settings, "looping"@))
        }),
{
    let run = |l: Seq<AnswerView>| called(l, 0, port, request, points, scaled);
    let action = "task"@;
    lemma_action_names();
    lemma_called_first(log, port, request, points, scaled, action);
    let state = reply_in(log[0])->0;
    let inner = |l: Seq<AnswerView>| action_run(l, 1, action, request, state, points, scaled);
    lemma_task_command(settings, points);
    reveal_strlit("");
    assert(""@ =~= Seq::<char>::empty());
    assert(trimmed(Seq::<char>::empty()) =~= Seq::<char>::empty());
    let v = task_settings(settings, points)->Ok_0;
    let labels = log[1]->Bytes_0;
    let m = 2 + upload_len(labels);
    assert(log[1] is Bytes);
    lemma_upload_cut(log, 2, labels, "task_labels"@);
    lemma_called_at(log, port, request, points, scaled, action, 1);
    assert(inner(log.take(1)) is Ask);
    let first = |l: Seq<AnswerView>| upload(l, 2, labels, "task_labels"@);
    assert forall|j: int| #![trigger log.take(j)] 2 <= j < m implies same_ask(
        first(log.take(j)),
        run(log.take(j)),
    ) by {
        assert(log.take(j)[1] == log[1]);
        lemma_called_at(log, port, request, points, scaled, action, j);
    }
    lemma_lift_picture(first, run, log, 2, labels, "task_labels"@);
    assert(log.take(m)[1] == log[1]);
    lemma_called_at(log, port, request, points, scaled, action, m);
    assert(inner(log.take(m)) == Turn::<DoneView>::Ask(
        AskView::Request { command: task_start(settings, v), timeout_ms: 8000 },
    ));
}

proof fn lemma_frame_shown(
    log: Seq<AnswerView>,
    port: Seq<char>,
    request: JsonView,
    points: Option<u32>,
    scaled: Seq<Scaled>,
    action: Seq<char>,
    ask: AskView,
)
    requires
        acts(request, action),
        action == "text"@ || action == "image"@,
        called(log, 0, port, request, points, scaled) is Done,
        log.len() > 0,
        reply_in(log[0]) is Some,
        forall|l: Seq<AnswerView>|
            #![trigger action_run(l, 1, action, request, reply_in(log[0])->0, points, scaled)]
            action_run(l, 1, action, request, reply_in(log[0])->0, points, scaled)
                == plain_done(frame_shown(l, bytes_turn(l, 1, ask))),
    ensures
        ({
            let run = |l: Seq<AnswerView>| called(l, 0, port, request, points, scaled);
            let data = log[1]->Bytes_0;
            &&& log[1] is Bytes
            &&& run(log.take(1)) == Turn::<JsonView>::Ask(ask)
            &&& sends_picture(run, log, 2, data, "frame"@)
            &&& called(log, 0, port, request, points, scaled)->Done_1 == 2 + upload_len(data)
            &&& text_of(at(called(log, 0, port, request, points, scaled)->Done_0, "mode"@)) == Some(
                "image"@,
            )
            &&& at(called(log, 0, port, request, points, scaled)->Done_0, "port"@) == Some(
                JsonView::Str(port),
            )
        }),
{
    let run = |l: Seq<AnswerView>| called(l, 0, port, request, points, scaled);
    lemma_action_names();
    lemma_mode_names();
    lemma_called_first(log, port, request, points, scaled, action);
    let state = reply_in(log[0])->0;
    let data = log[1]->Bytes_0;
    assert(action_run(log, 1, action, request, state, points, scaled) is Done);
    lemma_upload_cut(log, 2, data, "frame"@);
    let m = 2 + upload_len(data);
    assert(action_run(log.take(1), 1, action, request, state, points, scaled) is Ask);
    lemma_called_at(log, port, request, points, scaled, action, 1);
    let first = |l: Seq<AnswerView>| upload(l, 2, data, "frame"@);
    assert forall|i: int| #![trigger log.take(i)] 2 <= i < m implies same_ask(
        first(log.take(i)),
        run(log.take(i)),
    ) by {
        assert(log.take(i)[1] == log[1]);
        assert(action_run(log.take(i), 1, action, request, state, points, scaled) is Ask);
        lemma_called_at(log, port, request, points, scaled, action, i);
    }
    lemma_lift_picture(first, run, log, 2, data, "frame"@);
}

/// A page of text is drawn from the title, the text, the note, which is USB DIRECT
/// where there is none, and the colour that were set; what was drawn is uploaded to be
/// shown at once. A text of white space alone is not shown.
pub proof fn law_text_is_shown_as_set(
    log: Seq<AnswerView>,
    port: Seq<char>,
    request: JsonView,
    points: Option<u32>,
    scaled: Seq<Scaled>,
    settings: JsonView,
)
    requires
        acts(request, "text"@),
        at(request, "settings"@) == Some(settings),
        called(log, 0, port, request, points, scaled) is Done,
    ensures
        ({
            let run = |l: Seq<AnswerView>| called(l, 0, port, request, points, scaled);
            let drawn = run(log.take(1));
            let color = items_of(at(settings, "accent"@));
            let v = called(log, 0, port, request, points, scaled)->Done_0;
            &&& text_of(at(settings, "text_body"@)) is Some
            &&& trimmed(text_of(at(settings, "text_body"@))->0).len() > 0
            &&& drawn is Ask && drawn->Ask_0 is Text
            &&& drawn->Ask_0->Text_body == text_of(at(settings, "text_body"@))->0
            &&& drawn->Ask_0->Text_title == match text_of(at(settings, "text_title"@)) {
                Some(t) => t,
                None => Seq::empty(),
            }
            &&& drawn->Ask_0->Text_footer == match text_of(at(settings, "text_footer"@)) {
                Some(t) => t,
                None => "USB DIRECT"@,
            }
            &&& color is Some && color->0.len() >= 3
            &&& drawn->Ask_0->Text_accent == seq!['#'] + two_digits(color->0[0]) + two_digits(
                color->0[1],
            ) + two_digits(color->0[2])
            &&& log[1] is Bytes
            &&& sends_picture(run, log, 2, log[1]->Bytes_0, "frame"@)
            &&& text_of(at(v, "mode"@)) == Some("image"@)
            &&& at(v, "port"@) == Some(JsonView::Str(port))
        }),
{
    let action = "text"@;
    lemma_action_names();
    lemma_called_first(log, port, request, points, scaled, action);
    let state = reply_in(log[0])->0;
    reveal_strlit("");
    assert(""@ =~= Seq::<char>::empty());
    assert(trimmed(Seq::<char>::empty()) =~= Seq::<char>::empty());
    reveal_strlit("#");
    assert("#"@ =~= seq!['#']);
    let ask = text_drawn(log.take(1), 1, settings, "正文不能为空"@)->Ask_0;
    lemma_frame_shown(log, port, request, points, scaled, action, ask);
}

/// A number as two hexadecimal digits, more where it needs more; nothing counts as
/// zero.
pub open spec fn two_digits(v: JsonView) -> Seq<char> {
    padded(
        numeral(
            match u64_of(Some(v)) {
                Some(n) => n as nat,
                None => 0,
            },
            16,
        ),
        2,
    )
}

/// A picture is taken from the file that was set, and what was drawn from it is
/// uploaded to be shown at once.
pub proof fn law_picture_is_shown_as_set(
    log: Seq<AnswerView>,
    port: Seq<char>,
    request: JsonView,
    points: Option<u32>,
    scaled: Seq<Scaled>,
    settings: JsonView,
)
    requires
        acts(request, "image"@),
        at(request, "settings"@) == Some(settings),
        called(log, 0, port, request, points, scaled) is Done,
    ensures
        ({
            let run = |l: Seq<AnswerView>| called(l, 0, port, request, points, scaled);
            let v = called(log, 0, port, request, points, scaled)->Done_0;
            &&& run(log.take(1)) == Turn::<JsonView>::Ask(
                AskView::Image {
                    path: match text_of(at(settings, "image_path"@)) {
                        Some(t) => t,
                        None => Seq::empty(),
                    },
                },
            )
            &&& log[1] is Bytes
            &&& sends_picture(run, log, 2, log[1]->Bytes_0, "frame"@)
            &&& text_of(at(v, "mode"@)) == Some("image"@)
            &&& at(v, "port"@) == Some(JsonView::Str(port))
        }),
{
    let action = "image"@;
    lemma_action_names();
    lemma_called_first(log, port, request, points, scaled, action);
    reveal_strlit("");
    assert(""@ =~= Seq::<char>::empty());
    let path = text_at(settings, "image_path"@, ""@);
    lemma_frame_shown(log, port, request, points, scaled, action, AskView::Image { path });
}

proof fn lemma_mode_names()
    ensures
        "home"@.len() == 4,
        "radar"@.len() == 5,
        "calendar"@.len() == 8,
        "task"@.len() == 4,
        "image"@.len() == 5,
        "mode"@.len() == 4,
        "port"@.len() == 4,
        "home"@[0] == 'h',
        "task"@[0] == 't',
        "mode"@[0] == 'm',
        "port"@[0] == 'p',
        "radar"@[0] == 'r',
        "image"@[0] == 'i',
{
    reveal_strlit("home");
    reveal_strlit("radar");
    reveal_strlit("calendar");
    reveal_strlit("task");
    reveal_strlit("image");
    reveal_strlit("mode");
    reveal_strlit("port");
}

/// Radar data are sent where the device can take them: the snapshot of the request,
/// packed at the time that it is then, and shown alone where that is asked for.
pub proof fn law_radar_is_sent_as_collected(
    log: Seq<AnswerView>,
    port: Seq<char>,
    request: JsonView,
    points: Option<u32>,
    scaled: Seq<Scaled>,
    alone: bool,
)
    requires
        acts(
            request,
            if alone {
                "radar_only"@
            } else {
                "radar_usb"@
            },
        ),
        called(log, 0, port, request, points, scaled) is Done,
    ensures
        ({
            let run = |l: Seq<AnswerView>| called(l, 0, port, request, points, scaled);
            let state = reply_in(log[0])->0;
            &&& reply_in(log[0]) is Some
            &&& u64_of(at(state, "radar_protocol"@)) == Some(1u64)
            &&& u64_of(at(state, "radar_mirror_protocol"@)) == Some(1u64)
            &&& at(request, "snapshot"@) is Some
            &&& sends_radar(run, log, 1, at(request, "snapshot"@)->0, alone, scaled)
        }),
{
    let action = if alone {
        "radar_only"@
    } else {
        "radar_usb"@
    };
    let run = |l: Seq<AnswerView>| called(l, 0, port, request, points, scaled);
    lemma_action_names();
    lemma_called_first(log, port, request, points, scaled, action);
    let state = reply_in(log[0])->0;
    assert(radar_run(log, 1, request, state, alone, scaled) is Done);
    let snapshot = at(request, "snapshot"@)->0;
    lemma_radar_cut(log, 1, snapshot, alone, scaled);
    lemma_radar_sends(log, 1, snapshot, alone, scaled);
    let inner = |l: Seq<AnswerView>| radar_sent(l, 1, snapshot, alone, scaled);
    assert forall|j: int|
        #![trigger log.take(j)]
        1 <= j < 1 + radar_len(radar_bytes(log, 1, snapshot, scaled)) implies same_ask(
        inner(log.take(j)),
        run(log.take(j)),
    ) by {
        lemma_called_at(log, port, request, points, scaled, action, j);
    }
    lemma_lift_radar(inner, run, log, 1, snapshot, alone, scaled);
}

/// A calendar is sent where the device can take it: the day of the request, drawn as
/// pages, and shown alone where that is asked for.
pub proof fn law_calendar_is_sent_as_read(
    log: Seq<AnswerView>,
    port: Seq<char>,
    request: JsonView,
    points: Option<u32>,
    scaled: Seq<Scaled>,
    alone: bool,
)
    requires
        acts(
            request,
            if alone {
                "calendar_only"@
            } else {
                "calendar_update"@
            },
        ),
        called(log, 0, port, request, points, scaled) is Done,
    ensures
        ({
            let run = |l: Seq<AnswerView>| called(l, 0, port, request, points, scaled);
            let state = reply_in(log[0])->0;
            &&& reply_in(log[0]) is Some
            &&& u64_of(at(state, "calendar_protocol"@)) == Some(1u64)
            &&& at(request, "calendar_snapshot"@) is Some
            &&& run(log.take(1)) == Turn::<JsonView>::Ask(
                AskView::Pages { snapshot: at(request, "calendar_snapshot"@)->0 },
            )
            &&& log[1] is Pages
            &&& sends_calendar(
                run,
                log,
                2,
                at(request, "calendar_snapshot"@)->0,
                log[1]->Pages_0,
                alone,
            )
        }),
{
    let action = if alone {
        "calendar_only"@
    } else {
        "calendar_update"@
    };
    let run = |l: Seq<AnswerView>| called(l, 0, port, request, points, scaled);
    lemma_action_names();
    lemma_called_first(log, port, request, points, scaled, action);
    let state = reply_in(log[0])->0;
    assert(calendar_run(log, 1, request, state, alone) is Done);
    let snapshot = at(request, "calendar_snapshot"@)->0;
    assert(log[1] is Pages);
    let pages = log[1]->Pages_0;
    lemma_calendar_cut(log, 2, snapshot, pages, alone);
    lemma_called_at(log, port, request, points, scaled, action, 1);
    assert(calendar_run(log.take(1), 1, request, state, alone) is Ask);
    let inner = |l: Seq<AnswerView>| calendar_sent(l, 2, snapshot, pages, alone);
    assert forall|j: int|
        #![trigger log.take(j)]
        2 <= j < 2 + calendar_len(pages) implies same_ask(inner(log.take(j)), run(log.take(j))) by {
        assert(log.take(j)[1] == log[1]);
        lemma_called_at(log, port, request, points, scaled, action, j);
    }
    lemma_lift_calendar(inner, run, log, 2, snapshot, pages, alone);
}

proof fn lemma_control_names()
    ensures
        "cmd"@.len() == 3,
        "action"@.len() == 6,
        "clear"@.len() == 5,
        "task_control"@.len() == 12,
        "home_stop"@.len() == 9,
{
    reveal_strlit("cmd");
    reveal_strlit("action");
    reveal_strlit("clear");
    reveal_strlit("task_control");
    reveal_strlit("home_stop");
}

/// The plain controls are one command each: the screen is cleared, a playlist is
/// stopped, and a task is paused, resumed or reset by that very name.
pub proof fn law_controls_are_one_command(
    log: Seq<AnswerView>,
    port: Seq<char>,
    request: JsonView,
    points: Option<u32>,
    scaled: Seq<Scaled>,
    action: Seq<char>,
)
    requires
        acts(request, action),
        action == "clear"@ || action == "pause"@ || action == "resume"@ || action == "reset"@
            || action == "home_stop"@,
        called(log, 0, port, request, points, scaled) is Done,
    ensures
        ({
            let t = called(log.take(1), 0, port, request, points, scaled);
            &&& called(log.take(0), 0, port, request, points, scaled) == Turn::<JsonView>::Ask(
                AskView::Ready { timeout_ms: 6000 },
            )
            &&& reply_in(log[1]) is Some
            &&& action == "clear"@ ==> command_in(t, "clear"@, 3000) is Some
            &&& action == "home_stop"@ ==> command_in(t, "home_stop"@, 4000) is Some
            &&& action != "clear"@ && action != "home_stop"@ ==> command_in(
                t,
                "task_control"@,
                4000,
            ) is Some && at(command_in(t, "task_control"@, 4000)->0, "action"@) == Some(
                JsonView::Str(action),
            )
        }),
{
    lemma_action_names();
    lemma_control_names();
    lemma_called_first(log, port, request, points, scaled, action);
    lemma_called_at(log, port, request, points, scaled, action, 1);
    assert(action_run(log.take(1), 1, action, request, reply_in(log[0])->0, points, scaled) is Ask);
}

/// A request for any other action is refused once the device answered, and one without
/// an action at once; nothing is sent for either.
pub proof fn law_unknown_actions_are_refused(
    log: Seq<AnswerView>,
    port: Seq<char>,
    request: JsonView,
    points: Option<u32>,
    scaled: Seq<Scaled>,
)
    ensures
        match text_of(at(request, "action"@)) {
            None => called(log, 0, port, request, points, scaled) == Turn::<JsonView>::Failed(
                "缺少 action"@,
                0,
            ),
            Some(action) => !known_actions().contains(action) && log.len() > 0 && reply_in(
                log[0],
            ) is Some ==> called(log, 0, port, request, points, scaled) == Turn::<JsonView>::Failed(
                "不支持的操作: "@ + action,
                1,
            ),
        },
{
    let all = known_actions();
    match text_of(at(request, "action"@)) {
        Some(action) => {
            if !all.contains(action) {
                assert forall|i: int| 0 <= i < all.len() implies all[i] != action by {}
                assert(all[0] == "status"@ && all[1] == "ping"@ && all[2] == "hello"@ && all[3]
                    == "clear"@ && all[4] == "pause"@ && all[5] == "resume"@ && all[6] == "reset"@
                    && all[7] == "home_stop"@ && all[8] == "text"@ && all[9] == "image"@ && all[10]
                    == "task"@ && all[11] == "radar_usb"@ && all[12] == "radar_only"@ && all[13]
                    == "calendar_update"@ && all[14] == "calendar_only"@ && all[15] == "home"@);
            }
        },
        None => {},
    }
}

/// The actions that there are.
pub open spec fn known_actions() -> Seq<Seq<char>> {
    seq![
        "status"@,
        "ping"@,
        "hello"@,
        "clear"@,
        "pause"@,
        "resume"@,
        "reset"@,
        "home_stop"@,
        "text"@,
        "image"@,
        "task"@,
        "radar_usb"@,
        "radar_only"@,
        "calendar_update"@,
        "calendar_only"@,
        "home"@,
    ]
}

/// A sign of life is what the device answers the handshake with, and the port on which
/// it did.
pub proof fn law_ping_is_the_handshake(
    log: Seq<AnswerView>,
    port: Seq<char>,
    request: JsonView,
    points: Option<u32>,
    scaled: Seq<Scaled>,
)
    requires
        acts(request, "ping"@) || acts(request, "hello"@),
    ensures
        called(log.take(0), 0, port, request, points, scaled) == Turn::<JsonView>::Ask(
            AskView::Ready { timeout_ms: 6000 },
        ),
        log.len() > 0 && reply_in(log[0]) is Some && reply_in(log[0])->0 is Object ==> {
            let v = called(log, 0, port, request, points, scaled);
            &&& v is Done && v->Done_1 == 1
            &&& at(v->Done_0, "port"@) == Some(JsonView::Str(port))
            &&& forall|key: Seq<char>|
                key != "port"@ ==> #[trigger] at(v->Done_0, key) == at(reply_in(log[0])->0, key)
        },
{
    lemma_action_names();
}

/// Whether a mode is among the entries of a playlist.
pub open spec fn lists(entries: Seq<JsonView>, mode: Seq<char>) -> bool {
    exists|i: int| 0 <= i < entries.len() && text_of(at(#[trigger] entries[i], "mode"@)) == Some(mode)
}

proof fn lemma_lists(entries: Seq<JsonView>, mode: Seq<char>)
    requires
        mode.len() > 0,
    ensures
        lists(entries, mode) == selected(entries, mode),
{
    reveal_strlit("");
    assert(""@.len() == 0);
    if lists(entries, mode) {
        let i = choose|i: int|
            0 <= i < entries.len() && text_of(at(#[trigger] entries[i], "mode"@)) == Some(mode);
        assert(text_at(entries[i], "mode"@, ""@) == mode);
    }
    if selected(entries, mode) {
        let i = choose|i: int|
            0 <= i < entries.len() && text_at(#[trigger] entries[i], "mode"@, ""@)
                == mode;
        assert(text_of(at(entries[i], "mode"@)) == Some(mode));
    }
}

/// What a task is restored with: everything as it was saved, and where it stood.
pub open spec fn restores_task(command: JsonView, saved: JsonView) -> bool {
    let restore = at(command, "restore"@);
    &&& at(command, "cmd"@) == Some(JsonView::Str("task"@))
    &&& at(command, "seconds"@) == Some(or_null(at(saved, "duration"@)))
    &&& at(command, "bp"@) == Some(or_null(at(saved, "initial_bp"@)))
    &&& at(command, "timed"@) == Some(or_null(at(saved, "timed"@)))
    &&& at(command, "looping"@) == Some(or_null(at(saved, "looping"@)))
    &&& at(command, "accent"@) == Some(or_null(at(saved, "accent"@)))
    &&& restore is Some
    &&& at(restore->0, "counter"@) == Some(or_null(at(saved, "counter"@)))
    &&& at(restore->0, "paused"@) == Some(or_null(at(saved, "paused"@)))
}

/// Where the scenes of a playlist are prepared among the questions of a run that
/// begins with its `pos`-th one: the task, the text, the picture, the radar, the
/// calendar, and where it ends. A scene that is not selected takes none, and neither
/// does a task that is restored.
pub open spec fn drawings(pos: int, request: JsonView) -> (int, int, int, int, int, int) {
    let entries = items_of(at(request, "home_entries"@))->0;
    let one = |wanted: bool|
        if wanted {
            1int
        } else {
            0int
        };
    let text = pos + one(lists(entries, "task"@) && at(request, "resume_task"@) is None);
    let image = text + one(lists(entries, "text"@));
    let radar = image + one(lists(entries, "image"@));
    let calendar = radar + one(lists(entries, "radar"@));
    (pos, text, image, radar, calendar, calendar + one(lists(entries, "calendar"@)))
}

proof fn lemma_entries_listed(request: JsonView)
    ensures
        ({
            let entries = items_of(at(request, "home_entries"@))->0;
            &&& lists(entries, "task"@) == selected(entries, "task"@)
            &&& lists(entries, "text"@) == selected(entries, "text"@)
            &&& lists(entries, "image"@) == selected(entries, "image"@)
            &&& lists(entries, "radar"@) == selected(entries, "radar"@)
            &&& lists(entries, "calendar"@) == selected(entries, "calendar"@)
        }),
{
    let entries = items_of(at(request, "home_entries"@))->0;
    lemma_playlist_names();
    lemma_lists(entries, "task"@);
    lemma_lists(entries, "text"@);
    lemma_lists(entries, "image"@);
    lemma_lists(entries, "radar"@);
    lemma_lists(entries, "calendar"@);
}

proof fn lemma_playlist_names()
    ensures
        "task"@.len() == 4,
        "text"@.len() == 4,
        "image"@.len() == 5,
        "radar"@.len() == 5,
        "calendar"@.len() == 8,
        "task"@[1] == 'a',
        "text"@[1] == 'e',
        "image"@[0] == 'i',
        "radar"@[0] == 'r',
{
    reveal_strlit("task");
    reveal_strlit("text");
    reveal_strlit("image");
    reveal_strlit("radar");
    reveal_strlit("calendar");
}

proof fn lemma_restore_names()
    ensures
        "cmd"@.len() == 3,
        "seconds"@.len() == 7,
        "bp"@.len() == 2,
        "timed"@.len() == 5,
        "looping"@.len() == 7,
        "accent"@.len() == 6,
        "restore"@.len() == 7,
        "counter"@.len() == 7,
        "paused"@.len() == 6,
        "seconds"@[0] == 's',
        "looping"@[0] == 'l',
        "restore"@[0] == 'r',
        "counter"@[0] == 'c',
        "accent"@[0] == 'a',
        "paused"@[0] == 'p',
{
    reveal_strlit("cmd");
    reveal_strlit("seconds");
    reveal_strlit("bp");
    reveal_strlit("timed");
    reveal_strlit("looping");
    reveal_strlit("accent");
    reveal_strlit("restore");
    reveal_strlit("counter");
    reveal_strlit("paused");
}

proof fn lemma_prepared_at(
    log: Seq<AnswerView>,
    pos: int,
    request: JsonView,
    points: Option<u32>,
    scaled: Seq<Scaled>,
    j: int,
)
    requires
        0 <= pos <= j <= log.len(),
        playlist_prepared(log, pos, request, points, scaled) is Done,
    ensures
        ({
            let t = playlist_prepared(log.take(j), pos, request, points, scaled);
            let s = drawings(pos, request);
            let settings = at(request, "settings"@)->0;
            let l = log.take(j);
            &&& playlist_prepared(log, pos, request, points, scaled)->Done_1 == s.5 <= log.len()
            &&& j >= s.5 ==> t == playlist_prepared(log, pos, request, points, scaled)
            &&& s.0 <= j < s.1 ==> same_ask(
                task_prepared(l, s.0, at(request, "resume_task"@), settings, points),
                t,
            )
            &&& s.1 <= j < s.2 ==> same_ask(
                text_drawn(l, s.1, settings, "文字正文不能为空，请先在文字页面编辑"@),
                t,
            )
            &&& s.2 <= j < s.3 ==> same_ask(image_drawn(l, s.2, settings), t)
            &&& s.3 <= j < s.4 ==> t == Turn::<PreparedView>::Ask(AskView::Time)
            &&& s.4 <= j < s.5 ==> t == Turn::<PreparedView>::Ask(
                AskView::Pages { snapshot: at(request, "calendar_snapshot"@)->0 },
            )
        }),
{
    lemma_entries_listed(request);
    let s = drawings(pos, request);
    let l = log.take(j);
    if j > s.0 {
        assert(l[s.0] == log[s.0]);
    }
    if j > s.1 {
        assert(l[s.1] == log[s.1]);
    }
    if j > s.2 {
        assert(l[s.2] == log[s.2]);
    }
    if j > s.3 {
        assert(l[s.3] == log[s.3]);
    }
    if j > s.4 {
        assert(l[s.4] == log[s.4]);
    }
}

/// Before anything of a playlist is sent, every scene that was selected is prepared,
/// and no other: a task as it was set or as it was saved, with its labels; a page of
/// text and a picture, drawn as they were set; the snapshot of the radar, which can be
/// packed at the time that it is; and the day of the calendar, drawn as pages. The
/// entries go unchanged.
pub proof fn law_selected_scenes_are_prepared(
    log: Seq<AnswerView>,
    pos: int,
    request: JsonView,
    points: Option<u32>,
    scaled: Seq<Scaled>,
)
    requires
        0 <= pos <= log.len(),
        playlist_prepared(log, pos, request, points, scaled) is Done,
    ensures
        ({
            let run = |l: Seq<AnswerView>| playlist_prepared(l, pos, request, points, scaled);
            let p = playlist_prepared(log, pos, request, points, scaled)->Done_0;
            let entries = items_of(at(request, "home_entries"@))->0;
            let settings = at(request, "settings"@)->0;
            let saved = at(request, "resume_task"@);
            let s = drawings(pos, request);
            &&& items_of(at(request, "home_entries"@)) is Some && 1 <= entries.len() <= 5
            &&& at(request, "settings"@) is Some
            &&& Some(p.entries) == at(request, "home_entries"@)
            &&& p.task is Some <==> lists(entries, "task"@)
            &&& p.text is Some <==> lists(entries, "text"@)
            &&& p.image is Some <==> lists(entries, "image"@)
            &&& p.radar is Some <==> lists(entries, "radar"@)
            &&& p.calendar is Some <==> lists(entries, "calendar"@)
            &&& lists(entries, "task"@) && saved is None ==> {
                let name = text_of(at(settings, "task_name"@));
                let note = text_of(at(settings, "footer"@));
                &&& name is Some
                &&& run(log.take(s.0)) == Turn::<PreparedView>::Ask(
                    AskView::Labels {
                        title: trimmed(name->0),
                        footer: if note is Some {
                            note->0
                        } else {
                            Seq::empty()
                        },
                    },
                )
                &&& log[s.0] == AnswerView::Bytes((p.task->0).1)
                &&& starts_task((p.task->0).0, settings, points)
            }
            &&& lists(entries, "task"@) && saved is Some ==> {
                let listed = items_of(at(saved->0, "labels"@));
                &&& listed is Some && (p.task->0).1 == bytes_of(listed->0)
                &&& text_of(at(saved->0, "labels_crc"@)) == Some(crc_hex((p.task->0).1))
                &&& restores_task((p.task->0).0, saved->0)
            }
            &&& lists(entries, "text"@) ==> {
                let t = run(log.take(s.1));
                let color = items_of(at(settings, "accent"@));
                &&& log[s.1] == AnswerView::Bytes(p.text->0)
                &&& t is Ask && t->Ask_0 is Text
                &&& text_of(at(settings, "text_body"@)) == Some(t->Ask_0->Text_body)
                &&& trimmed(t->Ask_0->Text_body).len() > 0
                &&& t->Ask_0->Text_title == match text_of(at(settings, "text_title"@)) {
                    Some(t) => t,
                    None => Seq::empty(),
                }
                &&& t->Ask_0->Text_footer == match text_of(at(settings, "text_footer"@)) {
                    Some(t) => t,
                    None => "USB DIRECT"@,
                }
                &&& color is Some && color->0.len() >= 3
                &&& t->Ask_0->Text_accent == seq!['#'] + two_digits(color->0[0]) + two_digits(
                    color->0[1],
                ) + two_digits(color->0[2])
            }
            &&& lists(entries, "image"@) ==> {
                &&& log[s.2] == AnswerView::Bytes(p.image->0)
                &&& text_of(at(settings, "image_path"@)) is Some
                &&& run(log.take(s.2)) == Turn::<PreparedView>::Ask(
                    AskView::Image { path: text_of(at(settings, "image_path"@))->0 },
                )
            }
            &&& lists(entries, "radar"@) ==> {
                &&& p.radar == at(request, "snapshot"@)
                &&& run(log.take(s.3)) == Turn::<PreparedView>::Ask(AskView::Time)
                &&& log[s.3] is Time
                &&& compacted_json(p.radar->0, log[s.3]->Time_0, scaled) is Ok
            }
            &&& lists(entries, "calendar"@) ==> {
                &&& Some((p.calendar->0).0) == at(request, "calendar_snapshot"@)
                &&& run(log.take(s.4)) == Turn::<PreparedView>::Ask(
                    AskView::Pages { snapshot: (p.calendar->0).0 },
                )
                &&& log[s.4] == AnswerView::Pages((p.calendar->0).1)
            }
        }),
{
    let s = drawings(pos, request);
    let entries = items_of(at(request, "home_entries"@))->0;
    let settings = at(request, "settings"@)->0;
    let p = playlist_prepared(log, pos, request, points, scaled)->Done_0;
    lemma_entries_listed(request);
    lemma_restore_names();
    reveal_strlit("");
    assert(""@ =~= Seq::<char>::empty());
    assert(trimmed(Seq::<char>::empty()) =~= Seq::<char>::empty());
    reveal_strlit("#");
    assert("#"@ =~= seq!['#']);
    lemma_prepared_at(log, pos, request, points, scaled, s.0);
    lemma_prepared_at(log, pos, request, points, scaled, s.1);
    lemma_prepared_at(log, pos, request, points, scaled, s.2);
    lemma_prepared_at(log, pos, request, points, scaled, s.3);
    lemma_prepared_at(log, pos, request, points, scaled, s.4);
    if lists(entries, "task"@) {
        match at(request, "resume_task"@) {
            Some(saved) => {
                law_sum_is_eight_digits((p.task->0).1);
            },
            None => {
                lemma_task_command(settings, points);
            },
        }
    }
}

/// A playlist is prepared and then started, on a device that can take one: what is
/// asked after the handshake is what preparing it asks, and then what starting it
/// asks.
pub proof fn law_playlist_is_prepared_and_started(
    log: Seq<AnswerView>,
    port: Seq<char>,
    request: JsonView,
    points: Option<u32>,
    scaled: Seq<Scaled>,
)
    requires
        acts(request, "home"@),
        called(log, 0, port, request, points, scaled) is Done,
    ensures
        ({
            let run = |l: Seq<AnswerView>| called(l, 0, port, request, points, scaled);
            let prepared = playlist_prepared(log, 1, request, points, scaled);
            let k = prepared->Done_1;
            let started = playlist_started(log, k, prepared->Done_0, scaled);
            &&& run(log.take(0)) == Turn::<JsonView>::Ask(AskView::Ready { timeout_ms: 6000 })
            &&& reply_in(log[0]) is Some
            &&& u64_of(at(reply_in(log[0])->0, "home_protocol"@)) == Some(1u64)
            &&& prepared is Done
            &&& started is Done
            &&& 1 <= k < started->Done_1 <= log.len()
            &&& forall|j: int|
                #![trigger log.take(j)]
                1 <= j < k ==> same_ask(
                    playlist_prepared(log.take(j), 1, request, points, scaled),
                    run(log.take(j)),
                )
            &&& forall|j: int|
                #![trigger log.take(j)]
                k <= j < started->Done_1 ==> same_ask(
                    playlist_started(log.take(j), k, prepared->Done_0, scaled),
                    run(log.take(j)),
                )
        }),
{
    let action = "home"@;
    lemma_action_names();
    lemma_called_first(log, port, request, points, scaled, action);
    let state = reply_in(log[0])->0;
    assert(home_run(log, 1, request, state, points, scaled) is Done);
    let prepared = playlist_prepared(log, 1, request, points, scaled);
    lemma_prepared_at(log, 1, request, points, scaled, 1);
    let k = prepared->Done_1;
    let p = prepared->Done_0;
    let m = playlist_started(log, k, p, scaled)->Done_1;
    law_playlist_is_loaded_before_it_starts(log, k, p, scaled);
    let run = |l: Seq<AnswerView>| called(l, 0, port, request, points, scaled);
    assert forall|j: int| #![trigger log.take(j)] 1 <= j < k implies same_ask(
        playlist_prepared(log.take(j), 1, request, points, scaled),
        run(log.take(j)),
    ) by {
        lemma_prepared_at(log, 1, request, points, scaled, j);
        lemma_called_at(log, port, request, points, scaled, action, j);
    }
    assert forall|j: int| #![trigger log.take(j)] k <= j < m implies same_ask(
        playlist_started(log.take(j), k, p, scaled),
        run(log.take(j)),
    ) by {
        lemma_prepared_at(log, 1, request, points, scaled, j);
        lemma_started_asks(log, k, p, scaled, j);
        lemma_called_at(log, port, request, points, scaled, action, j);
    }
}

} // verus!
