//! Scripts: what is done with the device, step by step.
//!
//! A script runs against a list of answers. Where it needs one that is not
//! there yet, it stops and says what it asks for; once the answer has been
//! obtained and added to the list, the script is run again from the start and
//! gets one step further. So everything that is decided is decided here, and
//! whoever runs the script only sends commands, draws pictures and hands back
//! what came of it.

use vstd::prelude::*;

use crate::json::{Json, JsonView};
use crate::protocol::ProtocolError;

verus! {

/// What a script asks for.
#[derive(Debug)]
pub enum Ask {
    /// Send a command to the device and wait for the response.
    Request { command: Json, timeout_ms: u64 },
    /// Repeat the hello handshake until the device answers.
    Ready { timeout_ms: u64 },
    /// Draw the labels of a task as a JPEG.
    Labels { title: String, footer: String },
    /// Draw a page of text as a JPEG.
    Text { title: String, body: String, footer: String, accent: String },
    /// Draw a picture file as a JPEG.
    Image { path: String },
    /// Draw the pages of a calendar as JPEGs.
    Pages { snapshot: Json },
    /// Make up a name for a new playlist.
    Session,
    /// Look at the clock.
    Time,
}

/// What a script gets.
#[derive(Debug)]
pub enum Answer {
    Value(Json),
    Bytes(Vec<u8>),
    Pages(Vec<Vec<u8>>),
    Text(String),
    /// The time, in seconds.
    Time(i64),
    Failed(String),
}

/// Why a script stopped before its end.
#[derive(Debug)]
pub enum Halt {
    /// It needs an answer first.
    Ask(Ask),
    /// It failed for good.
    Failed(ProtocolError),
}

#[verifier::ext_equal]
pub enum AskView {
    Request { command: JsonView, timeout_ms: u64 },
    Ready { timeout_ms: u64 },
    Labels { title: Seq<char>, footer: Seq<char> },
    Text { title: Seq<char>, body: Seq<char>, footer: Seq<char>, accent: Seq<char> },
    Image { path: Seq<char> },
    Pages { snapshot: JsonView },
    Session,
    Time,
}

#[verifier::ext_equal]
pub enum AnswerView {
    Value(JsonView),
    Bytes(Seq<u8>),
    Pages(Seq<Seq<u8>>),
    Text(Seq<char>),
    Time(int),
    Failed(Seq<char>),
}

impl View for Ask {
    type V = AskView;

    open spec fn view(&self) -> AskView {
        match *self {
            Ask::Request { command, timeout_ms } => AskView::Request {
                command: command@,
                timeout_ms,
            },
            Ask::Ready { timeout_ms } => AskView::Ready { timeout_ms },
            Ask::Labels { title, footer } => AskView::Labels { title: title@, footer: footer@ },
            Ask::Text { title, body, footer, accent } => AskView::Text {
                title: title@,
                body: body@,
                footer: footer@,
                accent: accent@,
            },
            Ask::Image { path } => AskView::Image { path: path@ },
            Ask::Pages { snapshot } => AskView::Pages { snapshot: snapshot@ },
            Ask::Session => AskView::Session,
            Ask::Time => AskView::Time,
        }
    }
}

/// The contents of a list of byte strings.
pub open spec fn byte_lists(v: Seq<Vec<u8>>) -> Seq<Seq<u8>> {
    Seq::new(v.len(), |i: int| v[i]@)
}

impl View for Answer {
    type V = AnswerView;

    open spec fn view(&self) -> AnswerView {
        match *self {
            Answer::Value(v) => AnswerView::Value(v@),
            Answer::Bytes(b) => AnswerView::Bytes(b@),
            Answer::Pages(p) => AnswerView::Pages(byte_lists(p@)),
            Answer::Text(t) => AnswerView::Text(t@),
            Answer::Time(t) => AnswerView::Time(t as int),
            Answer::Failed(m) => AnswerView::Failed(m@),
        }
    }
}

/// The answer to a command: its response, or why there is none.
pub open spec fn reported(r: Result<JsonView, Seq<char>>) -> AnswerView {
    match r {
        Ok(v) => AnswerView::Value(v),
        Err(m) => AnswerView::Failed(m),
    }
}

impl Answer {
    /// The answer to a command: its response, or why there is none.
    pub fn of(r: Result<Json, ProtocolError>) -> (a: Answer)
        ensures
            a@ == reported(
                match r {
                    Ok(v) => Ok(v@),
                    Err(e) => Err(e.0@),
                },
            ),
    {
        match r {
            Ok(v) => Answer::Value(v),
            Err(e) => Answer::Failed(e.0),
        }
    }
}

/// How a script, or a part of one, ended: with a result or an error and the
/// number of answers used up so far, or with what it asks for next.
#[verifier::ext_equal]
pub enum Turn<T> {
    Done(T, int),
    Failed(Seq<char>, int),
    Ask(AskView),
}

/// The same end without a result, for a part that goes on.
pub open spec fn stopped<T, U>(t: Turn<T>) -> Turn<U> {
    match t {
        Turn::Done(_, pos) => Turn::Failed(Seq::empty(), pos),
        Turn::Failed(m, pos) => Turn::Failed(m, pos),
        Turn::Ask(a) => Turn::Ask(a),
    }
}

/// How the next answer, due to be a value, continues a script.
pub open spec fn value_turn(log: Seq<AnswerView>, pos: int, ask: AskView) -> Turn<JsonView> {
    if 0 <= pos < log.len() {
        match log[pos] {
            AnswerView::Value(v) => Turn::Done(v, pos + 1),
            AnswerView::Failed(m) => Turn::Failed(m, pos + 1),
            _ => Turn::Ask(ask),
        }
    } else {
        Turn::Ask(ask)
    }
}

/// How the next answer, due to be bytes, continues a script.
pub open spec fn bytes_turn(log: Seq<AnswerView>, pos: int, ask: AskView) -> Turn<Seq<u8>> {
    if 0 <= pos < log.len() {
        match log[pos] {
            AnswerView::Bytes(b) => Turn::Done(b, pos + 1),
            AnswerView::Failed(m) => Turn::Failed(m, pos + 1),
            _ => Turn::Ask(ask),
        }
    } else {
        Turn::Ask(ask)
    }
}

/// How the next answer, due to be pages, continues a script.
pub open spec fn pages_turn(log: Seq<AnswerView>, pos: int, ask: AskView) -> Turn<Seq<Seq<u8>>> {
    if 0 <= pos < log.len() {
        match log[pos] {
            AnswerView::Pages(p) => Turn::Done(p, pos + 1),
            AnswerView::Failed(m) => Turn::Failed(m, pos + 1),
            _ => Turn::Ask(ask),
        }
    } else {
        Turn::Ask(ask)
    }
}

/// How the next answer, due to be a text, continues a script.
pub open spec fn text_turn(log: Seq<AnswerView>, pos: int, ask: AskView) -> Turn<Seq<char>> {
    if 0 <= pos < log.len() {
        match log[pos] {
            AnswerView::Text(t) => Turn::Done(t, pos + 1),
            AnswerView::Failed(m) => Turn::Failed(m, pos + 1),
            _ => Turn::Ask(ask),
        }
    } else {
        Turn::Ask(ask)
    }
}

/// How the next answer, due to be the time, continues a script.
pub open spec fn time_turn(log: Seq<AnswerView>, pos: int) -> Turn<int> {
    if 0 <= pos < log.len() {
        match log[pos] {
            AnswerView::Time(t) => Turn::Done(t, pos + 1),
            AnswerView::Failed(m) => Turn::Failed(m, pos + 1),
            _ => Turn::Ask(AskView::Time),
        }
    } else {
        Turn::Ask(AskView::Time)
    }
}

/// What a halted script ended with.
pub open spec fn halted<T>(h: Halt, pos: int) -> Turn<T> {
    match h {
        Halt::Ask(a) => Turn::Ask(a@),
        Halt::Failed(e) => Turn::Failed(e.0@, pos),
    }
}

/// What a script with a value for a result ended with.
pub open spec fn value_end(r: Result<Json, Halt>, pos: int) -> Turn<JsonView> {
    match r {
        Ok(v) => Turn::Done(v@, pos),
        Err(h) => halted(h, pos),
    }
}

/// What a script with bytes for a result ended with.
pub open spec fn bytes_end(r: Result<Vec<u8>, Halt>, pos: int) -> Turn<Seq<u8>> {
    match r {
        Ok(v) => Turn::Done(v@, pos),
        Err(h) => halted(h, pos),
    }
}

/// What a script with pages for a result ended with.
pub open spec fn pages_end(r: Result<Vec<Vec<u8>>, Halt>, pos: int) -> Turn<Seq<Seq<u8>>> {
    match r {
        Ok(v) => Turn::Done(byte_lists(v@), pos),
        Err(h) => halted(h, pos),
    }
}

/// What a script with a text for a result ended with.
pub open spec fn text_end(r: Result<String, Halt>, pos: int) -> Turn<Seq<char>> {
    match r {
        Ok(v) => Turn::Done(v@, pos),
        Err(h) => halted(h, pos),
    }
}

/// What a script with a time for a result ended with.
pub open spec fn time_end(r: Result<i64, Halt>, pos: int) -> Turn<int> {
    match r {
        Ok(v) => Turn::Done(v as int, pos),
        Err(h) => halted(h, pos),
    }
}

/// A script failed with a message.
pub fn failed(message: &str) -> (h: Halt)
    ensures
        h == Halt::Failed(h->Failed_0),
        h->Failed_0.0@ == message@,
{
    Halt::Failed(ProtocolError(message.to_owned()))
}

} // verus!
