//! The typed events that the parser produces and the dispatcher routes.

use vstd::prelude::*;

verus! {

/// The kinds of event a server line can stand for.
#[derive(Clone, Copy, Debug, PartialEq, Eq, Hash, Structural)]
pub enum EventType {
    AuthSuccess,
    AuthFailed,
    MotdStart,
    Motd,
    MotdEnd,
    Quit,
    PrivMsg,
    Ping,
    Error,
}

/// The mathematical content of an event: its kind and three texts.
pub struct EventView {
    pub event_type: EventType,
    pub sender: Seq<char>,
    pub receiver: Seq<char>,
    pub message: Seq<char>,
}

/// One event, made once for one line and never changed afterwards.
#[derive(Debug)]
pub struct BanchoEvent {
    pub event_type: EventType,
    pub sender: String,
    pub receiver: String,
    pub message: String,
}

impl View for BanchoEvent {
    type V = EventView;

    open spec fn view(&self) -> EventView {
        EventView {
            event_type: self.event_type,
            sender: self.sender@,
            receiver: self.receiver@,
            message: self.message@,
        }
    }
}

} // verus!
