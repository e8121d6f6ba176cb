//! Forwarding the engine's notifications outward: which of them are
//! forwarded, on which channel, and with what payload.

use agent_stream_kit::AgentData;
use vstd::prelude::*;

verus! {

/// A notification of the engine to its observers.
#[derive(Debug)]
pub enum EngineEvent {
    /// The agent of this identifier is ready to take its next input on this
    /// channel.
    AgentIn(String, String),
    /// The agent of this identifier produced, under this label, this payload
    /// for the display.
    AgentDisplay(String, String, AgentData),
    /// The agent of this identifier raised an error of this message.
    AgentError(String, String),
    /// The board of this name took this payload.
    Board(String, AgentData),
}

/// A notification to send outward.
#[derive(Debug)]
pub enum Notification {
    /// An agent is ready to take its next input on the channel `ch`.
    Input { agent_id: String, ch: String },
    /// An agent produced a payload for the display, under the label `key`.
    Display { agent_id: String, key: String, data: AgentData },
    /// An agent raised an error.
    Error { agent_id: String, message: String },
}

/// The channel on which a notification is sent.
pub open spec fn channel_of(notification: Notification) -> Seq<char> {
    match notification {
        Notification::Input { .. } => "askit:input"@,
        Notification::Display { .. } => "askit:display"@,
        Notification::Error { .. } => "askit:error"@,
    }
}

/// The notification that forwards an event of the engine, if it is
/// forwarded: an input, a display payload and an error are, each with
/// what it carries; what a board took is not.
pub open spec fn forwarded(event: EngineEvent) -> Option<Notification> {
    match event {
        EngineEvent::AgentIn(agent_id, ch) => Some(Notification::Input { agent_id, ch }),
        EngineEvent::AgentDisplay(agent_id, key, data) => Some(
            Notification::Display { agent_id, key, data },
        ),
        EngineEvent::AgentError(agent_id, message) => Some(Notification::Error { agent_id, message }),
        EngineEvent::Board(_, _) => None,
    }
}

impl Notification {
    /// The channel on which the notification is sent.
    pub fn channel(&self) -> (r: &'static str)
        ensures
            r@ == channel_of(*self),
    {
        match self {
            Notification::Input { .. } => "askit:input",
            Notification::Display { .. } => "askit:display",
            Notification::Error { .. } => "askit:error",
        }
    }
}

/// The notification that forwards an event of the engine, if it is
/// forwarded.
pub fn notification_for(event: EngineEvent) -> (r: Option<Notification>)
    ensures
        r == forwarded(event),
{
    match event {
        EngineEvent::AgentIn(agent_id, ch) => Some(Notification::Input { agent_id, ch }),
        EngineEvent::AgentDisplay(agent_id, key, data) => Some(
            Notification::Display { agent_id, key, data },
        ),
        EngineEvent::AgentError(agent_id, message) => Some(Notification::Error { agent_id, message }),
        EngineEvent::Board(_, _) => None,
    }
}

} // verus!
