//! The event that a frame parser hands out for each complete frame.

use vstd::prelude::*;

verus! {

/// One message of an event stream.
#[derive(Debug, PartialEq, Eq)]
pub struct MessageEvent {
    /// The event's type: `message` unless the frame names another.
    pub event: String,
    /// The payload.
    pub data: String,
    /// The last event id known when the frame was complete.
    pub id: String,
    /// The reconnection time in milliseconds, where the frame sets one.
    pub retry: Option<u64>,
}

/// The mathematical value of a [`MessageEvent`].
pub struct MessageEventView {
    pub event: Seq<char>,
    pub data: Seq<char>,
    pub id: Seq<char>,
    pub retry: Option<u64>,
}

impl View for MessageEvent {
    type V = MessageEventView;

    open spec fn view(&self) -> MessageEventView {
        MessageEventView {
            event: self.event@,
            data: self.data@,
            id: self.id@,
            retry: self.retry,
        }
    }
}

impl Clone for MessageEvent {
    fn clone(&self) -> (r: MessageEvent)
        ensures
            r@ == self@,
    {
        MessageEvent {
            event: self.event.clone(),
            data: self.data.clone(),
            id: self.id.clone(),
            retry: self.retry,
        }
    }
}

/// The event type of a frame that names none.
pub open spec fn default_event_type() -> Seq<char> {
    seq!['m', 'e', 's', 's', 'a', 'g', 'e']
}

/// The characters of [`default_event_type`].
pub fn default_event_chars() -> (r: Vec<char>)
    ensures
        r@ == default_event_type(),
{
    let r = vec!['m', 'e', 's', 's', 'a', 'g', 'e'];
    assert(r@ =~= default_event_type());
    r
}

} // verus!
