//! What can go wrong while events are collected.

use std::fmt::{Debug, Display};
use vstd::prelude::*;
use vstd::std_specs::convert::FromSpecImpl;

verus! {

/// An event that could not be put into the event queue, and why.
#[derive(Debug)]
pub enum TrySendError<T> {
    /// The queue holds as many events as it can.
    Full(T),
    /// Nothing receives from the queue any more.
    Closed(T),
}

impl<T> TrySendError<T> {
    /// The event that was refused.
    pub open spec fn refused(self) -> T {
        match self {
            TrySendError::Full(event) => event,
            TrySendError::Closed(event) => event,
        }
    }
}

#[derive(Debug)]
pub enum BatchCollectorError<T: Debug + Display> {
    EventQueueOverflow,
    EventQueueChannelClosed,
    Writer(T),
}

impl<T: Debug + Display> BatchCollectorError<T> {
    /// The text that describes the error to a person.
    pub fn message(&self) -> (text: String)
        ensures
            match *self {
                BatchCollectorError::EventQueueOverflow => text@ == "event queue overflow"@,
                BatchCollectorError::EventQueueChannelClosed => text@
                    == "event queue channel closed"@,
                BatchCollectorError::Writer(cause) => exists|shown: String|
                    {
                        &&& #[trigger] vstd::string::to_string_from_display_ensures::<T>(&cause, shown)
                        &&& text@ == "writer error: "@ + shown@
                    },
            },
    {
        match self {
            BatchCollectorError::EventQueueOverflow => "event queue overflow".to_owned(),
            BatchCollectorError::EventQueueChannelClosed => "event queue channel closed".to_owned(),
            BatchCollectorError::Writer(cause) => {
                let shown = cause.to_string();
                let mut text = "writer error: ".to_owned();
                text.append(shown.as_str());
                text
            },
        }
    }
}

impl<T, E: Debug + Display> From<TrySendError<T>> for BatchCollectorError<E> {
    fn from(val: TrySendError<T>) -> (error: Self) {
        match val {
            TrySendError::Full(_) => BatchCollectorError::EventQueueOverflow,
            TrySendError::Closed(_) => BatchCollectorError::EventQueueChannelClosed,
        }
    }
}

impl<T, E: Debug + Display> FromSpecImpl<TrySendError<T>> for BatchCollectorError<E> {
    open spec fn obeys_from_spec() -> bool {
        true
    }

    open spec fn from_spec(val: TrySendError<T>) -> Self {
        match val {
            TrySendError::Full(_) => BatchCollectorError::EventQueueOverflow,
            TrySendError::Closed(_) => BatchCollectorError::EventQueueChannelClosed,
        }
    }
}

} // verus!
