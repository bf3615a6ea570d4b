//! Core value types shared by the whole library: the error type and the
//! event record handed to consumers.

use vstd::prelude::*;

verus! {

/// The single error kind surfaced to callers: an unrecoverable failure while
/// processing a feed, carrying a human-readable message.
#[derive(Debug)]
pub struct CalendarError {
    pub msg: String,
}

impl Clone for CalendarError {
    fn clone(&self) -> (r: Self)
        ensures
            r.msg@ == self.msg@,
    {
        CalendarError { msg: self.msg.clone() }
    }
}

impl CalendarError {
    /// Builds an error from a message, keeping the text unchanged.
    pub fn new(msg: String) -> (r: CalendarError)
        ensures
            r.msg@ == msg@,
    {
        CalendarError { msg }
    }

    /// The human-readable message, for display by the caller.
    pub fn message(&self) -> (r: &str)
        ensures
            r@ == self.msg@,
    {
        self.msg.as_str()
    }
}

/// One concrete meeting occurrence, anchored to instants in UTC epoch
/// seconds. A recurring event yields many of these, all immutable once
/// produced.
#[derive(Debug)]
pub struct Event {
    pub summary: String,
    pub description: String,
    pub location: String,
    /// The meeting URL found in the event text, if any.
    pub meeturl: Option<String>,
    /// Whether the event is a date-only (all-day) event.
    pub all_day: bool,
    /// Start instant, in UTC epoch seconds.
    pub start_timestamp: i64,
    /// End instant, in UTC epoch seconds.
    pub end_timestamp: i64,
    pub num_participants: u32,
}

/// The mathematical shape of an event record.
pub struct EventView {
    pub summary: Seq<char>,
    pub description: Seq<char>,
    pub location: Seq<char>,
    pub meeturl: Option<Seq<char>>,
    pub all_day: bool,
    pub start_timestamp: int,
    pub end_timestamp: int,
    pub num_participants: int,
}

impl Event {
    /// The view of this record.
    pub open spec fn eview(self) -> EventView {
        EventView {
            summary: self.summary@,
            description: self.description@,
            location: self.location@,
            meeturl: match self.meeturl {
                Some(u) => Some(u@),
                None => None,
            },
            all_day: self.all_day,
            start_timestamp: self.start_timestamp as int,
            end_timestamp: self.end_timestamp as int,
            num_participants: self.num_participants as int,
        }
    }
}

impl Clone for Event {
    fn clone(&self) -> (r: Self)
        ensures
            r.eview() == self.eview(),
    {
        Event {
            summary: self.summary.clone(),
            description: self.description.clone(),
            location: self.location.clone(),
            meeturl: match &self.meeturl {
                Some(u) => Some(u.clone()),
                None => None,
            },
            all_day: self.all_day,
            start_timestamp: self.start_timestamp,
            end_timestamp: self.end_timestamp,
            num_participants: self.num_participants,
        }
    }
}

} // verus!
