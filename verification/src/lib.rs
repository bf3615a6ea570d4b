//! Turns an iCalendar feed into a flat, time-ordered list of concrete meeting
//! occurrences, each anchored to one authoritative local timezone.

use vstd::prelude::*;

mod bridge;
mod civil;
mod custom_timezone;
mod domain;
mod ical_util;
mod meeters_ical;
mod strutil;
mod timezones;

pub use bridge::OccStamp;
pub use civil::{
    day_number, days_in_month, days_in_year, epoch_of_parts, format_datetime_value, is_leap_year,
    parse_date_value, parse_datetime_value, parts_of_epoch, DateTimeParts,
};
pub use custom_timezone::{
    CustomTz, FixedTimespan, FixedTimespanSet, LocalResolution, OffsetCarrier, OffsetName, Span,
    TimeSpans, TzOffset,
};
pub use domain::{CalendarError, Event, EventView};
pub use ical_util::{
    find_param, find_property, find_property_value, format_param_values, ical_event_to_string,
    is_ical_date, params_to_string, prop_to_string, properties_to_string, unescape_string, Prop,
    PropView, RawEvent,
};
pub use meeters_ical::{
    calculate_occurrences, count_participants, extract_events, extract_ical_date,
    extract_ical_datetime, extract_start_end_time, get_events_for_interval, parse_calendar,
    parse_event, parse_events, parse_ical_date_notz, parse_ical_datetime, parse_occurrences,
    parse_zoom_url, partition_by_recurrence, partition_modifying_events, promote_orphans,
    reconcile_occurrence, strip_param, ModEntry, ModifyingEvents,
};
pub use timezones::{
    explicit_to_iana, offset_to_seconds, parse_explicit_tzid, parse_ical_timezone,
    parse_ical_timezones, parse_occurrences_from_timespan, parse_standard_tz, parse_timespansets,
    parse_tzid, parse_windows_tzid, windows_to_iana, CustomTzMap, ResolvedTz, TransitionBlock,
    VTimezoneBlock,
};

verus! {

} // verus!
