//! Event handling: reading start and end instants out of feed properties,
//! expanding recurrence rules into concrete occurrences, and reconciling
//! modifying events into the right occurrence slots.

use vstd::prelude::*;

use crate::bridge::current_year_local;
use crate::bridge::regex_first_match;
use crate::bridge::regex_find_first;
use crate::bridge::rrule_all;
use crate::bridge::rrule_parse;
use crate::bridge::spec_stamp_sane;
use crate::bridge::std_zone_offset_from_local;
use crate::bridge::std_zone_offset_from_utc;
use crate::bridge::OccStamp;
use crate::civil::epoch_of_parts;
use crate::civil::format_datetime_value;
use crate::civil::parse_date_value;
use crate::civil::parse_datetime_value;
use crate::civil::parts_of_epoch;
use crate::civil::spec_epoch_of;
use crate::civil::spec_parse_date;
use crate::civil::spec_format_datetime;
use crate::civil::spec_parse_datetime;
use crate::civil::DateTimeParts;
use crate::custom_timezone::CustomTz;
use crate::custom_timezone::LocalResolution;
use crate::domain::CalendarError;
use crate::domain::Event;
use crate::domain::EventView;
use crate::ical_util::clone_params;
use crate::ical_util::find_param;
use crate::ical_util::find_property;
use crate::ical_util::find_property_value;
use crate::ical_util::is_ical_date;
use crate::ical_util::properties_to_string;
use crate::ical_util::spec_find_param;
use crate::ical_util::spec_find_property;
use crate::ical_util::spec_is_ical_date;
use crate::ical_util::spec_param_view;
use crate::ical_util::spec_unescape;
use crate::ical_util::unescape_string;
use crate::ical_util::Prop;
use crate::ical_util::RawEvent;
use crate::strutil::str_eq_str;
use crate::strutil::str_ends_with_char;
use crate::strutil::str_has_prefix;
use crate::strutil::split_char;
use crate::timezones::epoch_from_local_policy;
use crate::timezones::parse_tzid;
use crate::timezones::spec_ctz_lookup;
use crate::timezones::window_stamps;
use crate::timezones::CustomTzMap;
use crate::timezones::ResolvedTz;
use vstd::pervasive::VecAdditionalExecFns;
use vstd::string::StrSliceExecFns;
use vstd::string::StringExecFns;

verus! {

fn calendar_error(msg: &str) -> (r: CalendarError)
    ensures
        r.msg@ == msg@,
{
    CalendarError::new(String::from_str(msg))
}

/// Resolve a whole local day against a standard zone: try the first and the
/// last second of the day, prefer an unambiguous answer, else the earlier
/// offset of an ambiguous one.
fn std_zone_day_offset(tz: &chrono_tz::Tz, day_start: i64) -> (r: Option<i64>)
    requires
        -8000000000000 <= day_start <= 7999999900000,
    ensures
        r matches Some(o) ==> -86400 < o < 86400,
{
    let earliest = std_zone_offset_from_local(tz, day_start);
    let latest = std_zone_offset_from_local(tz, day_start + 86399);
    let picked: Option<i32> = match (earliest, latest) {
        (LocalResolution::Single(x), _) => Some(x),
        (_, LocalResolution::Single(y)) => Some(y),
        (LocalResolution::Ambiguous(x, _), _) => Some(x),
        (_, LocalResolution::Ambiguous(y, _)) => Some(y),
        (LocalResolution::NoSuchLocalTime, LocalResolution::NoSuchLocalTime) => None,
    };
    match picked {
        Some(o) => Some(o as i64),
        None => None,
    }
}

/// Parses datetimes of the format `YYYYMMDDTHHMMSS` and anchors them in the
/// given zone, preferring the earlier offset when the local time is
/// ambiguous and failing when it falls in a skipped window.
pub fn parse_ical_datetime(datetime: &str, tz: &ResolvedTz) -> (r: Result<i64, CalendarError>)
    requires
        tz matches ResolvedTz::Custom(c) ==> c.wf(),
    ensures
        r matches Ok(e) ==> -63000000000 <= e <= 255000000000,
        match spec_parse_datetime(datetime@) {
            None => r is Err,
            Some(p) => match tz {
                ResolvedTz::Custom(c) => match c.timespanset.spec_local_resolution(
                    spec_epoch_of(p),
                ).spec_earliest() {
                    Some(o) => r matches Ok(e) && e == spec_epoch_of(p) - o.spec_total_offset(),
                    None => r is Err,
                },
                ResolvedTz::Standard(_) => r matches Ok(e) ==> spec_epoch_of(p) - 86400 < e
                    < spec_epoch_of(p) + 86400,
            },
        },
{
    let parts = match parse_datetime_value(datetime) {
        Some(p) => p,
        None => {
            return Err(calendar_error("Can't parse datetime string with tzid"));
        },
    };
    let naive = epoch_of_parts(&parts);
    match tz {
        ResolvedTz::Custom(c) => {
            match c.timespanset.offset_from_local_timestamp(naive) {
                LocalResolution::NoSuchLocalTime => Err(
                    calendar_error("Local time does not exist in the event's timezone"),
                ),
                LocalResolution::Single(o) => Ok(naive - o.total_offset()),
                LocalResolution::Ambiguous(o, _) => Ok(naive - o.total_offset()),
            }
        },
        ResolvedTz::Standard(stz) => {
            let res = std_zone_offset_from_local(stz, naive);
            match epoch_from_local_policy(naive, res) {
                Some(e) => Ok(e),
                None => Err(calendar_error("Local time does not exist in the event's timezone")),
            }
        },
    }
}

/// The TZID parameter values of a property, when it carries any.
pub open spec fn spec_tzid_values(p: Prop) -> Option<Vec<String>> {
    match p.params {
        Some(ps) => spec_find_param(ps@, "TZID"@),
        None => None,
    }
}

/// Whether a property carries a usable TZID parameter.
pub open spec fn spec_has_tzid(p: Prop) -> bool {
    spec_tzid_values(p) matches Some(vs) && vs@.len() > 0
}

/// Exactness of extraction through a calendar-embedded zone: when the
/// property's TZID names a zone of the table, the result is the value's
/// naive reading shifted by that zone's offset under the earlier-offset
/// policy, and an error exactly on a malformed value or a skipped local
/// time.
pub open spec fn spec_custom_extract_ok(
    prop: Prop,
    entries: Seq<CustomTz>,
    r: Result<i64, CalendarError>,
) -> bool {
    match spec_tzid_values(prop) {
        Some(vs) => (vs@.len() > 0 ==> (match spec_ctz_lookup(entries, spec_unescape(vs@[0]@)) {
            Some(c) => (match prop.value {
                Some(v) => (match spec_parse_datetime(v@) {
                    Some(p) => (match c.timespanset.spec_local_resolution(
                        spec_epoch_of(p),
                    ).spec_earliest() {
                        Some(o) => r matches Ok(e) && e == spec_epoch_of(p)
                            - o.spec_total_offset(),
                        None => r is Err,
                    }),
                    None => r is Err,
                }),
                None => true,
            }),
            None => true,
        })),
        None => true,
    }
}

/// Whether the TZID a property carries resolves at all, against the given
/// custom-zone table.
pub open spec fn spec_tzid_resolvable(p: Prop, entries: Seq<CustomTz>) -> bool {
    match spec_tzid_values(p) {
        Some(vs) => vs@.len() > 0 ==> {
            ||| spec_ctz_lookup(entries, spec_unescape(vs@[0]@)) is Some
            ||| crate::timezones::spec_standard_resolvable(spec_unescape(vs@[0]@))
        },
        None => true,
    }
}

/// Extract the instant of a timestamp property. The value can be zone
/// qualified through a TZID parameter, a UTC timestamp with a `Z` suffix,
/// or a bare local timestamp read in the configured local zone. A TZID
/// that resolves to nothing is a timezone resolution failure and aborts
/// the event.
pub fn extract_ical_datetime(
    prop: &Prop,
    calendar_timezones: &CustomTzMap,
    local_tz: &chrono_tz::Tz,
) -> (r: Result<i64, CalendarError>)
    requires
        calendar_timezones.wf(),
    ensures
        r matches Ok(e) ==> -63000000000 <= e <= 255000000000,
        prop.value is None ==> r is Err,
        !spec_tzid_resolvable(*prop, calendar_timezones.entries@) ==> r is Err,
        spec_custom_extract_ok(*prop, calendar_timezones.entries@, r),
        match prop.value {
            Some(v) => {
                &&& (!spec_has_tzid(*prop) && v@.len() > 0 && v@.last() == 'Z') ==> (
                match spec_parse_datetime(v@.drop_last()) {
                    Some(p) => r matches Ok(e) && e == spec_epoch_of(p),
                    None => r is Err,
                })
                &&& (!spec_has_tzid(*prop) && !(v@.len() > 0 && v@.last() == 'Z')) ==> (
                match spec_parse_datetime(v@) {
                    Some(p) => r matches Ok(e) ==> spec_epoch_of(p) - 86400 < e < spec_epoch_of(p)
                        + 86400,
                    None => r is Err,
                })
            },
            None => true,
        },
{
    let date_time_str = match &prop.value {
        Some(v) => v,
        None => {
            return Err(calendar_error("timestamp property has no value"));
        },
    };
    let tzid_values: Option<&Vec<String>> = match &prop.params {
        Some(ps) => find_param(ps, "TZID"),
        None => None,
    };
    let has_tzid = match tzid_values {
        Some(vs) => vs.len() > 0,
        None => false,
    };
    if has_tzid {
        let vs = tzid_values.unwrap();
        let tzid = unescape_string(vs[0].as_str());
        match parse_tzid(tzid.as_str(), calendar_timezones) {
            Ok(timezone) => {
                proof {
                    match timezone {
                        ResolvedTz::Custom(c) => {
                            lemma_ctz_lookup_wf(calendar_timezones.entries@, tzid@);
                        },
                        ResolvedTz::Standard(_) => {},
                    }
                }
                parse_ical_datetime(date_time_str.as_str(), &timezone)
            },
            Err(e) => {
                let mut msg = String::from_str("error in timezone string parsing: ");
                msg.append(e.as_str());
                Err(CalendarError::new(msg))
            },
        }
    } else {
        if str_ends_with_char(date_time_str.as_str(), 'Z') {
            let n = date_time_str.as_str().unicode_len();
            let stripped = date_time_str.as_str().substring_char(0, n - 1);
            proof {
                assert(stripped@ =~= date_time_str@.drop_last());
            }
            match parse_datetime_value(stripped) {
                Some(p) => Ok(epoch_of_parts(&p)),
                None => Err(calendar_error("Can't parse datetime string with tzid")),
            }
        } else {
            let local = ResolvedTz::Standard(*local_tz);
            parse_ical_datetime(date_time_str.as_str(), &local)
        }
    }
}

/// A lookup in a well-formed table yields a well-formed zone.
proof fn lemma_ctz_lookup_wf(entries: Seq<CustomTz>, name: Seq<char>)
    requires
        forall|i: int| 0 <= i < entries.len() ==> (#[trigger] entries[i]).wf(),
    ensures
        spec_ctz_lookup(entries, name) matches Some(c) ==> c.wf(),
    decreases entries.len(),
{
    if entries.len() > 0 && entries[0].name@ != name {
        assert forall|i: int| 0 <= i < entries.drop_first().len() implies (
        #[trigger] entries.drop_first()[i]).wf() by {
            assert(entries.drop_first()[i] == entries[i + 1]);
        }
        lemma_ctz_lookup_wf(entries.drop_first(), name);
    }
}

/// Parses an ical date of the form `YYYYMMDD` into the instant of that
/// day's local midnight in the given zone. The date is resolved by day, not
/// instant, so an offset shift cannot move it into another day.
pub fn parse_ical_date_notz(date: &str, tz: &chrono_tz::Tz) -> (r: Result<i64, CalendarError>)
    ensures
        r matches Ok(e) ==> -63000000000 <= e <= 255000000000,
        match spec_parse_date(date@) {
            None => r is Err,
            Some(p) => r matches Ok(e) ==> spec_epoch_of(p) - 86400 < e < spec_epoch_of(p) + 86400,
        },
{
    let parts = match parse_date_value(date) {
        Some(p) => p,
        None => {
            let mut msg = String::from_str("Can't parse date '");
            msg.append(date);
            msg.append("'");
            return Err(CalendarError::new(msg));
        },
    };
    let day_start = epoch_of_parts(&parts);
    match std_zone_day_offset(tz, day_start) {
        Some(o) => Ok(day_start - o),
        None => Err(calendar_error("Date does not exist in the local timezone")),
    }
}

/// Extract a date property's local-midnight instant.
pub fn extract_ical_date(prop: &Prop, local_tz: &chrono_tz::Tz) -> (r: Result<i64, CalendarError>)
    ensures
        r matches Ok(e) ==> -63000000000 <= e <= 255000000000,
        prop.value is None ==> r is Err,
        match prop.value {
            Some(v) => match spec_parse_date(v@) {
                None => r is Err,
                Some(p) => r matches Ok(e) ==> spec_epoch_of(p) - 86400 < e < spec_epoch_of(p)
                    + 86400,
            },
            None => true,
        },
{
    match &prop.value {
        Some(v) => parse_ical_date_notz(v.as_str(), local_tz),
        None => Err(calendar_error("date property has no value")),
    }
}

/// Whether a property carries a `VALUE` parameter at all.
pub open spec fn spec_has_value_param(p: Prop) -> bool {
    p.params matches Some(ps) && spec_find_param(ps@, "VALUE"@) is Some
}

/// The property holds a well-formed UTC-suffixed timestamp value with no
/// zone qualifier: the one timestamp shape whose instant the library
/// decides entirely on its own.
pub open spec fn spec_utc_value_ok(p: Prop) -> bool {
    match p.value {
        Some(v) => !spec_has_tzid(p) && v@.len() > 0 && v@.last() == 'Z' && spec_parse_datetime(
            v@.drop_last(),
        ) is Some,
        None => false,
    }
}

/// The instant of a well-formed UTC-suffixed timestamp value.
pub open spec fn spec_utc_value_epoch(p: Prop) -> int {
    spec_epoch_of(spec_parse_datetime(p.value->0@.drop_last())->0)
}

/// Encapsulates reading `DTSTART` and `DTEND`: detects whether the event is
/// an all-day event and yields its start and end instants. A `VALUE`
/// parameter other than `DATE` is rejected; a timed event without an end
/// time is rejected; an all-day event without an end time ends when it
/// starts.
pub fn extract_start_end_time(
    ical_event: &RawEvent,
    calendar_timezones: &CustomTzMap,
    local_tz: &chrono_tz::Tz,
) -> (r: Result<(i64, i64, bool), CalendarError>)
    requires
        calendar_timezones.wf(),
    ensures
        r matches Ok((s, e, ad)) ==> -63000000000 <= s <= 255000000000 && -63000000000 <= e
            <= 255000000000,
        spec_find_property(ical_event.properties@, "DTSTART"@) is None ==> r is Err,
        match spec_find_property(ical_event.properties@, "DTSTART"@) {
            Some(sp) => {
                &&& (r matches Ok((s, e, all_day)) ==> all_day == spec_is_ical_date(sp))
                &&& ((spec_has_value_param(sp) && !spec_is_ical_date(sp)) ==> r is Err)
                &&& ((!spec_has_value_param(sp) && spec_find_property(
                    ical_event.properties@,
                    "DTEND"@,
                ) is None) ==> r is Err)
                &&& ((spec_is_ical_date(sp) && spec_find_property(
                    ical_event.properties@,
                    "DTEND"@,
                ) is None) ==> (r matches Ok((s, e, all_day)) ==> e == s))
                &&& (match spec_find_property(ical_event.properties@, "DTEND"@) {
                    Some(ep) => (!spec_has_value_param(sp) && spec_utc_value_ok(sp)
                        && spec_utc_value_ok(ep)) ==> (r matches Ok((s, e, all_day)) && s
                        == spec_utc_value_epoch(sp) && e == spec_utc_value_epoch(ep) && !all_day),
                    None => true,
                })
            },
            None => true,
        },
{
    let start_property = match find_property(&ical_event.properties, "DTSTART") {
        Some(p) => p,
        None => {
            return Err(calendar_error("missing start time for an event"));
        },
    };
    let end_property = find_property(&ical_event.properties, "DTEND");
    let has_value_param = match &start_property.params {
        Some(ps) => match find_param(ps, "VALUE") {
            Some(_) => true,
            None => false,
        },
        None => false,
    };
    if has_value_param {
        if !is_ical_date(start_property) {
            return Err(
                calendar_error(
                    "Encountered DTSTART with a VALUE parameter that has a value different from 'DATE'",
                ),
            );
        }
        // A date start marks a whole-day or multi-day event.
        let start_time = extract_ical_date(start_property, local_tz)?;
        match end_property {
            Some(p) => {
                let end_time = extract_ical_date(p, local_tz)?;
                Ok((start_time, end_time, true))
            },
            None => Ok((start_time, start_time, true)),
        }
    } else {
        // A timed event: there must be an end time.
        match end_property {
            Some(p) => {
                let start_time = extract_ical_datetime(
                    start_property,
                    calendar_timezones,
                    local_tz,
                )?;
                let end_time = extract_ical_datetime(p, calendar_timezones, local_tz)?;
                Ok((start_time, end_time, false))
            },
            None => Err(calendar_error("missing end time for an event")),
        }
    }
}

/// The pattern a meeting URL must match.
pub open spec fn spec_zoom_pattern() -> Seq<char> {
    "https?://[^\\s]*zoom.us/(j|my)/[^\\s\\n\\r<>]+"@
}

/// Find the meeting URL in a piece of event text: the leftmost match of the
/// meeting-URL pattern.
pub fn parse_zoom_url(text: &str) -> (r: Option<String>)
    ensures
        match r {
            Some(u) => regex_first_match(spec_zoom_pattern(), text@) == Some(u@),
            None => regex_first_match(spec_zoom_pattern(), text@) is None,
        },
{
    regex_find_first("https?://[^\\s]*zoom.us/(j|my)/[^\\s\\n\\r<>]+", text)
}

/// A separator between participant entries in a description.
pub open spec fn spec_is_participant_sep(c: char) -> bool {
    c == ',' || c == ';' || c == '\n'
}

/// How many separator-delimited segments of the text hold an `@` sign,
/// scanning left to right; `seen` tells whether the current segment already
/// held one.
pub open spec fn spec_count_at_segments(s: Seq<char>, seen: bool) -> int
    decreases s.len(),
{
    if s.len() == 0 {
        if seen {
            1
        } else {
            0
        }
    } else if spec_is_participant_sep(s[0]) {
        (if seen {
            1int
        } else {
            0int
        }) + spec_count_at_segments(s.drop_first(), false)
    } else {
        spec_count_at_segments(s.drop_first(), seen || s[0] == '@')
    }
}

proof fn lemma_count_at_segments_bound(s: Seq<char>, seen: bool)
    ensures
        0 <= spec_count_at_segments(s, seen) <= s.len() + 1,
    decreases s.len(),
{
    if s.len() > 0 {
        lemma_count_at_segments_bound(s.drop_first(), false);
        lemma_count_at_segments_bound(s.drop_first(), seen || s[0] == '@');
        lemma_count_at_segments_bound(s.drop_first(), true);
    }
}

/// The number of participants an event's description suggests: the count of
/// its segments that hold an email address, or one when there is no
/// description at all.
pub open spec fn spec_participant_count(description: Seq<char>) -> int {
    if description.len() == 0 {
        1
    } else {
        spec_count_at_segments(description, false)
    }
}

/// Count the participants of an event by the email addresses in its
/// description.
pub fn count_participants(description: &str) -> (r: u32)
    requires
        description@.len() < 0x80000000,
    ensures
        r == spec_participant_count(description@),
{
    let n = description.unicode_len();
    if n == 0 {
        return 1;
    }
    let mut acc: u32 = 0;
    let mut seen = false;
    let mut i: usize = 0;
    proof {
        assert(description@.skip(0) =~= description@);
        lemma_count_at_segments_bound(description@, false);
    }
    while i < n
        invariant
            i <= n,
            n == description@.len(),
            n < 0x80000000,
            acc + (if seen {
                1int
            } else {
                0int
            }) <= i + 1,
            spec_count_at_segments(description@, false) == acc + spec_count_at_segments(
                description@.skip(i as int),
                seen,
            ),
        decreases n - i,
    {
        let c = description.get_char(i);
        proof {
            assert(description@.skip(i as int)[0] == description@[i as int]);
            assert(description@.skip(i as int).drop_first() =~= description@.skip(i + 1));
        }
        if c == ',' || c == ';' || c == '\n' {
            if seen {
                acc = acc + 1;
            }
            seen = false;
        } else {
            if c == '@' {
                seen = true;
            }
        }
        i = i + 1;
    }
    proof {
        assert(description@.skip(n as int) =~= Seq::<char>::empty());
    }
    if seen {
        acc + 1
    } else {
        acc
    }
}

/// What parsing an event block yields: text fields unescaped from the
/// block's properties, the meeting URL from the location, the summary,
/// then the description, the participant count from the description's
/// address segments, the all-day flag from the start property, and
/// instants within the supported range.
pub open spec fn spec_parsed_event_ok(raw: RawEvent, ev: Event) -> bool {
    &&& -63000000000 <= ev.start_timestamp <= 255000000000
    &&& -63000000000 <= ev.end_timestamp <= 255000000000
    &&& ev.summary@ == spec_unescape(spec_text_of(raw.properties@, "SUMMARY"@))
    &&& ev.description@ == spec_unescape(spec_text_of(raw.properties@, "DESCRIPTION"@))
    &&& ev.location@ == spec_unescape(spec_text_of(raw.properties@, "LOCATION"@))
    &&& (match ev.meeturl {
        Some(u) => spec_first_zoom_url(ev.location@, ev.summary@, ev.description@) == Some(u@),
        None => spec_first_zoom_url(ev.location@, ev.summary@, ev.description@) is None,
    })
    &&& (ev.description@.len() < 0x80000000 ==> ev.num_participants == spec_participant_count(
        ev.description@,
    ))
    &&& (match spec_find_property(raw.properties@, "DTSTART"@) {
        Some(sp) => ev.all_day == spec_is_ical_date(sp),
        None => false,
    })
}

/// Parse one event block into a concrete record: its text fields
/// unescaped, its meeting URL taken from the location, the summary, then
/// the description, and its instants and all-day flag from the start and
/// end properties.
pub fn parse_event(
    ical_event: &RawEvent,
    calendar_timezones: &CustomTzMap,
    local_tz: &chrono_tz::Tz,
) -> (r: Result<Event, CalendarError>)
    requires
        calendar_timezones.wf(),
    ensures
        match r {
            Ok(ev) => spec_parsed_event_ok(*ical_event, ev),
            Err(_) => true,
        },
        match (spec_find_property(ical_event.properties@, "DTSTART"@), spec_find_property(
            ical_event.properties@,
            "DTEND"@,
        )) {
            (Some(sp), Some(ep)) => (!spec_has_value_param(sp) && spec_utc_value_ok(sp)
                && spec_utc_value_ok(ep)) ==> (r matches Ok(ev) && ev.start_timestamp
                == spec_utc_value_epoch(sp) && ev.end_timestamp == spec_utc_value_epoch(ep)
                && !ev.all_day),
            _ => true,
        },
{
    let summary = unescape_string(property_text(&ical_event.properties, "SUMMARY").as_str());
    let description = unescape_string(
        property_text(&ical_event.properties, "DESCRIPTION").as_str(),
    );
    let location = unescape_string(property_text(&ical_event.properties, "LOCATION").as_str());
    let (start_timestamp, end_timestamp, all_day) = extract_start_end_time(
        ical_event,
        calendar_timezones,
        local_tz,
    )?;
    let meeturl = match parse_zoom_url(location.as_str()) {
        Some(u) => Some(u),
        None => match parse_zoom_url(summary.as_str()) {
            Some(u) => Some(u),
            None => parse_zoom_url(description.as_str()),
        },
    };
    let num_participants = if description.as_str().unicode_len() > 0 {
        count_participants_capped(description.as_str())
    } else {
        // No description: default to a single participant.
        1
    };
    Ok(
        Event {
            summary,
            description,
            location,
            meeturl,
            all_day,
            start_timestamp,
            end_timestamp,
            num_participants,
        },
    )
}

/// Count participants, answering the exact count whenever the description
/// is of any realistic size.
fn count_participants_capped(description: &str) -> (r: u32)
    ensures
        description@.len() < 0x80000000 ==> r == spec_participant_count(description@),
{
    let n = description.unicode_len();
    if n < 0x80000000 {
        count_participants(description)
    } else {
        1
    }
}

/// The value text of the first property with that name, or empty.
pub open spec fn spec_text_of(props: Seq<Prop>, name: Seq<char>) -> Seq<char> {
    match spec_find_property(props, name) {
        Some(p) => match p.value {
            Some(v) => v@,
            None => Seq::empty(),
        },
        None => Seq::empty(),
    }
}

/// The first meeting URL found, trying the location, then the summary, then
/// the description.
pub open spec fn spec_first_zoom_url(
    location: Seq<char>,
    summary: Seq<char>,
    description: Seq<char>,
) -> Option<Seq<char>> {
    match regex_first_match(spec_zoom_pattern(), location) {
        Some(u) => Some(u),
        None => match regex_first_match(spec_zoom_pattern(), summary) {
            Some(u) => Some(u),
            None => regex_first_match(spec_zoom_pattern(), description),
        },
    }
}

/// The value text of the first property with that name, or an empty string.
fn property_text(properties: &Vec<Prop>, name: &str) -> (r: String)
    ensures
        r@ == spec_text_of(properties@, name@),
{
    match find_property_value(properties, name) {
        Some(v) => v,
        None => String::new(),
    }
}

/// The views of a parameter list.
pub open spec fn spec_params_view_seq(ps: Seq<(String, Vec<String>)>) -> Seq<
    (Seq<char>, Seq<Seq<char>>),
> {
    ps.map_values(|q: (String, Vec<String>)| spec_param_view(q))
}

/// The parameter list with every parameter of that name removed.
pub open spec fn spec_strip_filter(
    pv: Seq<(Seq<char>, Seq<Seq<char>>)>,
    name: Seq<char>,
) -> Seq<(Seq<char>, Seq<Seq<char>>)> {
    pv.filter(|p: (Seq<char>, Seq<Seq<char>>)| p.0 != name)
}

/// The first value of the last parameter of that name, if any.
pub open spec fn spec_removed_value(
    pv: Seq<(Seq<char>, Seq<Seq<char>>)>,
    name: Seq<char>,
) -> Option<Seq<char>>
    decreases pv.len(),
{
    if pv.len() == 0 {
        None
    } else if pv.last().0 == name {
        if pv.last().1.len() > 0 {
            Some(pv.last().1[0])
        } else {
            None
        }
    } else {
        spec_removed_value(pv.drop_last(), name)
    }
}

/// A copy of the property with every parameter of the given name removed,
/// together with the removed parameter's first value.
pub fn strip_param(p: &Prop, param_name: &str) -> (r: (Prop, Option<String>))
    ensures
        r.0.name@ == p.name@,
        (match (&r.0.value, &p.value) {
            (Some(a), Some(b)) => a@ == b@,
            (None, None) => true,
            _ => false,
        }),
        match &p.params {
            None => r.0.params is None && r.1 is None,
            Some(ps) => {
                &&& (r.0.params matches Some(qs) && spec_params_view_seq(qs@) == spec_strip_filter(
                    spec_params_view_seq(ps@),
                    param_name@,
                ))
                &&& (match &r.1 {
                    Some(v) => spec_removed_value(spec_params_view_seq(ps@), param_name@) == Some(
                        v@,
                    ),
                    None => spec_removed_value(spec_params_view_seq(ps@), param_name@) is None,
                })
            },
        },
{
    let value = match &p.value {
        Some(v) => Some(v.clone()),
        None => None,
    };
    let name = p.name.clone();
    match &p.params {
        None => (Prop { name, params: None, value }, None),
        Some(ps) => {
            let mut kept: Vec<(String, Vec<String>)> = Vec::new();
            let mut removed: Option<String> = None;
            let mut i: usize = 0;
            proof {
                reveal(Seq::filter);
                assert(spec_params_view_seq(ps@.subrange(0, 0)) =~= Seq::<
                    (Seq<char>, Seq<Seq<char>>),
                >::empty());
                assert(spec_params_view_seq(kept@) =~= spec_strip_filter(
                    spec_params_view_seq(ps@.subrange(0, 0)),
                    param_name@,
                ));
            }
            while i < ps.len()
                invariant
                    i <= ps@.len(),
                    spec_params_view_seq(kept@) == spec_strip_filter(
                        spec_params_view_seq(ps@.subrange(0, i as int)),
                        param_name@,
                    ),
                    (match &removed {
                        Some(v) => spec_removed_value(
                            spec_params_view_seq(ps@.subrange(0, i as int)),
                            param_name@,
                        ) == Some(v@),
                        None => spec_removed_value(
                            spec_params_view_seq(ps@.subrange(0, i as int)),
                            param_name@,
                        ) is None,
                    }),
                decreases ps@.len() - i,
            {
                let pair = &ps[i];
                let ghost prefix = spec_params_view_seq(ps@.subrange(0, i as int));
                let ghost upto = spec_params_view_seq(ps@.subrange(0, i + 1));
                proof {
                    assert(upto.drop_last() =~= prefix);
                    assert(upto.last() == spec_param_view(ps@[i as int]));
                    assert(upto =~= prefix.push(spec_param_view(ps@[i as int])));
                }
                if str_eq_str(pair.0.as_str(), param_name) {
                    if pair.1.len() > 0 {
                        removed = Some(pair.1[0].clone());
                    } else {
                        removed = None;
                    }
                    proof {
                        reveal(Seq::filter);
                        assert(upto.last().0 == param_name@);
                        assert(spec_strip_filter(upto, param_name@) =~= spec_strip_filter(
                            prefix,
                            param_name@,
                        ));
                    }
                } else {
                    let ghost kept_prev = spec_params_view_seq(kept@);
                    kept.push((pair.0.clone(), crate::ical_util::clone_string_vec(&pair.1)));
                    proof {
                        reveal(Seq::filter);
                        assert(upto.last().0 != param_name@);
                        assert(spec_strip_filter(upto, param_name@) =~= spec_strip_filter(
                            prefix,
                            param_name@,
                        ).push(upto.last()));
                        assert(spec_params_view_seq(kept@) =~= kept_prev.push(
                            spec_param_view(ps@[i as int]),
                        ));
                    }
                }
                i = i + 1;
            }
            proof {
                assert(ps@.subrange(0, ps@.len() as int) =~= ps@);
            }
            (Prop { name, params: Some(kept), value }, removed)
        },
    }
}

/// The component is a UTC-suffixed `UNTIL` bound.
pub open spec fn spec_until_shape(comp: Seq<char>) -> bool {
    comp.len() >= 7 && comp.subrange(0, 6) == "UNTIL="@ && comp.last() == 'Z'
}

/// `s` is the `UNTIL` bound of `comp` rewritten by offset `off`: the
/// bound's UTC instant shifted by `off` seconds, rendered
/// `YYYYMMDDTHHMMSS` with no UTC suffix.
#[verifier::opaque]
pub open spec fn spec_until_rewritten(comp: Seq<char>, off: int, s: Seq<char>) -> bool {
    match spec_parse_datetime(comp.subrange(6, comp.len() - 1)) {
        Some(p) => exists|q: DateTimeParts|
            #![trigger spec_format_datetime(q)]
            crate::civil::spec_valid_parts(q) && spec_epoch_of(q) == spec_epoch_of(p) + off && s
                == "UNTIL="@ + spec_format_datetime(q),
        None => false,
    }
}

/// `s` is the `UNTIL` bound of `comp` rewritten by some offset smaller
/// than a day — what a standard source zone can have produced.
pub open spec fn spec_until_rewritten_some(comp: Seq<char>, s: Seq<char>) -> bool {
    exists|off: int|
        #![trigger spec_until_rewritten(comp, off, s)]
        -86400 < off < 86400 && spec_until_rewritten(comp, off, s)
}

/// Rewrite one `;`-separated component of an `RRULE` value: a UTC-suffixed
/// `UNTIL` bound is rewritten into the source zone's local representation —
/// the format spec makes `UNTIL` UTC even when the start carries an
/// explicit zone, and without the rewrite the final occurrence near the
/// boundary is silently dropped. Every other component passes unchanged.
/// For a custom source zone the rewritten value is exact: the bound's UTC
/// instant shifted by that zone's offset at that instant.
#[verifier::rlimit(100)]
#[verifier::spinoff_prover]
fn rewrite_until_component(comp: &str, tz: &ResolvedTz) -> (r: Result<String, CalendarError>)
    requires
        tz matches ResolvedTz::Custom(c) ==> c.wf(),
    ensures
        !spec_until_shape(comp@) ==> (r matches Ok(s) && s@ == comp@),
        r matches Ok(s) ==> (s@ == comp@ || (s@.len() >= 6 && s@.subrange(0, 6) == "UNTIL="@)),
        spec_until_shape(comp@) ==> (match spec_parse_datetime(
            comp@.subrange(6, comp@.len() - 1),
        ) {
            None => r is Err,
            Some(p) => match tz {
                ResolvedTz::Custom(c) => {
                    let off = c.timespanset.spec_get(
                        c.timespanset.spec_utc_index(spec_epoch_of(p)),
                    ).spec_total_offset();
                    match r {
                        Ok(s) => spec_until_rewritten(comp@, off, s@),
                        Err(_) => forall|q: DateTimeParts|
                            crate::civil::spec_valid_parts(q) ==> #[trigger] spec_epoch_of(q)
                                != spec_epoch_of(p) + off,
                    }
                },
                ResolvedTz::Standard(_) => r matches Ok(s) ==> spec_until_rewritten_some(
                    comp@,
                    s@,
                ),
            },
        }),
{
    let n = comp.unicode_len();
    proof {
        reveal_strlit("UNTIL=");
    }
    let has_prefix = str_has_prefix(comp, "UNTIL=");
    let ends_z = str_ends_with_char(comp, 'Z');
    if n >= 7 && has_prefix && ends_z {
        let inner = comp.substring_char(6, n - 1);
        proof {
            assert(inner@ =~= comp@.subrange(6, comp@.len() - 1));
        }
        let parts = match parse_datetime_value(inner) {
            Some(p) => p,
            None => {
                proof {
                    assert(spec_parse_datetime(comp@.subrange(6, comp@.len() - 1)) is None);
                }
                return Err(calendar_error("Can't parse UNTIL datetime in RRULE"));
            },
        };
        proof {
            assert(spec_parse_datetime(comp@.subrange(6, comp@.len() - 1)) == Some(parts));
        }
        let utc = epoch_of_parts(&parts);
        let offset: i64 = match tz {
            ResolvedTz::Custom(c) => c.timespanset.offset_from_utc_timestamp(utc).total_offset(),
            ResolvedTz::Standard(stz) => std_zone_offset_from_utc(stz, utc) as i64,
        };
        proof {
            match tz {
                ResolvedTz::Custom(c) => {
                    assert(offset as int == c.timespanset.spec_get(
                        c.timespanset.spec_utc_index(spec_epoch_of(parts)),
                    ).spec_total_offset());
                },
                ResolvedTz::Standard(_) => {},
            }
        }
        let local = utc + offset;
        let local_parts = match parts_of_epoch(local) {
            Some(p) => p,
            None => {
                proof {
                    assert forall|q: DateTimeParts| crate::civil::spec_valid_parts(q)
                        implies #[trigger] spec_epoch_of(q) != spec_epoch_of(parts)
                        + offset by {}
                }
                return Err(calendar_error("UNTIL datetime out of supported range"));
            },
        };
        let mut out = String::from_str("UNTIL=");
        let rendered = format_datetime_value(&local_parts);
        out.append(rendered.as_str());
        proof {
            assert(out@ == "UNTIL="@ + spec_format_datetime(local_parts));
            assert(out@.subrange(0, 6) =~= "UNTIL="@) by {
                assert("UNTIL="@.len() == 6);
            }
            assert(spec_until_rewritten(comp@, offset as int, out@)) by {
                reveal(spec_until_rewritten);
                assert(spec_parse_datetime(comp@.subrange(6, comp@.len() - 1)) == Some(parts));
                assert(crate::civil::spec_valid_parts(local_parts));
                assert(spec_epoch_of(local_parts) == spec_epoch_of(parts) + offset);
            }
            assert(spec_until_shape(comp@)) by {
                assert("UNTIL="@.len() == 6);
                assert(comp@.len() >= 7);
                assert(comp@.subrange(0, 6) == "UNTIL="@);
                assert(comp@.last() == 'Z');
            }
            match tz {
                ResolvedTz::Custom(c) => {
                    let off2 = c.timespanset.spec_get(
                        c.timespanset.spec_utc_index(spec_epoch_of(parts)),
                    ).spec_total_offset();
                    assert(spec_until_rewritten(comp@, off2, out@));
                },
                ResolvedTz::Standard(_) => {
                    assert(-86400 < offset < 86400);
                    assert(spec_until_rewritten_some(comp@, out@));
                },
            }
        }
        Ok(out)
    } else {
        proof {
            if spec_until_shape(comp@) {
                assert("UNTIL="@.len() == 6);
                assert(comp@.len() >= "UNTIL="@.len() && comp@.subrange(0, "UNTIL="@.len() as int)
                    == "UNTIL="@);
                assert(comp@.len() > 0 && comp@.last() == 'Z');
                assert(false);
            }
        }
        Ok(comp.to_owned())
    }
}

/// The broken-down reading of an expanded occurrence stamp.
pub open spec fn spec_stamp_parts(st: OccStamp) -> DateTimeParts {
    DateTimeParts {
        year: st.year,
        month: st.month,
        day: st.day,
        hour: st.hour,
        minute: st.minute,
        second: st.second,
    }
}

/// The stamp's date lies in the supported year range and exists in the
/// calendar.
pub open spec fn spec_stamp_in_range(st: OccStamp) -> bool {
    &&& 1 <= st.year <= 9999
    &&& st.day <= crate::civil::spec_days_in_month(st.year as int, st.month as int)
}

/// Interpret one expanded occurrence stamp's wall-clock reading in the
/// source zone and convert it to an instant; the all-day path instead
/// anchors the stamp's date at local midnight. For a custom source zone
/// the conversion is exact: the stamp's naive reading shifted by the
/// zone's offset under the earlier-offset policy.
fn occurrence_instant(
    st: &OccStamp,
    tz: &ResolvedTz,
) -> (r: Result<i64, CalendarError>)
    requires
        tz matches ResolvedTz::Custom(c) ==> c.wf(),
        spec_stamp_sane(*st),
    ensures
        r matches Ok(e) ==> -8100000000000 <= e <= 8100000000000,
        !spec_stamp_in_range(*st) ==> r is Err,
        match tz {
            ResolvedTz::Custom(c) => spec_stamp_in_range(*st) ==> (
            match c.timespanset.spec_local_resolution(
                spec_epoch_of(spec_stamp_parts(*st)),
            ).spec_earliest() {
                Some(o) => r matches Ok(e) && e == spec_epoch_of(spec_stamp_parts(*st))
                    - o.spec_total_offset(),
                None => r is Err,
            }),
            ResolvedTz::Standard(_) => r matches Ok(e) ==> spec_std_instant_of(*st, e as int),
        },
{
    if st.year < 1 || st.year > 9999 {
        return Err(calendar_error("occurrence date outside the supported year range"));
    }
    if st.day > crate::civil::days_in_month(st.year, st.month) {
        return Err(calendar_error("occurrence date does not exist"));
    }
    let parts = DateTimeParts {
        year: st.year,
        month: st.month,
        day: st.day,
        hour: st.hour,
        minute: st.minute,
        second: st.second,
    };
    let naive = epoch_of_parts(&parts);
    match tz {
        ResolvedTz::Custom(c) => {
            match c.timespanset.offset_from_local_timestamp(naive) {
                LocalResolution::NoSuchLocalTime => Err(
                    calendar_error("occurrence time does not exist in the event's timezone"),
                ),
                LocalResolution::Single(o) => Ok(naive - o.total_offset()),
                LocalResolution::Ambiguous(o, _) => Ok(naive - o.total_offset()),
            }
        },
        ResolvedTz::Standard(stz) => {
            let res = std_zone_offset_from_local(stz, naive);
            match epoch_from_local_policy(naive, res) {
                Some(e) => Ok(e),
                None => Err(
                    calendar_error("occurrence time does not exist in the event's timezone"),
                ),
            }
        },
    }
}

/// The local-midnight instant of one expanded all-day occurrence: the
/// date's midnight naive reading shifted by the configured local zone's
/// offset, so within a day of it.
fn occurrence_day_instant(st: &OccStamp, local_tz: &chrono_tz::Tz) -> (r: Result<
    i64,
    CalendarError,
>)
    requires
        spec_stamp_sane(*st),
    ensures
        r matches Ok(e) ==> -8100000000000 <= e <= 8100000000000,
        !spec_stamp_in_range(*st) ==> r is Err,
        r matches Ok(e) ==> spec_allday_instant_of(*st, e as int),
{
    if st.year < 1 || st.year > 9999 {
        return Err(calendar_error("occurrence date outside the supported year range"));
    }
    if st.day > crate::civil::days_in_month(st.year, st.month) {
        return Err(calendar_error("occurrence date does not exist"));
    }
    let parts = DateTimeParts {
        year: st.year,
        month: st.month,
        day: st.day,
        hour: 0,
        minute: 0,
        second: 0,
    };
    let day_start = epoch_of_parts(&parts);
    match std_zone_day_offset(local_tz, day_start) {
        Some(o) => Ok(day_start - o),
        None => Err(calendar_error("occurrence date does not exist in the local timezone")),
    }
}

/// The year window applied to an event's expansion: stamps within one
/// year before to one year after year `y`.
pub open spec fn spec_event_window(stamps: Seq<OccStamp>, y: int) -> Seq<OccStamp> {
    crate::timezones::spec_window(stamps, y - 1, y - 1, y + 1)
}

/// The custom zone a start property's TZID names, if any.
pub open spec fn spec_custom_source_zone(dp: Prop, entries: Seq<CustomTz>) -> Option<CustomTz> {
    match spec_tzid_values(dp) {
        Some(vs) => if vs@.len() > 0 {
            spec_ctz_lookup(entries, spec_unescape(vs@[0]@))
        } else {
            None
        },
        None => None,
    }
}

/// Instant `e` is the reinterpretation of some sane, in-range expansion
/// stamp in custom zone `c`: its naive reading shifted by the zone's
/// offset under the earlier-offset policy.
pub open spec fn spec_custom_converted(c: CustomTz, st: OccStamp, e: int) -> bool {
    &&& spec_stamp_sane(st)
    &&& spec_stamp_in_range(st)
    &&& (match c.timespanset.spec_local_resolution(
        spec_epoch_of(spec_stamp_parts(st)),
    ).spec_earliest() {
        Some(o) => e == spec_epoch_of(spec_stamp_parts(st)) - o.spec_total_offset(),
        None => false,
    })
}

/// The event has a recurrence rule but its start is a bare local
/// timestamp with no zone hint — the one start shape the expander rejects
/// outright.
pub open spec fn spec_naive_unzoned_start(raw: RawEvent) -> bool {
    match (spec_find_property(raw.properties@, "DTSTART"@), spec_find_property(
        raw.properties@,
        "RRULE"@,
    )) {
        (Some(dp), Some(_)) => match dp.value {
            Some(v) => !spec_is_ical_date(dp) && !spec_has_tzid(dp) && !(v@.len() > 0 && v@.last()
                == 'Z'),
            None => true,
        },
        _ => false,
    }
}

/// The stamp's date at midnight.
pub open spec fn spec_midnight_parts(st: OccStamp) -> DateTimeParts {
    DateTimeParts {
        year: st.year,
        month: st.month,
        day: st.day,
        hour: 0,
        minute: 0,
        second: 0,
    }
}

/// Instant `e` anchors the stamp's date at local midnight: within a day of
/// the date's midnight naive reading, shifted by the zone the caller
/// configured.
pub open spec fn spec_allday_instant_of(st: OccStamp, e: int) -> bool {
    &&& spec_stamp_in_range(st)
    &&& spec_epoch_of(spec_midnight_parts(st)) - 86400 < e < spec_epoch_of(spec_midnight_parts(st))
        + 86400
}

/// Instant `e` is the stamp's wall-clock reading interpreted in some
/// standard zone: within a day of its naive reading.
pub open spec fn spec_std_instant_of(st: OccStamp, e: int) -> bool {
    &&& spec_stamp_in_range(st)
    &&& spec_epoch_of(spec_stamp_parts(st)) - 86400 < e < spec_epoch_of(spec_stamp_parts(st))
        + 86400
}

/// One component's UNTIL rewrite against custom zone `c`: a UTC-suffixed
/// `UNTIL` bound became that instant shifted by the zone's offset at it,
/// rendered in local form; any other component passed unchanged.
pub open spec fn spec_rewrite_piece_ok(c: CustomTz, comp: Seq<char>, piece: Seq<char>) -> bool {
    &&& (!spec_until_shape(comp) ==> piece == comp)
    &&& (spec_until_shape(comp) ==> (match spec_parse_datetime(
        comp.subrange(6, comp.len() - 1),
    ) {
        Some(p) => spec_until_rewritten(
            comp,
            c.timespanset.spec_get(
                c.timespanset.spec_utc_index(spec_epoch_of(p)),
            ).spec_total_offset(),
            piece,
        ),
        None => false,
    }))
}

/// Every component of the recurrence rule's value went through the UNTIL
/// rewrite against custom zone `c`.
pub open spec fn spec_until_rewrite_applied(c: CustomTz, rrule_value: Seq<char>) -> bool {
    exists|rewritten: Seq<Seq<char>>|
        #![trigger rewritten.len()]
        {
            &&& rewritten.len() == crate::strutil::spec_split_char(rrule_value, ';').len()
            &&& (forall|i: int|
                #![trigger rewritten[i]]
                0 <= i < rewritten.len() ==> spec_rewrite_piece_ok(
                    c,
                    crate::strutil::spec_split_char(rrule_value, ';')[i],
                    rewritten[i],
                ))
        }
}

/// The instants are, index for index, the local-midnight anchors of the
/// one-year window of some chronological expansion: one record per
/// windowed occurrence.
pub open spec fn spec_allday_expansion_shape(v: Seq<i64>) -> bool {
    exists|y: int, stamps: Seq<OccStamp>|
        #![trigger spec_event_window(stamps, y)]
        {
            &&& -300000 < y < 300000
            &&& v.len() == spec_event_window(stamps, y).len()
            &&& (forall|k: int|
                0 <= k < v.len() ==> spec_allday_instant_of(
                    spec_event_window(stamps, y)[k],
                    (#[trigger] v[k]) as int,
                ))
        }
}

/// The instants are, index for index, the custom-zone reinterpretations of
/// the one-year window of some chronological expansion.
pub open spec fn spec_custom_expansion_shape(c: CustomTz, v: Seq<i64>) -> bool {
    exists|y: int, stamps: Seq<OccStamp>|
        #![trigger spec_event_window(stamps, y)]
        {
            &&& -300000 < y < 300000
            &&& v.len() == spec_event_window(stamps, y).len()
            &&& (forall|k: int|
                0 <= k < v.len() ==> spec_custom_converted(
                    c,
                    spec_event_window(stamps, y)[k],
                    (#[trigger] v[k]) as int,
                ))
        }
}

/// The instants are, index for index, standard-zone reinterpretations of
/// the one-year window of some chronological expansion.
pub open spec fn spec_standard_expansion_shape(v: Seq<i64>) -> bool {
    exists|y: int, stamps: Seq<OccStamp>|
        #![trigger spec_event_window(stamps, y)]
        {
            &&& -300000 < y < 300000
            &&& v.len() == spec_event_window(stamps, y).len()
            &&& (forall|k: int|
                0 <= k < v.len() ==> spec_std_instant_of(
                    spec_event_window(stamps, y)[k],
                    (#[trigger] v[k]) as int,
                ))
        }
}

/// Expand one event's recurrence definition into concrete occurrence
/// instants. An event without both a start and a recurrence rule has no
/// expansion; a bare local start timestamp with no zone hint is rejected;
/// all paths keep only instants within roughly one year before to one year
/// after now.
pub fn parse_occurrences(
    properties: &Vec<Prop>,
    custom_timezones: &CustomTzMap,
    local_tz: &chrono_tz::Tz,
) -> (r: Result<Vec<i64>, CalendarError>)
    requires
        custom_timezones.wf(),
    ensures
        (spec_find_property(properties@, "DTSTART"@) is None || spec_find_property(
            properties@,
            "RRULE"@,
        ) is None) ==> (r matches Ok(v) && v@.len() == 0),
        match (spec_find_property(properties@, "DTSTART"@), spec_find_property(
            properties@,
            "RRULE"@,
        )) {
            (Some(dp), Some(rrp)) => match dp.value {
                Some(v) => {
                    &&& ((!spec_is_ical_date(dp) && !spec_has_tzid(dp) && !(v@.len() > 0
                        && v@.last() == 'Z')) ==> r is Err)
                    &&& ((!spec_is_ical_date(dp) && !spec_has_tzid(dp) && v@.len() > 0
                        && v@.last() == 'Z') ==> (r matches Ok(out_v) ==> {
                        &&& (forall|i: int, j: int|
                            0 <= i < j < out_v@.len() ==> (#[trigger] out_v@[i]) <= (
                            #[trigger] out_v@[j]))
                        &&& exists|y: int, stamps: Seq<OccStamp>|
                            #![trigger spec_event_window(stamps, y)]
                            -300000 < y < 300000 && out_v@ == spec_event_window(
                                stamps,
                                y,
                            ).map_values(|st: OccStamp| st.epoch)
                    }))
                    &&& (spec_is_ical_date(dp) ==> (r matches Ok(out_v)
                        ==> spec_allday_expansion_shape(out_v@)))
                    &&& (!spec_is_ical_date(dp) ==> (match spec_custom_source_zone(
                        dp,
                        custom_timezones.entries@,
                    ) {
                        Some(c) => {
                            &&& (r matches Ok(out_v) ==> spec_custom_expansion_shape(c, out_v@))
                            &&& (match rrp.value {
                                Some(rv) => r is Ok ==> spec_until_rewrite_applied(c, rv@),
                                None => r is Err,
                            })
                        },
                        None => (spec_has_tzid(dp) ==> (r matches Ok(out_v)
                            ==> spec_standard_expansion_shape(out_v@))),
                    }))
                },
                None => r is Err,
            },
            _ => true,
        },
        r matches Ok(v) ==> v@.len() <= 65535,
        r matches Ok(v) ==> (forall|i: int|
            0 <= i < v@.len() ==> -8100000000000 <= #[trigger] v@[i] <= 8100000000000),
{
    let maybe_dtstart_prop = find_property(properties, "DTSTART");
    let maybe_rrule_prop = find_property(properties, "RRULE");
    let dtstart_prop = match maybe_dtstart_prop {
        Some(p) => p,
        None => {
            return Ok(Vec::new());
        },
    };
    let rrule_prop = match maybe_rrule_prop {
        Some(p) => p,
        None => {
            return Ok(Vec::new());
        },
    };
    let dtstart_time_str = match &dtstart_prop.value {
        Some(v) => v,
        None => {
            return Err(calendar_error("DTSTART has no value"));
        },
    };
    let tzid_values: Option<&Vec<String>> = match &dtstart_prop.params {
        Some(ps) => find_param(ps, "TZID"),
        None => None,
    };
    let has_tzid = match tzid_values {
        Some(vs) => vs.len() > 0,
        None => false,
    };
    let original_tz: Option<ResolvedTz> = if has_tzid {
        let vs = tzid_values.unwrap();
        let tzid = unescape_string(vs[0].as_str());
        match parse_tzid(tzid.as_str(), custom_timezones) {
            Ok(tz) => {
                proof {
                    lemma_ctz_lookup_wf(custom_timezones.entries@, tzid@);
                    assert(spec_tzid_values(*dtstart_prop) == Some(*vs));
                    assert(match spec_custom_source_zone(
                        *dtstart_prop,
                        custom_timezones.entries@,
                    ) {
                        Some(c) => tz matches ResolvedTz::Custom(p) && *p == c,
                        None => tz is Standard,
                    });
                }
                Some(tz)
            },
            Err(e) => {
                let mut msg = String::from_str("error in timezone string parsing: ");
                msg.append(e.as_str());
                return Err(CalendarError::new(msg));
            },
        }
    } else {
        None
    };
    let all_day_event = is_ical_date(dtstart_prop);
    // Strip zone qualifiers: the expansion primitive cannot parse them.
    let mut rule_props: Vec<Prop> = Vec::new();
    let (stripped_dtstart, _) = strip_param(dtstart_prop, "TZID");
    rule_props.push(stripped_dtstart);
    match find_property(properties, "EXDATE") {
        Some(exdate_prop) => {
            let (stripped_exdate, _) = strip_param(exdate_prop, "TZID");
            rule_props.push(stripped_exdate);
        },
        None => (),
    }
    let current_year = current_year_local();
    if all_day_event {
        // A date-only start: expand as naive dates and re-attach local
        // midnight in the target zone per instant.
        rule_props.push(rrule_prop.clone());
        let event_as_string = properties_to_string(&rule_props);
        match rrule_parse(event_as_string.as_str()) {
            Ok(ruleset) => {
                let stamps = rrule_all(ruleset, 65535);
                let windowed = window_stamps(
                    &stamps,
                    current_year - 1,
                    current_year - 1,
                    current_year + 1,
                );
                let mut out: Vec<i64> = Vec::new();
                let mut i: usize = 0;
                proof {
                    assert(windowed@ == spec_event_window(stamps@, current_year as int));
                }
                while i < windowed.len()
                    invariant
                        spec_find_property(properties@, "DTSTART"@) is Some,
                        spec_find_property(properties@, "RRULE"@) is Some,
                        -300000 < current_year < 300000,
                        i <= windowed@.len(),
                        windowed@.len() <= 65535,
                        out@.len() == i,
                        windowed@ == spec_event_window(stamps@, current_year as int),
                        forall|k: int|
                            0 <= k < out@.len() ==> -8100000000000 <= #[trigger] out@[k]
                                <= 8100000000000,
                        forall|k: int|
                            #![trigger out@[k]]
                            0 <= k < out@.len() ==> spec_allday_instant_of(
                                windowed@[k],
                                out@[k] as int,
                            ),
                        forall|k: int|
                            0 <= k < windowed@.len() ==> stamps@.contains(#[trigger] windowed@[k]),
                        forall|k: int|
                            0 <= k < stamps@.len() ==> spec_stamp_sane(#[trigger] stamps@[k]),
                    decreases windowed@.len() - i,
                {
                    proof {
                        assert(stamps@.contains(windowed@[i as int]));
                        let w = choose|w: int|
                            0 <= w < stamps@.len() && stamps@[w] == windowed@[i as int];
                    }
                    let instant = occurrence_day_instant(&windowed[i], local_tz)?;
                    out.push(instant);
                    i = i + 1;
                }
                proof {
                    assert(spec_allday_expansion_shape(out@));
                }
                Ok(out)
            },
            Err(e) => {
                let mut msg = String::from_str("error in RRULE parsing: ");
                msg.append(e.as_str());
                Err(CalendarError::new(msg))
            },
        }
    } else if !has_tzid && !str_ends_with_char(dtstart_time_str.as_str(), 'Z') {
        // A local timestamp with no zone hint has no reliable source zone.
        Err(
            calendar_error(
                "Found an event with a local timestamp without a timezone, this is unsupported",
            ),
        )
    } else if !has_tzid {
        // A UTC start: expand directly, the instants come back exact.
        rule_props.push(rrule_prop.clone());
        let event_as_string = properties_to_string(&rule_props);
        match rrule_parse(event_as_string.as_str()) {
            Ok(ruleset) => {
                let stamps = rrule_all(ruleset, 65535);
                let windowed = window_stamps(
                    &stamps,
                    current_year - 1,
                    current_year - 1,
                    current_year + 1,
                );
                let epochs = crate::timezones::stamp_epochs(&windowed);
                proof {
                    assert forall|k: int| 0 <= k < epochs@.len() implies -8100000000000
                        <= #[trigger] epochs@[k] <= 8100000000000 by {
                        assert(epochs@[k] == windowed@[k].epoch);
                        assert(stamps@.contains(windowed@[k]));
                        let w = choose|w: int|
                            0 <= w < stamps@.len() && stamps@[w] == windowed@[k];
                        assert(spec_stamp_sane(stamps@[w]));
                    }
                    let a = crate::timezones::spec_skip_end(stamps@, current_year - 1 as int);
                    assert forall|i: int, j: int| 0 <= i < j < epochs@.len() implies (
                    #[trigger] epochs@[i]) <= (#[trigger] epochs@[j]) by {
                        assert(epochs@[i] == windowed@[i].epoch);
                        assert(epochs@[j] == windowed@[j].epoch);
                        assert(windowed@[i] == stamps@[a + i]);
                        assert(windowed@[j] == stamps@[a + j]);
                    }
                    assert(windowed@ == spec_event_window(stamps@, current_year as int));
                    assert(epochs@ =~= spec_event_window(stamps@, current_year as int).map_values(
                        |st: OccStamp| st.epoch,
                    ));
                    assert(exists|y: int, stamps2: Seq<OccStamp>|
                        #![trigger spec_event_window(stamps2, y)]
                        -300000 < y < 300000 && epochs@ == spec_event_window(
                            stamps2,
                            y,
                        ).map_values(|st: OccStamp| st.epoch));
                    assert(match spec_custom_source_zone(
                        *dtstart_prop,
                        custom_timezones.entries@,
                    ) {
                        Some(_) => false,
                        None => true,
                    });
                }
                Ok(epochs)
            },
            Err(e) => {
                let mut msg = String::from_str("error in RRULE parsing: ");
                msg.append(e.as_str());
                Err(CalendarError::new(msg))
            },
        }
    } else {
        // An explicitly zoned start: rewrite the UNTIL bound into the
        // source zone, expand as naive values, then reinterpret each result
        // in the source zone.
        let tz = match original_tz {
            Some(t) => t,
            None => {
                return Err(calendar_error("Unknown ical event date specification"));
            },
        };
        let rrule_value = match &rrule_prop.value {
            Some(v) => v,
            None => {
                return Err(calendar_error("RRULE has no value"));
            },
        };
        let components = split_char(rrule_value.as_str(), ';');
        let mut modified = String::new();
        let mut i: usize = 0;
        let ghost mut pieces: Seq<Seq<char>> = Seq::empty();
        while i < components.len()
            invariant
                spec_find_property(properties@, "DTSTART"@) is Some,
                spec_find_property(properties@, "RRULE"@) is Some,
                i <= components@.len(),
                pieces.len() == i,
                components@.map_values(|x: String| x@) == crate::strutil::spec_split_char(
                    rrule_value@,
                    ';',
                ),
                tz matches ResolvedTz::Custom(c) ==> c.wf(),
                (match tz {
                    ResolvedTz::Custom(p) => forall|k: int|
                        #![trigger pieces[k]]
                        0 <= k < i ==> spec_rewrite_piece_ok(
                            *p,
                            crate::strutil::spec_split_char(rrule_value@, ';')[k],
                            pieces[k],
                        ),
                    ResolvedTz::Standard(_) => true,
                }),
            decreases components@.len() - i,
        {
            if i > 0 {
                modified.append(";");
            }
            proof {
                assert(components@.map_values(|x: String| x@)[i as int]
                    == crate::strutil::spec_split_char(rrule_value@, ';')[i as int]);
            }
            let piece = rewrite_until_component(components[i].as_str(), &tz)?;
            proof {
                let comp = crate::strutil::spec_split_char(rrule_value@, ';')[i as int];
                assert(components@[i as int]@ == comp);
                match tz {
                    ResolvedTz::Custom(p) => {
                        if !spec_until_shape(comp) {
                            assert(piece@ == comp);
                        } else {
                            match spec_parse_datetime(comp.subrange(6, comp.len() - 1)) {
                                Some(pp) => {
                                    assert(spec_until_rewritten(
                                        comp,
                                        p.timespanset.spec_get(
                                            p.timespanset.spec_utc_index(spec_epoch_of(pp)),
                                        ).spec_total_offset(),
                                        piece@,
                                    ));
                                },
                                None => {
                                    assert(false);
                                },
                            }
                        }
                        assert(spec_rewrite_piece_ok(*p, comp, piece@));
                    },
                    ResolvedTz::Standard(_) => {},
                }
                let pieces_before = pieces;
                pieces = pieces.push(piece@);
                match tz {
                    ResolvedTz::Custom(p) => {
                        assert forall|k: int| #![trigger pieces[k]] 0 <= k < i + 1
                            implies spec_rewrite_piece_ok(
                            *p,
                            crate::strutil::spec_split_char(rrule_value@, ';')[k],
                            pieces[k],
                        ) by {
                            if k < i {
                                assert(pieces[k] == pieces_before[k]);
                            } else {
                                assert(pieces[k] == piece@);
                            }
                        }
                    },
                    ResolvedTz::Standard(_) => {},
                }
            }
            modified.append(piece.as_str());
            i = i + 1;
        }
        proof {
            match spec_custom_source_zone(*dtstart_prop, custom_timezones.entries@) {
                Some(c) => {
                    assert(pieces.len() == crate::strutil::spec_split_char(
                        rrule_value@,
                        ';',
                    ).len());
                    assert(spec_until_rewrite_applied(c, rrule_value@));
                },
                None => {},
            }
        }
        let new_rule_prop = Prop {
            name: rrule_prop.name.clone(),
            params: match &rrule_prop.params {
                Some(ps) => Some(clone_params(ps)),
                None => None,
            },
            value: Some(modified),
        };
        rule_props.push(new_rule_prop);
        let event_as_string = properties_to_string(&rule_props);
        match rrule_parse(event_as_string.as_str()) {
            Ok(ruleset) => {
                let stamps = rrule_all(ruleset, 65535);
                let windowed = window_stamps(
                    &stamps,
                    current_year - 1,
                    current_year - 1,
                    current_year + 1,
                );
                let mut out: Vec<i64> = Vec::new();
                let mut i: usize = 0;
                proof {
                    assert(windowed@ == spec_event_window(stamps@, current_year as int));
                }
                while i < windowed.len()
                    invariant
                        spec_find_property(properties@, "DTSTART"@) is Some,
                        spec_find_property(properties@, "RRULE"@) is Some,
                        -300000 < current_year < 300000,
                        i <= windowed@.len(),
                        windowed@.len() <= 65535,
                        out@.len() == i,
                        windowed@ == spec_event_window(stamps@, current_year as int),
                        forall|k: int|
                            0 <= k < out@.len() ==> -8100000000000 <= #[trigger] out@[k]
                                <= 8100000000000,
                        tz matches ResolvedTz::Custom(c) ==> c.wf(),
                        (match spec_custom_source_zone(*dtstart_prop, custom_timezones.entries@) {
                            Some(c) => tz matches ResolvedTz::Custom(p) && *p == c,
                            None => tz is Standard,
                        }),
                        forall|k: int|
                            #![trigger out@[k]]
                            0 <= k < out@.len() ==> (match spec_custom_source_zone(
                                *dtstart_prop,
                                custom_timezones.entries@,
                            ) {
                                Some(c) => spec_custom_converted(c, windowed@[k], out@[k] as int),
                                None => spec_std_instant_of(windowed@[k], out@[k] as int),
                            }),
                        forall|k: int|
                            0 <= k < windowed@.len() ==> stamps@.contains(#[trigger] windowed@[k]),
                        forall|k: int|
                            0 <= k < stamps@.len() ==> spec_stamp_sane(#[trigger] stamps@[k]),
                    decreases windowed@.len() - i,
                {
                    proof {
                        assert(stamps@.contains(windowed@[i as int]));
                        let w = choose|w: int|
                            0 <= w < stamps@.len() && stamps@[w] == windowed@[i as int];
                    }
                    let instant = occurrence_instant(&windowed[i], &tz)?;
                    proof {
                        match spec_custom_source_zone(*dtstart_prop, custom_timezones.entries@) {
                            Some(c) => {
                                assert(spec_custom_converted(
                                    c,
                                    windowed@[i as int],
                                    instant as int,
                                ));
                            },
                            None => {
                                assert(spec_std_instant_of(windowed@[i as int], instant as int));
                            },
                        }
                    }
                    out.push(instant);
                    i = i + 1;
                }
                proof {
                    match spec_custom_source_zone(*dtstart_prop, custom_timezones.entries@) {
                        Some(c) => {
                            assert(spec_custom_expansion_shape(c, out@));
                        },
                        None => {
                            assert(spec_standard_expansion_shape(out@));
                        },
                    }
                }
                Ok(out)
            },
            Err(e) => {
                let mut msg = String::from_str("error in RRULE parsing: ");
                msg.append(e.as_str());
                Err(CalendarError::new(msg))
            },
        }
    }
}

/// Whether an event block carries a `RECURRENCE-ID`, marking it as a
/// modifying event: a single-occurrence override of a recurring event.
pub open spec fn spec_has_recurrence_id(e: RawEvent) -> bool {
    spec_find_property(e.properties@, "RECURRENCE-ID"@) is Some
}

/// The `UID` value of an event block, if any.
pub open spec fn spec_uid_of(e: RawEvent) -> Option<Seq<char>> {
    match spec_find_property(e.properties@, "UID"@) {
        Some(p) => match p.value {
            Some(v) => Some(v@),
            None => None,
        },
        None => None,
    }
}

/// The base (non-modifying) events of a feed, in feed order.
pub open spec fn spec_non_modifying(events: Seq<(RawEvent, Event)>) -> Seq<(RawEvent, Event)> {
    events.filter(|p: (RawEvent, Event)| !spec_has_recurrence_id(p.0))
}

/// The modifying events of a feed, in feed order.
pub open spec fn spec_modifying(events: Seq<(RawEvent, Event)>) -> Seq<(RawEvent, Event)> {
    events.filter(|p: (RawEvent, Event)| spec_has_recurrence_id(p.0))
}

/// Split a feed's events into base events and modifying events, keeping
/// feed order in both parts.
pub fn partition_by_recurrence(events: Vec<(RawEvent, Event)>) -> (r: (
    Vec<(RawEvent, Event)>,
    Vec<(RawEvent, Event)>,
))
    ensures
        r.0@ == spec_non_modifying(events@),
        r.1@ == spec_modifying(events@),
{
    let ghost all = events@;
    let mut bases: Vec<(RawEvent, Event)> = Vec::new();
    let mut mods: Vec<(RawEvent, Event)> = Vec::new();
    let mut rest = events;
    proof {
        reveal(Seq::filter);
        assert(all.subrange(0, 0) =~= Seq::<(RawEvent, Event)>::empty());
        assert(bases@ =~= spec_non_modifying(all.subrange(0, 0)));
        assert(mods@ =~= spec_modifying(all.subrange(0, 0)));
        assert(rest@ =~= all.subrange(0, all.len() as int));
    }
    let ghost k: int = 0;
    while rest.len() > 0
        invariant
            0 <= k <= all.len(),
            rest@ == all.subrange(k, all.len() as int),
            bases@ == spec_non_modifying(all.subrange(0, k)),
            mods@ == spec_modifying(all.subrange(0, k)),
        decreases rest@.len(),
    {
        let p = rest.remove(0);
        proof {
            reveal(Seq::filter);
            assert(p == all[k]);
            assert(all.subrange(0, k + 1).drop_last() =~= all.subrange(0, k));
            assert(all.subrange(0, k + 1).last() == all[k]);
        }
        let is_modifying = match find_property(&p.0.properties, "RECURRENCE-ID") {
            Some(_) => true,
            None => false,
        };
        if is_modifying {
            mods.push(p);
        } else {
            bases.push(p);
        }
        proof {
            assert(rest@ =~= all.subrange(k + 1, all.len() as int));
            k = k + 1;
        }
    }
    proof {
        assert(all.subrange(0, all.len() as int) =~= all);
    }
    (bases, mods)
}

/// One modifying event, with the occurrence instant its `RECURRENCE-ID`
/// resolved to.
pub struct ModEntry {
    /// The instant of the occurrence this event overrides.
    pub instant: i64,
    pub ical: RawEvent,
    pub event: Event,
}

/// The modifying events of a feed, grouped by the `UID` of the series each
/// one overrides.
pub struct ModifyingEvents {
    pub groups: Vec<(String, Vec<ModEntry>)>,
}

/// The pair `(ical, ev)` is recorded under `key` in some group.
pub open spec fn spec_group_has_pair(
    groups: Seq<(String, Vec<ModEntry>)>,
    key: Seq<char>,
    ical: RawEvent,
    ev: Event,
) -> bool {
    exists|i: int, j: int|
        0 <= i < groups.len() && 0 <= j < (#[trigger] groups[i]).1@.len() && groups[i].0@ == key
            && (#[trigger] groups[i].1@[j]).ical == ical && groups[i].1@[j].event == ev
}

/// The number of modifications recorded over all groups.
pub open spec fn spec_total_members(groups: Seq<(String, Vec<ModEntry>)>) -> int
    decreases groups.len(),
{
    if groups.len() == 0 {
        0
    } else {
        spec_total_members(groups.drop_last()) + groups.last().1@.len()
    }
}

/// Replacing one group changes the total by that group's size change.
proof fn lemma_total_members_update(
    groups: Seq<(String, Vec<ModEntry>)>,
    i: int,
    g: (String, Vec<ModEntry>),
)
    requires
        0 <= i < groups.len(),
    ensures
        spec_total_members(groups.update(i, g)) == spec_total_members(groups) - groups[i].1@.len()
            + g.1@.len(),
    decreases groups.len(),
{
    let updated = groups.update(i, g);
    if i == groups.len() - 1 {
        assert(updated.drop_last() =~= groups.drop_last());
        assert(updated.last() == g);
    } else {
        assert(updated.drop_last() =~= groups.drop_last().update(i, g));
        assert(updated.last() == groups.last());
        lemma_total_members_update(groups.drop_last(), i, g);
    }
}

/// Appending one group adds that group's size to the total.
proof fn lemma_total_members_push(groups: Seq<(String, Vec<ModEntry>)>, g: (String, Vec<ModEntry>))
    ensures
        spec_total_members(groups.push(g)) == spec_total_members(groups) + g.1@.len(),
{
    assert(groups.push(g).drop_last() =~= groups);
    assert(groups.push(g).last() == g);
}

/// Whether any group carries this key.
pub open spec fn spec_has_key(groups: Seq<(String, Vec<ModEntry>)>, key: Seq<char>) -> bool {
    exists|j: int| 0 <= j < groups.len() && (#[trigger] groups[j]).0@ == key
}

/// The first group with the given key, if any.
pub open spec fn spec_group_lookup(
    groups: Seq<(String, Vec<ModEntry>)>,
    uid: Seq<char>,
) -> Option<Vec<ModEntry>>
    decreases groups.len(),
{
    if groups.len() == 0 {
        None
    } else if groups[0].0@ == uid {
        Some(groups[0].1)
    } else {
        spec_group_lookup(groups.drop_first(), uid)
    }
}

impl ModifyingEvents {
    /// Group keys are distinct, instants are small enough to take part in
    /// end-time arithmetic, and every member is a modifying event of the
    /// series its group is keyed by.
    pub open spec fn wf(self) -> bool {
        &&& (forall|i: int, j: int|
            0 <= i < j < self.groups@.len() ==> (#[trigger] self.groups@[i]).0@ != (
            #[trigger] self.groups@[j]).0@)
        &&& (forall|i: int, j: int|
            0 <= i < self.groups@.len() && 0 <= j < (#[trigger] self.groups@[i]).1@.len()
                ==> -8100000000000 <= (#[trigger] self.groups@[i].1@[j]).instant <= 8100000000000)
        &&& (forall|i: int, j: int|
            0 <= i < self.groups@.len() && 0 <= j < (#[trigger] self.groups@[i]).1@.len()
                ==> spec_has_recurrence_id((#[trigger] self.groups@[i].1@[j]).ical)
                && spec_uid_of(self.groups@[i].1@[j].ical) == Some(self.groups@[i].0@))
    }

    pub fn new() -> (r: ModifyingEvents)
        ensures
            r.groups@.len() == 0,
            r.wf(),
    {
        ModifyingEvents { groups: Vec::new() }
    }

    /// Find the modifications recorded against a series' UID.
    pub fn lookup(&self, uid: &str) -> (r: Option<&Vec<ModEntry>>)
        ensures
            match r {
                Some(ms) => spec_group_lookup(self.groups@, uid@) == Some(*ms),
                None => spec_group_lookup(self.groups@, uid@) is None,
            },
    {
        let mut i: usize = 0;
        proof {
            assert(self.groups@.subrange(0, self.groups@.len() as int) =~= self.groups@);
        }
        while i < self.groups.len()
            invariant
                i <= self.groups@.len(),
                spec_group_lookup(self.groups@, uid@) == spec_group_lookup(
                    self.groups@.subrange(i as int, self.groups@.len() as int),
                    uid@,
                ),
            decreases self.groups@.len() - i,
        {
            proof {
                assert(self.groups@.subrange(i as int, self.groups@.len() as int).drop_first()
                    =~= self.groups@.subrange(i + 1, self.groups@.len() as int));
            }
            if str_eq_str(self.groups[i].0.as_str(), uid) {
                return Some(&self.groups[i].1);
            }
            i = i + 1;
        }
        None
    }

    /// Record one modification against a series' UID, keeping arrival
    /// order within the series.
    pub fn insert(&mut self, uid: String, entry: ModEntry)
        requires
            old(self).wf(),
            -8100000000000 <= entry.instant <= 8100000000000,
            spec_has_recurrence_id(entry.ical),
            spec_uid_of(entry.ical) == Some(uid@),
        ensures
            final(self).wf(),
            forall|i: int|
                0 <= i < final(self).groups@.len() ==> ((#[trigger] final(self).groups@[i]).0@
                    == uid@ || spec_has_key(old(self).groups@, final(self).groups@[i].0@)),
            spec_group_has_pair(final(self).groups@, uid@, entry.ical, entry.event),
            forall|i: int, j: int|
                0 <= i < old(self).groups@.len() && 0 <= j < (
                #[trigger] old(self).groups@[i]).1@.len() ==> spec_group_has_pair(
                    final(self).groups@,
                    old(self).groups@[i].0@,
                    (#[trigger] old(self).groups@[i].1@[j]).ical,
                    old(self).groups@[i].1@[j].event,
                ),
            forall|i: int, j: int|
                0 <= i < final(self).groups@.len() && 0 <= j < (
                #[trigger] final(self).groups@[i]).1@.len() ==> ((
                #[trigger] final(self).groups@[i].1@[j]) == entry || spec_group_has_pair(
                    old(self).groups@,
                    final(self).groups@[i].0@,
                    final(self).groups@[i].1@[j].ical,
                    final(self).groups@[i].1@[j].event,
                )),
            spec_total_members(final(self).groups@) == spec_total_members(old(self).groups@) + 1,
            final(self).groups@.len() <= old(self).groups@.len() + 1,
    {
        let mut i: usize = 0;
        let n = self.groups.len();
        while i < n
            invariant
                self.wf(),
                self.groups@ == old(self).groups@,
                i <= n,
                n == self.groups@.len(),
                -8100000000000 <= entry.instant <= 8100000000000,
                spec_has_recurrence_id(entry.ical),
                spec_uid_of(entry.ical) == Some(uid@),
                forall|j: int| 0 <= j < i ==> (#[trigger] self.groups@[j]).0@ != uid@,
            decreases n - i,
        {
            if str_eq_str(self.groups[i].0.as_str(), uid.as_str()) {
                let ghost prev = self.groups@;
                proof {
                    assert(prev[i as int].0@ == uid@);
                }
                let mut slot: (String, Vec<ModEntry>) = (String::new(), Vec::new());
                self.groups.set_and_swap(i, &mut slot);
                slot.1.push(entry);
                self.groups.set_and_swap(i, &mut slot);
                proof {
                    assert forall|a: int, b: int|
                        0 <= a < b < self.groups@.len() implies (#[trigger] self.groups@[a]).0@
                        != (#[trigger] self.groups@[b]).0@ by {
                        assert(self.groups@[a].0@ == prev[a].0@);
                        assert(self.groups@[b].0@ == prev[b].0@);
                    }
                    assert forall|a: int, b: int|
                        0 <= a < self.groups@.len() && 0 <= b < (
                        #[trigger] self.groups@[a]).1@.len() implies -8100000000000 <= (
                        #[trigger] self.groups@[a].1@[b]).instant <= 8100000000000
                        && spec_has_recurrence_id(self.groups@[a].1@[b].ical) && spec_uid_of(
                        self.groups@[a].1@[b].ical,
                    ) == Some(self.groups@[a].0@) by {
                        if a == i {
                            assert(self.groups@[a].0@ == prev[a].0@);
                            assert(self.groups@[a].1@ == prev[a].1@.push(entry));
                            if b < prev[a as int].1@.len() {
                                assert(self.groups@[a].1@[b] == prev[a].1@[b]);
                                assert(spec_uid_of(prev[a].1@[b].ical) == Some(prev[a].0@));
                            } else {
                                assert(self.groups@[a].1@[b] == entry);
                                assert(spec_uid_of(entry.ical) == Some(uid@));
                            }
                        } else {
                            assert(self.groups@[a] == prev[a]);
                        }
                    }
                    assert forall|k: int| 0 <= k < self.groups@.len() implies ((
                    #[trigger] self.groups@[k]).0@ == uid@ || spec_has_key(
                        old(self).groups@,
                        self.groups@[k].0@,
                    )) by {
                        assert(self.groups@[k].0@ == old(self).groups@[k].0@);
                    }
                    assert(self.groups@ =~= prev.update(i as int, self.groups@[i as int]));
                    lemma_total_members_update(prev, i as int, self.groups@[i as int]);
                    assert(self.groups@[i as int].1@.len() == prev[i as int].1@.len() + 1);
                    assert(self.groups@[i as int].1@[prev[i as int].1@.len() as int] == entry);
                    assert(spec_group_has_pair(self.groups@, uid@, entry.ical, entry.event));
                    assert forall|a: int, b: int|
                        0 <= a < prev.len() && 0 <= b < (#[trigger] prev[a]).1@.len()
                        implies spec_group_has_pair(
                        self.groups@,
                        prev[a].0@,
                        (#[trigger] prev[a].1@[b]).ical,
                        prev[a].1@[b].event,
                    ) by {
                        if a == i {
                            assert(self.groups@[a].1@[b] == prev[a].1@[b]);
                            assert(self.groups@[a].0@ == prev[a].0@);
                        } else {
                            assert(self.groups@[a] == prev[a]);
                        }
                    }
                    assert forall|a: int, b: int|
                        0 <= a < self.groups@.len() && 0 <= b < (
                        #[trigger] self.groups@[a]).1@.len() implies ((
                    #[trigger] self.groups@[a].1@[b]) == entry || spec_group_has_pair(
                        prev,
                        self.groups@[a].0@,
                        self.groups@[a].1@[b].ical,
                        self.groups@[a].1@[b].event,
                    )) by {
                        if a == i {
                            if b < prev[a as int].1@.len() {
                                assert(self.groups@[a].1@[b] == prev[a].1@[b]);
                                assert(self.groups@[a].0@ == prev[a].0@);
                            } else {
                                assert(self.groups@[a].1@[b] == entry);
                            }
                        } else {
                            assert(self.groups@[a] == prev[a]);
                        }
                    }
                }
                return ;
            }
            i = i + 1;
        }
        let ghost prev = self.groups@;
        let mut members: Vec<ModEntry> = Vec::new();
        members.push(entry);
        self.groups.push((uid, members));
        proof {
            assert forall|a: int, b: int|
                0 <= a < b < self.groups@.len() implies (#[trigger] self.groups@[a]).0@ != (
            #[trigger] self.groups@[b]).0@ by {
                if b < prev.len() {
                    assert(self.groups@[a] == prev[a]);
                    assert(self.groups@[b] == prev[b]);
                } else {
                    if a < prev.len() {
                        assert(self.groups@[a] == prev[a]);
                        assert(self.groups@[b].0@ == uid@);
                    }
                }
            }
            assert forall|a: int, b: int|
                0 <= a < self.groups@.len() && 0 <= b < (#[trigger] self.groups@[a]).1@.len()
                implies -8100000000000 <= (#[trigger] self.groups@[a].1@[b]).instant
                <= 8100000000000 && spec_has_recurrence_id(self.groups@[a].1@[b].ical)
                && spec_uid_of(self.groups@[a].1@[b].ical) == Some(self.groups@[a].0@) by {
                if a < prev.len() {
                    assert(self.groups@[a] == prev[a]);
                } else {
                    assert(self.groups@[a].1@[b] == entry);
                    assert(self.groups@[a].0@ == uid@);
                }
            }
            assert forall|k: int| 0 <= k < self.groups@.len() implies ((
            #[trigger] self.groups@[k]).0@ == uid@ || spec_has_key(
                old(self).groups@,
                self.groups@[k].0@,
            )) by {
                if k < prev.len() {
                    assert(self.groups@[k].0@ == old(self).groups@[k].0@);
                }
            }
            lemma_total_members_push(prev, self.groups@[prev.len() as int]);
            assert(self.groups@ =~= prev.push(self.groups@[prev.len() as int]));
            assert(self.groups@[prev.len() as int].1@[0] == entry);
            assert(spec_group_has_pair(self.groups@, uid@, entry.ical, entry.event));
            assert forall|a: int, b: int|
                0 <= a < prev.len() && 0 <= b < (#[trigger] prev[a]).1@.len()
                implies spec_group_has_pair(
                self.groups@,
                prev[a].0@,
                (#[trigger] prev[a].1@[b]).ical,
                prev[a].1@[b].event,
            ) by {
                assert(self.groups@[a] == prev[a]);
            }
            assert forall|a: int, b: int|
                0 <= a < self.groups@.len() && 0 <= b < (#[trigger] self.groups@[a]).1@.len()
                implies ((#[trigger] self.groups@[a].1@[b]) == entry || spec_group_has_pair(
                prev,
                self.groups@[a].0@,
                self.groups@[a].1@[b].ical,
                self.groups@[a].1@[b].event,
            )) by {
                if a < prev.len() {
                    assert(self.groups@[a] == prev[a]);
                } else {
                    assert(self.groups@[a].1@[b] == entry);
                }
            }
        }
    }
}

/// How many of the events carry a UID.
pub open spec fn spec_count_with_uid(mods: Seq<(RawEvent, Event)>) -> int
    decreases mods.len(),
{
    if mods.len() == 0 {
        0
    } else {
        spec_count_with_uid(mods.drop_last()) + (if spec_uid_of(mods.last().0) is Some {
            1int
        } else {
            0int
        })
    }
}

/// `groups` is a grouping of exactly the given modifying events: every
/// recorded modification is one of them verbatim under its own UID, every
/// one of them that carries a UID is recorded under it, keys are distinct,
/// and as many modifications are recorded as there are UID-carrying events.
pub open spec fn spec_is_grouping_of(
    groups: Seq<(String, Vec<ModEntry>)>,
    mods: Seq<(RawEvent, Event)>,
) -> bool {
    &&& (forall|i: int, j: int|
        #![trigger groups[i].1@[j]]
        0 <= i < groups.len() && 0 <= j < groups[i].1@.len() ==> exists|k: int|
            0 <= k < mods.len() && (#[trigger] mods[k]).0 == groups[i].1@[j].ical && mods[k].1
                == groups[i].1@[j].event)
    &&& (forall|i: int, j: int|
        0 <= i < groups.len() && 0 <= j < (#[trigger] groups[i]).1@.len() ==> spec_uid_of(
            (#[trigger] groups[i].1@[j]).ical,
        ) == Some(groups[i].0@))
    &&& (forall|k: int|
        0 <= k < mods.len() ==> (match spec_uid_of((#[trigger] mods[k]).0) {
            Some(u) => spec_group_has_pair(groups, u, mods[k].0, mods[k].1),
            None => true,
        }))
    &&& (forall|i: int, j: int| 0 <= i < j < groups.len() ==> groups[i].0@ != groups[j].0@)
    &&& spec_total_members(groups) == spec_count_with_uid(mods)
}

/// How a successful partition relates to the feed's events: for some
/// grouping of exactly the modifying events, the returned groups are the
/// ones whose series has a base event, and the returned base events are
/// the non-modifying events followed by exactly the members of the
/// orphaned groups, promoted verbatim.
pub open spec fn spec_partition_shape(
    events: Seq<(RawEvent, Event)>,
    retained: Seq<(String, Vec<ModEntry>)>,
    bases_out: Seq<(RawEvent, Event)>,
) -> bool {
    exists|groups: Seq<(String, Vec<ModEntry>)>|
        #![trigger spec_retained_groups(groups, spec_non_modifying(events))]
        {
            &&& spec_is_grouping_of(groups, spec_modifying(events))
            &&& retained == spec_retained_groups(groups, spec_non_modifying(events))
            &&& bases_out == spec_non_modifying(events) + spec_promoted_members(
                groups,
                spec_non_modifying(events),
            )
        }
}

/// The modifying event's override stamp is one the library itself must
/// reject: no value at all, or a malformed UTC-suffixed value.
pub open spec fn spec_unreadable_recurrence_value(raw: RawEvent) -> bool {
    match spec_find_property(raw.properties@, "RECURRENCE-ID"@) {
        Some(rp) => match rp.value {
            None => true,
            Some(v) => !spec_has_tzid(rp) && v@.len() > 0 && v@.last() == 'Z'
                && spec_parse_datetime(v@.drop_last()) is None,
        },
        None => false,
    }
}

/// There are no more modifying events than events.
proof fn lemma_modifying_len(events: Seq<(RawEvent, Event)>)
    ensures
        spec_modifying(events).len() <= events.len(),
    decreases events.len(),
{
    reveal(Seq::filter);
    if events.len() > 0 {
        lemma_modifying_len(events.drop_last());
    }
}

/// Every modifying event of a feed carries a `RECURRENCE-ID`.
proof fn lemma_modifying_have_recurrence_id(events: Seq<(RawEvent, Event)>, i: int)
    requires
        0 <= i < spec_modifying(events).len(),
    ensures
        spec_has_recurrence_id(spec_modifying(events)[i].0),
    decreases events.len(),
{
    reveal(Seq::filter);
    if events.len() > 0 {
        let shorter = spec_modifying(events.drop_last());
        if spec_has_recurrence_id(events.last().0) {
            if i < spec_modifying(events).len() - 1 {
                assert(spec_modifying(events)[i] == shorter[i]);
                lemma_modifying_have_recurrence_id(events.drop_last(), i);
            }
        } else {
            lemma_modifying_have_recurrence_id(events.drop_last(), i);
        }
    }
}

/// Whether some base event carries this UID.
pub open spec fn spec_has_base(uid: Seq<char>, bases: Seq<(RawEvent, Event)>) -> bool {
    exists|i: int| 0 <= i < bases.len() && spec_uid_of((#[trigger] bases[i]).0) == Some(uid)
}

/// Whether some base event carries this UID.
fn has_base_uid(bases: &Vec<(RawEvent, Event)>, uid: &str) -> (r: bool)
    ensures
        r == spec_has_base(uid@, bases@),
{
    let mut i: usize = 0;
    while i < bases.len()
        invariant
            i <= bases@.len(),
            forall|j: int| 0 <= j < i ==> spec_uid_of((#[trigger] bases@[j]).0) != Some(uid@),
        decreases bases@.len() - i,
    {
        match find_property_value(&bases[i].0.properties, "UID") {
            Some(v) => {
                if str_eq_str(v.as_str(), uid) {
                    proof {
                        assert(spec_uid_of(bases@[i as int].0) == Some(uid@));
                    }
                    return true;
                }
            },
            None => (),
        }
        i = i + 1;
    }
    false
}

/// Partition the feed's events into modifying events — grouped by the UID
/// of the series each one overrides, with its override instant resolved —
/// and base events. A modifying event whose UID has no base event is
/// promoted to a standalone base event rather than silently dropped; the
/// base events keep feed order and come first.
pub fn partition_modifying_events(
    events: Vec<(RawEvent, Event)>,
    calendar_timezones: &CustomTzMap,
    local_tz: &chrono_tz::Tz,
) -> (r: Result<(ModifyingEvents, Vec<(RawEvent, Event)>), CalendarError>)
    requires
        calendar_timezones.wf(),
    ensures
        events@.len() == 0 ==> (r matches Ok(p) && p.0.groups@.len() == 0 && p.1@.len() == 0),
        match r {
            Ok((modifying, bases_out)) => {
                &&& bases_out@.len() >= spec_non_modifying(events@).len()
                &&& (forall|i: int|
                    0 <= i < spec_non_modifying(events@).len() ==> #[trigger] bases_out@[i]
                        == spec_non_modifying(events@)[i])
                &&& (forall|i: int|
                    0 <= i < modifying.groups@.len() ==> spec_has_base(
                        (#[trigger] modifying.groups@[i]).0@,
                        spec_non_modifying(events@),
                    ))
                &&& (forall|i: int, j: int|
                    0 <= i < modifying.groups@.len() && 0 <= j < (
                    #[trigger] modifying.groups@[i]).1@.len() ==> spec_has_recurrence_id(
                        (#[trigger] modifying.groups@[i].1@[j]).ical,
                    ) && spec_uid_of(modifying.groups@[i].1@[j].ical) == Some(
                        modifying.groups@[i].0@,
                    ))
                &&& spec_partition_shape(events@, modifying.groups@, bases_out@)
                &&& (forall|k: int|
                    0 <= k < spec_modifying(events@).len() ==> !spec_unreadable_recurrence_value(
                        (#[trigger] spec_modifying(events@)[k]).0,
                    ))
            },
            Err(_) => true,
        },
{
    let (bases, mods) = partition_by_recurrence(events);
    // Resolve each modifying event's override instant; an unreadable
    // instant aborts the whole feed, and an event with no UID cannot
    // override anything and is set aside.
    let ghost all = mods@;
    let mut collected = ModifyingEvents::new();
    let mut rest = mods;
    let ghost k: int = 0;
    proof {
        assert(rest@ =~= all.subrange(0, all.len() as int));
        assert forall|k2: int| 0 <= k2 < all.len() implies spec_has_recurrence_id(
            (#[trigger] all[k2]).0,
        ) by {
            lemma_modifying_have_recurrence_id(events@, k2);
        }
        assert(all.subrange(0, 0) =~= Seq::<(RawEvent, Event)>::empty());
        lemma_modifying_len(events@);
    }
    while rest.len() > 0
        invariant
            calendar_timezones.wf(),
            collected.wf(),
            0 <= k <= all.len(),
            collected.groups@.len() <= k,
            all.len() <= events@.len(),
            rest@ == all.subrange(k, all.len() as int),
            forall|k2: int| 0 <= k2 < all.len() ==> spec_has_recurrence_id((#[trigger] all[k2]).0),
            forall|i: int, j: int|
                #![trigger collected.groups@[i].1@[j]]
                0 <= i < collected.groups@.len() && 0 <= j < collected.groups@[i].1@.len()
                    ==> exists|k2: int|
                    0 <= k2 < k && (#[trigger] all[k2]).0 == collected.groups@[i].1@[j].ical
                        && all[k2].1 == collected.groups@[i].1@[j].event,
            forall|k2: int|
                0 <= k2 < k ==> (match spec_uid_of((#[trigger] all[k2]).0) {
                    Some(u) => spec_group_has_pair(collected.groups@, u, all[k2].0, all[k2].1),
                    None => true,
                }),
            forall|k2: int|
                0 <= k2 < k ==> !spec_unreadable_recurrence_value((#[trigger] all[k2]).0),
            spec_total_members(collected.groups@) == spec_count_with_uid(all.subrange(0, k)),
        decreases rest@.len(),
    {
        let p = rest.remove(0);
        proof {
            assert(p == all[k]);
            assert(rest@ =~= all.subrange(k + 1, all.len() as int));
            assert(all.subrange(0, k + 1).drop_last() =~= all.subrange(0, k));
            assert(all.subrange(0, k + 1).last() == all[k]);
        }
        match find_property(&p.0.properties, "RECURRENCE-ID") {
            Some(rp) => {
                let instant = extract_ical_datetime(rp, calendar_timezones, local_tz)?;
                match find_property_value(&p.0.properties, "UID") {
                    Some(uid) => {
                        let ghost before = collected.groups@;
                        let ghost entry_pair = p;
                        let (ical, event) = p;
                        collected.insert(uid, ModEntry { instant, ical, event });
                        proof {
                            assert forall|i: int, j: int|
                                #![trigger collected.groups@[i].1@[j]]
                                0 <= i < collected.groups@.len() && 0 <= j
                                    < collected.groups@[i].1@.len() implies exists|k2: int|
                                0 <= k2 < k + 1 && (#[trigger] all[k2]).0
                                    == collected.groups@[i].1@[j].ical && all[k2].1
                                    == collected.groups@[i].1@[j].event by {
                                let m = collected.groups@[i].1@[j];
                                if m.ical == entry_pair.0 && m.event == entry_pair.1 {
                                    assert(all[k].0 == m.ical && all[k].1 == m.event);
                                } else {
                                    assert(spec_group_has_pair(
                                        before,
                                        collected.groups@[i].0@,
                                        m.ical,
                                        m.event,
                                    ));
                                    let (i2, j2) = choose|i2: int, j2: int|
                                        0 <= i2 < before.len() && 0 <= j2 < (
                                        #[trigger] before[i2]).1@.len() && before[i2].0@
                                            == collected.groups@[i].0@ && (
                                        #[trigger] before[i2].1@[j2]).ical == m.ical
                                            && before[i2].1@[j2].event == m.event;
                                    assert(0 <= i2 < before.len() && 0 <= j2
                                        < before[i2].1@.len());
                                }
                            }
                            assert forall|k2: int| 0 <= k2 < k + 1 implies (
                            match spec_uid_of((#[trigger] all[k2]).0) {
                                Some(u) => spec_group_has_pair(
                                    collected.groups@,
                                    u,
                                    all[k2].0,
                                    all[k2].1,
                                ),
                                None => true,
                            }) by {
                                if k2 < k {
                                    match spec_uid_of(all[k2].0) {
                                        Some(u) => {
                                            assert(spec_group_has_pair(
                                                before,
                                                u,
                                                all[k2].0,
                                                all[k2].1,
                                            ));
                                            let (i2, j2) = choose|i2: int, j2: int|
                                                0 <= i2 < before.len() && 0 <= j2 < (
                                                #[trigger] before[i2]).1@.len() && before[i2].0@
                                                    == u && (#[trigger] before[i2].1@[j2]).ical
                                                    == all[k2].0 && before[i2].1@[j2].event
                                                    == all[k2].1;
                                            assert(spec_group_has_pair(
                                                collected.groups@,
                                                before[i2].0@,
                                                before[i2].1@[j2].ical,
                                                before[i2].1@[j2].event,
                                            ));
                                        },
                                        None => {},
                                    }
                                } else {
                                    assert(spec_uid_of(all[k2].0) == Some(uid@));
                                }
                            }
                            assert(spec_count_with_uid(all.subrange(0, k + 1))
                                == spec_count_with_uid(all.subrange(0, k)) + 1);
                        }
                    },
                    None => {
                        proof {
                            assert(spec_uid_of(all[k].0) is None);
                            assert(spec_count_with_uid(all.subrange(0, k + 1))
                                == spec_count_with_uid(all.subrange(0, k)));
                        }
                    },
                }
            },
            None => {
                proof {
                    assert(spec_has_recurrence_id(all[k].0));
                    assert(false);
                }
            },
        }
        proof {
            k = k + 1;
        }
    }
    proof {
        assert(all.subrange(0, all.len() as int) =~= all);
        assert(spec_is_grouping_of(collected.groups@, all));
    }
    // Promotion: a modifying event whose UID has no base event stands on
    // its own and joins the base events instead.
    let ghost collected_view = collected.groups@;
    let ghost base_view = bases@;
    let ghost collected_wf = collected;
    let (modifying, bases_out) = promote_orphans(collected, bases);
    proof {
        assert(base_view == spec_non_modifying(events@));
        assert(spec_is_grouping_of(collected_view, spec_modifying(events@)));
        assert(modifying.groups@ == spec_retained_groups(
            collected_view,
            spec_non_modifying(events@),
        ));
        assert(bases_out@ == spec_non_modifying(events@) + spec_promoted_members(
            collected_view,
            spec_non_modifying(events@),
        ));
        assert(spec_partition_shape(events@, modifying.groups@, bases_out@));
        if events@.len() == 0 {
            reveal(Seq::filter);
            assert(spec_non_modifying(events@).len() == 0);
            assert(collected_view.len() == 0);
            assert(spec_retained_groups(collected_view, base_view) =~= Seq::<
                (String, Vec<ModEntry>),
            >::empty());
            assert(spec_promoted_members(collected_view, base_view) =~= Seq::<
                (RawEvent, Event),
            >::empty());
        }
    }
    proof {
        assert forall|i: int, j: int|
            0 <= i < modifying.groups@.len() && 0 <= j < (
            #[trigger] modifying.groups@[i]).1@.len() implies spec_has_recurrence_id(
            (#[trigger] modifying.groups@[i].1@[j]).ical,
        ) && spec_uid_of(modifying.groups@[i].1@[j].ical) == Some(modifying.groups@[i].0@) by {
            lemma_retained_subset(collected_view, base_view, i);
            let w = choose|w: int|
                0 <= w < collected_view.len() && spec_retained_groups(collected_view, base_view)[i]
                    == #[trigger] collected_view[w];
            assert(collected_wf.wf());
            assert(spec_has_recurrence_id(collected_view[w].1@[j].ical));
        }
    }
    Ok((modifying, bases_out))
}

/// Every retained group is one of the input groups.
pub proof fn lemma_retained_subset(
    groups: Seq<(String, Vec<ModEntry>)>,
    bases: Seq<(RawEvent, Event)>,
    i: int,
)
    requires
        0 <= i < spec_retained_groups(groups, bases).len(),
    ensures
        exists|j: int|
            0 <= j < groups.len() && spec_retained_groups(groups, bases)[i] == #[trigger] groups[j],
    decreases groups.len(),
{
    reveal(Seq::filter);
    if groups.len() > 0 {
        let shorter = spec_retained_groups(groups.drop_last(), bases);
        if spec_has_base(groups.last().0@, bases) {
            if i < spec_retained_groups(groups, bases).len() - 1 {
                assert(spec_retained_groups(groups, bases)[i] == shorter[i]);
                lemma_retained_subset(groups.drop_last(), bases, i);
                let j = choose|j: int|
                    0 <= j < groups.drop_last().len() && shorter[i] == #[trigger] groups.drop_last(
                    )[j];
                assert(groups.drop_last()[j] == groups[j]);
            } else {
                assert(spec_retained_groups(groups, bases)[i] == groups[groups.len() - 1]);
            }
        } else {
            lemma_retained_subset(groups.drop_last(), bases, i);
            let j = choose|j: int|
                0 <= j < groups.drop_last().len() && shorter[i] == #[trigger] groups.drop_last(
                )[j];
            assert(groups.drop_last()[j] == groups[j]);
        }
    }
}

/// The groups whose series has a base event: the ones reconciliation will
/// fold in.
pub open spec fn spec_retained_groups(
    groups: Seq<(String, Vec<ModEntry>)>,
    bases: Seq<(RawEvent, Event)>,
) -> Seq<(String, Vec<ModEntry>)> {
    groups.filter(|g: (String, Vec<ModEntry>)| spec_has_base(g.0@, bases))
}

/// The members of the groups whose series has no base event, in group
/// order: the events promoted to stand on their own.
pub open spec fn spec_promoted_members(
    groups: Seq<(String, Vec<ModEntry>)>,
    bases: Seq<(RawEvent, Event)>,
) -> Seq<(RawEvent, Event)>
    decreases groups.len(),
{
    if groups.len() == 0 {
        Seq::empty()
    } else {
        let head = if !spec_has_base(groups[0].0@, bases) {
            groups[0].1@.map_values(|m: ModEntry| (m.ical, m.event))
        } else {
            Seq::<(RawEvent, Event)>::empty()
        };
        head + spec_promoted_members(groups.drop_first(), bases)
    }
}

/// Split the modification groups by whether their series has a base event:
/// groups with one are kept for reconciliation, and the members of the
/// others are appended to the base events, promoted to stand on their own.
pub fn promote_orphans(groups: ModifyingEvents, bases: Vec<(RawEvent, Event)>) -> (r: (
    ModifyingEvents,
    Vec<(RawEvent, Event)>,
))
    ensures
        r.0.groups@ == spec_retained_groups(groups.groups@, bases@),
        r.1@ == bases@ + spec_promoted_members(groups.groups@, bases@),
        forall|i: int|
            0 <= i < r.0.groups@.len() ==> spec_has_base((#[trigger] r.0.groups@[i]).0@, bases@),
{
    let ghost all = groups.groups@;
    let ghost base_view = bases@;
    let mut retained = ModifyingEvents { groups: Vec::new() };
    let mut promoted: Vec<(RawEvent, Event)> = Vec::new();
    let mut rest = groups.groups;
    proof {
        reveal(Seq::filter);
        assert(all.subrange(0, 0) =~= Seq::<(String, Vec<ModEntry>)>::empty());
        assert(retained.groups@ =~= spec_retained_groups(all.subrange(0, 0), base_view));
        assert(rest@ =~= all.subrange(0, all.len() as int));
        assert(promoted@ + spec_promoted_members(rest@, base_view) =~= spec_promoted_members(
            all,
            base_view,
        ));
    }
    let ghost k: int = 0;
    while rest.len() > 0
        invariant
            0 <= k <= all.len(),
            base_view == bases@,
            rest@ == all.subrange(k, all.len() as int),
            retained.groups@ == spec_retained_groups(all.subrange(0, k), base_view),
            forall|i: int|
                0 <= i < retained.groups@.len() ==> spec_has_base(
                    (#[trigger] retained.groups@[i]).0@,
                    base_view,
                ),
            spec_promoted_members(all, base_view) == promoted@ + spec_promoted_members(
                rest@,
                base_view,
            ),
        decreases rest@.len(),
    {
        let ghost rest_prev = rest@;
        let group = rest.remove(0);
        proof {
            assert(group == all[k]);
            assert(rest@ =~= all.subrange(k + 1, all.len() as int));
            assert(rest_prev.drop_first() =~= rest@);
            assert(all.subrange(0, k + 1).drop_last() =~= all.subrange(0, k));
            assert(all.subrange(0, k + 1).last() == all[k]);
        }
        let with_base = has_base_uid(&bases, group.0.as_str());
        if with_base {
            let ghost retained_prev = retained.groups@;
            retained.groups.push(group);
            proof {
                reveal(Seq::filter);
                assert(spec_retained_groups(all.subrange(0, k + 1), base_view)
                    =~= spec_retained_groups(all.subrange(0, k), base_view).push(all[k]));
                assert(spec_promoted_members(rest_prev, base_view) =~= spec_promoted_members(
                    rest@,
                    base_view,
                ));
            }
        } else {
            proof {
                reveal(Seq::filter);
                assert(spec_retained_groups(all.subrange(0, k + 1), base_view)
                    =~= spec_retained_groups(all.subrange(0, k), base_view));
            }
            let ghost promoted_before = promoted@;
            let ghost members_all = group.1@;
            let mut members = group.1;
            let ghost mk: int = 0;
            proof {
                assert(members@ =~= members_all.subrange(0, members_all.len() as int));
                assert(promoted@ =~= promoted_before + members_all.map_values(
                    |m: ModEntry| (m.ical, m.event),
                ).subrange(0, 0));
            }
            while members.len() > 0
                invariant
                    0 <= mk <= members_all.len(),
                    members@ == members_all.subrange(mk, members_all.len() as int),
                    promoted@ == promoted_before + members_all.map_values(
                        |m: ModEntry| (m.ical, m.event),
                    ).subrange(0, mk),
                decreases members@.len(),
            {
                let m = members.remove(0);
                proof {
                    assert(m == members_all[mk]);
                    assert(members@ =~= members_all.subrange(mk + 1, members_all.len() as int));
                }
                promoted.push((m.ical, m.event));
                proof {
                    assert(promoted@ =~= promoted_before + members_all.map_values(
                        |m: ModEntry| (m.ical, m.event),
                    ).subrange(0, mk + 1));
                    mk = mk + 1;
                }
            }
            proof {
                assert(members_all.map_values(|m: ModEntry| (m.ical, m.event)).subrange(
                    0,
                    members_all.len() as int,
                ) =~= members_all.map_values(|m: ModEntry| (m.ical, m.event)));
                assert(spec_promoted_members(rest_prev, base_view) == members_all.map_values(
                    |m: ModEntry| (m.ical, m.event),
                ) + spec_promoted_members(rest@, base_view));
                assert(promoted@ + spec_promoted_members(rest@, base_view)
                    =~= promoted_before + spec_promoted_members(rest_prev, base_view));
            }
        }
        proof {
            k = k + 1;
        }
    }
    proof {
        assert(all.subrange(0, all.len() as int) =~= all);
        assert(rest@ =~= Seq::<(String, Vec<ModEntry>)>::empty());
        assert(spec_promoted_members(rest@, base_view) =~= Seq::<(RawEvent, Event)>::empty());
        assert(promoted@ =~= spec_promoted_members(all, base_view));
    }
    let mut out_bases = bases;
    let mut extra = promoted;
    let ghost extra_all = extra@;
    let ghost e: int = 0;
    proof {
        assert(extra@ =~= extra_all.subrange(0, extra_all.len() as int));
        assert(out_bases@ =~= base_view + extra_all.subrange(0, 0));
    }
    while extra.len() > 0
        invariant
            0 <= e <= extra_all.len(),
            extra@ == extra_all.subrange(e, extra_all.len() as int),
            out_bases@ == base_view + extra_all.subrange(0, e),
        decreases extra@.len(),
    {
        let p = extra.remove(0);
        proof {
            assert(p == extra_all[e]);
            assert(extra@ =~= extra_all.subrange(e + 1, extra_all.len() as int));
        }
        out_bases.push(p);
        proof {
            assert(out_bases@ =~= base_view + extra_all.subrange(0, e + 1));
            e = e + 1;
        }
    }
    proof {
        assert(extra_all.subrange(0, extra_all.len() as int) =~= extra_all);
    }
    (retained, out_bases)
}

/// Every retained group's series has a base event.
pub proof fn lemma_retained_groups_have_bases(
    groups: Seq<(String, Vec<ModEntry>)>,
    bases: Seq<(RawEvent, Event)>,
    i: int,
)
    requires
        0 <= i < spec_retained_groups(groups, bases).len(),
    ensures
        spec_has_base(spec_retained_groups(groups, bases)[i].0@, bases),
    decreases groups.len(),
{
    reveal(Seq::filter);
    if groups.len() > 0 {
        let shorter = spec_retained_groups(groups.drop_last(), bases);
        if spec_has_base(groups.last().0@, bases) {
            if i < spec_retained_groups(groups, bases).len() - 1 {
                assert(spec_retained_groups(groups, bases)[i] == shorter[i]);
                lemma_retained_groups_have_bases(groups.drop_last(), bases, i);
            }
        } else {
            lemma_retained_groups_have_bases(groups.drop_last(), bases, i);
        }
    }
}

/// Promotion edge case: a modifying event whose series has no base event
/// appears verbatim among the promoted events, and its series is not
/// reconciled against any occurrence — no retained group carries its UID.
pub proof fn lemma_orphan_promoted(
    groups: Seq<(String, Vec<ModEntry>)>,
    bases: Seq<(RawEvent, Event)>,
    k: int,
    j: int,
)
    requires
        0 <= k < groups.len(),
        !spec_has_base(groups[k].0@, bases),
        0 <= j < groups[k].1@.len(),
    ensures
        spec_promoted_members(groups, bases).contains(
            (groups[k].1@[j].ical, groups[k].1@[j].event),
        ),
        forall|i: int|
            0 <= i < spec_retained_groups(groups, bases).len() ==> (
            #[trigger] spec_retained_groups(groups, bases)[i]).0@ != groups[k].0@,
    decreases k,
{
    let member = (groups[k].1@[j].ical, groups[k].1@[j].event);
    let head = if !spec_has_base(groups[0].0@, bases) {
        groups[0].1@.map_values(|m: ModEntry| (m.ical, m.event))
    } else {
        Seq::<(RawEvent, Event)>::empty()
    };
    let tail = spec_promoted_members(groups.drop_first(), bases);
    if k == 0 {
        assert(head[j] == member);
        assert((head + tail)[j] == member);
        assert(spec_promoted_members(groups, bases).contains(member));
    } else {
        assert(groups.drop_first()[k - 1] == groups[k]);
        lemma_orphan_promoted(groups.drop_first(), bases, k - 1, j);
        let w = choose|w: int| 0 <= w < tail.len() && tail[w] == member;
        assert((head + tail)[head.len() + w] == member);
        assert(spec_promoted_members(groups, bases).contains(member));
    }
    assert forall|i: int| 0 <= i < spec_retained_groups(groups, bases).len() implies (
    #[trigger] spec_retained_groups(groups, bases)[i]).0@ != groups[k].0@ by {
        lemma_retained_groups_have_bases(groups, bases, i);
    }
}

/// The first modification recorded for exactly this occurrence instant.
pub open spec fn spec_first_matching(ms: Seq<ModEntry>, occ: int) -> Option<ModEntry>
    decreases ms.len(),
{
    if ms.len() == 0 {
        None
    } else if ms[0].instant == occ {
        Some(ms[0])
    } else {
        spec_first_matching(ms.drop_first(), occ)
    }
}

/// The record synthesized for an unmodified occurrence: the base event's
/// content at the occurrence instant, keeping the base event's duration.
pub open spec fn spec_synthesized(base: EventView, occ: int) -> EventView {
    EventView {
        summary: base.summary,
        description: base.description,
        location: base.location,
        meeturl: base.meeturl,
        all_day: base.all_day,
        start_timestamp: occ,
        end_timestamp: occ + (base.end_timestamp - base.start_timestamp),
        num_participants: base.num_participants,
    }
}

/// What one occurrence slot yields: the first modification whose resolved
/// instant equals the slot's instant exactly, and otherwise the
/// synthesized record.
pub open spec fn spec_reconciled(occ: int, base: EventView, ms: Seq<ModEntry>) -> EventView {
    match spec_first_matching(ms, occ) {
        Some(m) => m.event.eview(),
        None => spec_synthesized(base, occ),
    }
}

/// Fill one occurrence slot: a modification with the matching instant
/// replaces the synthesized record.
pub fn reconcile_occurrence(occ: i64, base: &Event, ms: &Vec<ModEntry>) -> (r: Event)
    requires
        -8100000000000 <= occ <= 8100000000000,
        -63000000000 <= base.start_timestamp <= 255000000000,
        -63000000000 <= base.end_timestamp <= 255000000000,
    ensures
        r.eview() == spec_reconciled(occ as int, base.eview(), ms@),
{
    let mut i: usize = 0;
    proof {
        assert(ms@.subrange(0, ms@.len() as int) =~= ms@);
    }
    while i < ms.len()
        invariant
            i <= ms@.len(),
            spec_first_matching(ms@, occ as int) == spec_first_matching(
                ms@.subrange(i as int, ms@.len() as int),
                occ as int,
            ),
        decreases ms@.len() - i,
    {
        proof {
            assert(ms@.subrange(i as int, ms@.len() as int).drop_first() =~= ms@.subrange(
                i + 1,
                ms@.len() as int,
            ));
        }
        if ms[i].instant == occ {
            return ms[i].event.clone();
        }
        i = i + 1;
    }
    let duration = base.end_timestamp - base.start_timestamp;
    Event {
        summary: base.summary.clone(),
        description: base.description.clone(),
        location: base.location.clone(),
        meeturl: match &base.meeturl {
            Some(u) => Some(u.clone()),
            None => None,
        },
        all_day: base.all_day,
        start_timestamp: occ,
        end_timestamp: occ + duration,
        num_participants: base.num_participants,
    }
}

/// Reconciliation precedence: a recurring event expands to occurrence
/// slots, and a single modifying event whose resolved instant equals one
/// slot's instant replaces exactly that slot's record, while every other
/// slot keeps its synthesized record.
pub proof fn lemma_reconciliation_precedence(
    occ1: int,
    occ2: int,
    occ3: int,
    base: EventView,
    m: ModEntry,
)
    requires
        m.instant == occ2,
        occ1 != occ2,
        occ3 != occ2,
    ensures
        spec_reconciled(occ2, base, seq![m]) == m.event.eview(),
        spec_reconciled(occ1, base, seq![m]) == spec_synthesized(base, occ1),
        spec_reconciled(occ3, base, seq![m]) == spec_synthesized(base, occ3),
{
    assert(seq![m].drop_first() =~= Seq::<ModEntry>::empty());
    assert(spec_first_matching(Seq::<ModEntry>::empty(), occ1) is None);
    assert(spec_first_matching(Seq::<ModEntry>::empty(), occ3) is None);
}

/// The modifications recorded for a series, or none: what the reconciler
/// tries against each occurrence slot.
pub open spec fn spec_mods_for(
    groups: Seq<(String, Vec<ModEntry>)>,
    uid: Option<Seq<char>>,
) -> Seq<ModEntry> {
    match uid {
        Some(u) => match spec_group_lookup(groups, u) {
            Some(ms) => ms@,
            None => Seq::empty(),
        },
        None => Seq::empty(),
    }
}

/// Replace each expanded occurrence of a recurring event with either the
/// modifying event recorded for exactly that instant, or a synthesized
/// record with the base event's content and duration. All modifications of
/// the series are tried for every occurrence.
pub fn calculate_occurrences(
    ical_event: &RawEvent,
    parsed_event: &Event,
    occurrences: &Vec<i64>,
    modifying_events: &ModifyingEvents,
) -> (r: Vec<Event>)
    requires
        forall|i: int|
            0 <= i < occurrences@.len() ==> -8100000000000 <= #[trigger] occurrences@[i]
                <= 8100000000000,
        -63000000000 <= parsed_event.start_timestamp <= 255000000000,
        -63000000000 <= parsed_event.end_timestamp <= 255000000000,
    ensures
        r@.len() == occurrences@.len(),
        forall|i: int|
            0 <= i < r@.len() ==> (#[trigger] r@[i]).eview() == spec_reconciled(
                occurrences@[i] as int,
                parsed_event.eview(),
                spec_mods_for(modifying_events.groups@, spec_uid_of(*ical_event)),
            ),
{
    let empty: Vec<ModEntry> = Vec::new();
    let ms: &Vec<ModEntry> = match find_property_value(&ical_event.properties, "UID") {
        Some(uid) => match modifying_events.lookup(uid.as_str()) {
            Some(group) => group,
            None => &empty,
        },
        None => &empty,
    };
    proof {
        assert(ms@ == spec_mods_for(modifying_events.groups@, spec_uid_of(*ical_event)));
    }
    let mut out: Vec<Event> = Vec::new();
    let mut i: usize = 0;
    while i < occurrences.len()
        invariant
            i <= occurrences@.len(),
            out@.len() == i,
            forall|k: int|
                0 <= k < occurrences@.len() ==> -8100000000000 <= #[trigger] occurrences@[k]
                    <= 8100000000000,
            -63000000000 <= parsed_event.start_timestamp <= 255000000000,
            -63000000000 <= parsed_event.end_timestamp <= 255000000000,
            ms@ == spec_mods_for(modifying_events.groups@, spec_uid_of(*ical_event)),
            forall|k: int|
                0 <= k < i ==> (#[trigger] out@[k]).eview() == spec_reconciled(
                    occurrences@[k] as int,
                    parsed_event.eview(),
                    spec_mods_for(modifying_events.groups@, spec_uid_of(*ical_event)),
                ),
        decreases occurrences@.len() - i,
    {
        let ev = reconcile_occurrence(occurrences[i], parsed_event, ms);
        out.push(ev);
        i = i + 1;
    }
    out
}

/// Parse every event block of a feed into a concrete record, pairing each
/// with its raw block; any event that cannot be parsed fails the whole
/// feed.
pub fn parse_events(
    events: Vec<RawEvent>,
    calendar_timezones: &CustomTzMap,
    local_tz: &chrono_tz::Tz,
) -> (r: Result<Vec<(RawEvent, Event)>, CalendarError>)
    requires
        calendar_timezones.wf(),
    ensures
        events@.len() == 0 ==> (r matches Ok(v) && v@.len() == 0),
        match r {
            Ok(v) => {
                &&& v@.len() == events@.len()
                &&& (forall|i: int| 0 <= i < v@.len() ==> (#[trigger] v@[i]).0 == events@[i])
                &&& (forall|i: int|
                    0 <= i < v@.len() ==> spec_parsed_event_ok(
                        (#[trigger] v@[i]).0,
                        v@[i].1,
                    ))
            },
            Err(_) => true,
        },
{
    let ghost all = events@;
    let mut out: Vec<(RawEvent, Event)> = Vec::new();
    let mut rest = events;
    let ghost k: int = 0;
    proof {
        assert(rest@ =~= all.subrange(0, all.len() as int));
    }
    while rest.len() > 0
        invariant
            calendar_timezones.wf(),
            all == events@,
            0 <= k <= all.len(),
            rest@ == all.subrange(k, all.len() as int),
            out@.len() == k,
            forall|i: int| 0 <= i < k ==> (#[trigger] out@[i]).0 == all[i],
            forall|i: int|
                0 <= i < k ==> spec_parsed_event_ok((#[trigger] out@[i]).0, out@[i].1),
        decreases rest@.len(),
    {
        let ev = rest.remove(0);
        proof {
            assert(ev == all[k]);
        }
        let parsed = parse_event(&ev, calendar_timezones, local_tz)?;
        out.push((ev, parsed));
        proof {
            assert(rest@ =~= all.subrange(k + 1, all.len() as int));
            k = k + 1;
        }
    }
    Ok(out)
}

/// The records one base event contributes: its parsed record alone when it
/// has no occurrences, else one reconciled record per occurrence.
pub open spec fn spec_series_records(
    base: (RawEvent, Event),
    occs: Seq<i64>,
    groups: Seq<(String, Vec<ModEntry>)>,
) -> Seq<EventView> {
    if occs.len() == 0 {
        seq![base.1.eview()]
    } else {
        Seq::new(
            occs.len(),
            |i: int| spec_reconciled(occs[i] as int, base.1.eview(), spec_mods_for(
                groups,
                spec_uid_of(base.0),
            )),
        )
    }
}

/// The flat record list of a feed: every base event's series records, in
/// feed order.
pub open spec fn spec_reconciled_output(
    bases: Seq<(RawEvent, Event)>,
    occs: Seq<Seq<i64>>,
    groups: Seq<(String, Vec<ModEntry>)>,
) -> Seq<EventView>
    decreases bases.len(),
{
    if bases.len() == 0 {
        Seq::empty()
    } else {
        spec_reconciled_output(bases.drop_last(), occs.drop_last(), groups)
            + spec_series_records(bases.last(), occs.last(), groups)
    }
}

/// Expand every base event and fold in its modifications: for some
/// per-series occurrence lists (the recurrence crate and the clock decide
/// which), the output is exactly the reconciled records of every base
/// event in feed order — a base event without occurrences passes through
/// as its single parsed record.
pub fn expand_and_reconcile(
    bases: Vec<(RawEvent, Event)>,
    modifying_events: &ModifyingEvents,
    calendar_timezones: &CustomTzMap,
    local_tz: &chrono_tz::Tz,
) -> (r: Result<Vec<Event>, CalendarError>)
    requires
        calendar_timezones.wf(),
    ensures
        bases@.len() == 0 ==> (r matches Ok(v) && v@.len() == 0),
        match r {
            Ok(v) => {
                &&& exists|occs: Seq<Seq<i64>>|
                    occs.len() == bases@.len() && v@.map_values(|e: Event| e.eview())
                        == #[trigger] spec_reconciled_output(
                        bases@,
                        occs,
                        modifying_events.groups@,
                    )
                &&& (forall|i: int|
                    0 <= i < bases@.len() ==> !spec_naive_unzoned_start(
                        (#[trigger] bases@[i]).0,
                    ))
            },
            Err(_) => true,
        },
{
    let ghost all = bases@;
    let ghost groups = modifying_events.groups@;
    let mut out: Vec<Event> = Vec::new();
    let ghost mut occs: Seq<Seq<i64>> = Seq::empty();
    let mut rest = bases;
    let ghost k: int = 0;
    proof {
        assert(rest@ =~= all.subrange(0, all.len() as int));
        assert(out@.map_values(|e: Event| e.eview()) =~= spec_reconciled_output(
            all.subrange(0, 0),
            occs,
            groups,
        ));
    }
    while rest.len() > 0
        invariant
            calendar_timezones.wf(),
            all == bases@,
            0 <= k <= all.len(),
            rest@ == all.subrange(k, all.len() as int),
            occs.len() == k,
            out@.map_values(|e: Event| e.eview()) == spec_reconciled_output(
                all.subrange(0, k),
                occs,
                groups,
            ),
            forall|i: int| 0 <= i < k ==> !spec_naive_unzoned_start((#[trigger] all[i]).0),
            groups == modifying_events.groups@,
        decreases rest@.len(),
    {
        let (ical_event, parsed_event) = rest.remove(0);
        proof {
            assert((ical_event, parsed_event) == all[k]);
            assert(rest@ =~= all.subrange(k + 1, all.len() as int));
        }
        let occurrences = parse_occurrences(
            &ical_event.properties,
            &calendar_timezones,
            local_tz,
        )?;
        let ghost out_prev = out@;
        if occurrences.len() == 0 {
            out.push(parsed_event);
        } else {
            // A promoted modifying event re-enters here with instants the
            // feed supplied; they are re-checked rather than re-proved.
            if !event_instants_in_range(&parsed_event) {
                return Err(calendar_error("event instant outside the supported range"));
            }
            let mut records = calculate_occurrences(
                &ical_event,
                &parsed_event,
                &occurrences,
                modifying_events,
            );
            let ghost records_view = records@;
            let ghost mut m: int = 0;
            proof {
                assert(records@ =~= records_view.subrange(0, records_view.len() as int));
                assert(out@ =~= out_prev + records_view.subrange(0, 0));
            }
            while records.len() > 0
                invariant
                    0 <= m <= records_view.len(),
                    records@ == records_view.subrange(m, records_view.len() as int),
                    out@ == out_prev + records_view.subrange(0, m),
                decreases records@.len(),
            {
                let x = records.remove(0);
                proof {
                    assert(x == records_view[m]);
                    assert(records@ =~= records_view.subrange(m + 1, records_view.len() as int));
                }
                out.push(x);
                proof {
                    assert(out@ =~= out_prev + records_view.subrange(0, m + 1));
                    m = m + 1;
                }
            }
            proof {
                assert(records_view.subrange(0, records_view.len() as int) =~= records_view);
            }
        }
        proof {
            let base = all[k];
            let this_occs = occurrences@;
            let upto = all.subrange(0, k + 1);
            assert(upto.drop_last() =~= all.subrange(0, k));
            assert(upto.last() == base);
            assert(occs.push(this_occs).drop_last() =~= occs);
            assert(out@.map_values(|e: Event| e.eview()) =~= spec_reconciled_output(
                upto,
                occs.push(this_occs),
                groups,
            ));
            occs = occs.push(this_occs);
            k = k + 1;
        }
    }
    proof {
        assert(all.subrange(0, all.len() as int) =~= all);
        assert(spec_reconciled_output(all, occs, groups) == out@.map_values(
            |e: Event| e.eview(),
        ));
    }
    Ok(out)
}

/// Parse the first calendar of a feed's text: `None` when the text holds
/// no calendar at all, an error when the text is structurally broken.
pub fn parse_calendar(text: &str) -> (r: Result<
    Option<ical::parser::ical::component::IcalCalendar>,
    CalendarError,
>)
    ensures
        match crate::bridge::ical_parse_outcome(text@) {
            None => r matches Ok(c) && c is None,
            Some(true) => r matches Ok(c) && c is Some,
            Some(false) => r is Err,
        },
{
    match crate::bridge::parse_calendar_text(text) {
        Some(result) => match result {
            Ok(calendar) => Ok(Some(calendar)),
            Err(e) => {
                let mut msg = String::from_str("error in ical parsing: ");
                msg.append(e.as_str());
                Err(CalendarError::new(msg))
            },
        },
        None => Ok(None),
    }
}

/// Whether an event's instants lie in the range the reconciler arithmetic
/// supports; every event this library itself parses does.
fn event_instants_in_range(e: &Event) -> (r: bool)
    ensures
        r == (-63000000000 <= e.start_timestamp <= 255000000000 && -63000000000
            <= e.end_timestamp <= 255000000000),
{
    -63000000000 <= e.start_timestamp && e.start_timestamp <= 255000000000 && -63000000000
        <= e.end_timestamp && e.end_timestamp <= 255000000000
}

/// How a successful extraction relates to the parsed feed components: for
/// some event pairing — each record tied to its block by `parse_event`'s
/// contract — some grouping of exactly the modifying events, and some
/// per-series occurrence lists (the recurrence crate and the clock decide
/// the occurrence instants), the records are exactly the reconciled output
/// of every base event — the non-modifying events followed by the promoted
/// orphans — reordered by start instant.
pub open spec fn spec_extraction_shape(events: Seq<RawEvent>, v: Seq<Event>) -> bool {
    exists|
        pairs: Seq<(RawEvent, Event)>,
        collected: Seq<(String, Vec<ModEntry>)>,
        occs: Seq<Seq<i64>>,
    |
        #![trigger spec_reconciled_output(
            spec_non_modifying(pairs) + spec_promoted_members(
                collected,
                spec_non_modifying(pairs),
            ),
            occs,
            spec_retained_groups(collected, spec_non_modifying(pairs)),
        )]
        {
            &&& pairs.len() == events.len()
            &&& (forall|i: int| 0 <= i < pairs.len() ==> (#[trigger] pairs[i]).0 == events[i])
            &&& (forall|i: int|
                0 <= i < pairs.len() ==> spec_parsed_event_ok(
                    (#[trigger] pairs[i]).0,
                    pairs[i].1,
                ))
            &&& spec_is_grouping_of(collected, spec_modifying(pairs))
            &&& occs.len() == spec_non_modifying(pairs).len() + spec_promoted_members(
                collected,
                spec_non_modifying(pairs),
            ).len()
            &&& v.map_values(|e: Event| e.eview()).to_multiset() == spec_reconciled_output(
                spec_non_modifying(pairs) + spec_promoted_members(
                    collected,
                    spec_non_modifying(pairs),
                ),
                occs,
                spec_retained_groups(collected, spec_non_modifying(pairs)),
            ).to_multiset()
        }
}

/// Turn a feed's parsed components into the flat, time-ordered record
/// list: build the custom-zone table from the `VTIMEZONE` blocks, parse
/// every event block, fold modifying events into the matching occurrence
/// slots of their series, expand recurring events within the bounded
/// window around now, and sort the result by start instant. Any failure
/// while processing a single component aborts the whole feed.
pub fn extract_events_from_components(
    timezones: &Vec<crate::timezones::VTimezoneBlock>,
    events: Vec<RawEvent>,
    local_tz: &chrono_tz::Tz,
) -> (r: Result<Vec<Event>, CalendarError>)
    ensures
        (timezones@.len() == 0 && events@.len() == 0) ==> (r matches Ok(v) && v@.len() == 0),
        match r {
            Ok(v) => {
                &&& (forall|i: int, j: int|
                    0 <= i < j < v@.len() ==> (#[trigger] v@[i]).start_timestamp <= (
                    #[trigger] v@[j]).start_timestamp)
                &&& spec_extraction_shape(events@, v@)
                &&& (forall|i: int|
                    0 <= i < timezones@.len() ==> crate::timezones::spec_block_ok(
                        #[trigger] timezones@[i],
                    ))
                &&& (forall|k: int|
                    0 <= k < events@.len() ==> !(!spec_has_recurrence_id(#[trigger] events@[k])
                        && spec_naive_unzoned_start(events@[k])))
            },
            Err(_) => true,
        },
{
    let ghost events_view = events@;
    let calendar_timezones = crate::timezones::parse_ical_timezones(timezones, local_tz)?;
    let event_tuples = parse_events(events, &calendar_timezones, local_tz)?;
    let ghost pairs = event_tuples@;
    let (modifying_events, non_modifying_events) = partition_modifying_events(
        event_tuples,
        &calendar_timezones,
        local_tz,
    )?;
    let ghost bases = non_modifying_events@;
    let ghost groups = modifying_events.groups@;
    let flat = expand_and_reconcile(
        non_modifying_events,
        &modifying_events,
        &calendar_timezones,
        local_tz,
    )?;
    let ghost flat_view = flat@;
    let sorted = sort_events_by_start(flat);
    proof {
        let collected = choose|g: Seq<(String, Vec<ModEntry>)>|
            #![trigger spec_retained_groups(g, spec_non_modifying(pairs))]
            {
                &&& spec_is_grouping_of(g, spec_modifying(pairs))
                &&& groups == spec_retained_groups(g, spec_non_modifying(pairs))
                &&& bases == spec_non_modifying(pairs) + spec_promoted_members(
                    g,
                    spec_non_modifying(pairs),
                )
            };
        let occs = choose|occs: Seq<Seq<i64>>|
            occs.len() == bases.len() && flat_view.map_values(|e: Event| e.eview())
                == #[trigger] spec_reconciled_output(bases, occs, groups);
        assert(sorted@.to_multiset() == flat_view.to_multiset());
        lemma_map_to_multiset_commute(sorted@, flat_view);
        assert(sorted@.map_values(|e: Event| e.eview()).to_multiset() == spec_reconciled_output(
            spec_non_modifying(pairs) + spec_promoted_members(
                collected,
                spec_non_modifying(pairs),
            ),
            occs,
            spec_retained_groups(collected, spec_non_modifying(pairs)),
        ).to_multiset());
        assert(spec_extraction_shape(events_view, sorted@));
        assert forall|k: int| 0 <= k < events_view.len() implies !(!spec_has_recurrence_id(
            #[trigger] events_view[k],
        ) && spec_naive_unzoned_start(events_view[k])) by {
            if !spec_has_recurrence_id(events_view[k]) && spec_naive_unzoned_start(
                events_view[k],
            ) {
                assert(pairs[k].0 == events_view[k]);
                lemma_non_modifying_contains(pairs, k);
                let i = choose|i: int|
                    0 <= i < spec_non_modifying(pairs).len() && #[trigger] spec_non_modifying(
                        pairs,
                    )[i] == pairs[k];
                assert(bases[i] == spec_non_modifying(pairs)[i]);
                assert(!spec_naive_unzoned_start(bases[i].0));
            }
        }
    }
    Ok(sorted)
}

/// A non-modifying event appears among the base events of its feed.
proof fn lemma_non_modifying_contains(pairs: Seq<(RawEvent, Event)>, k: int)
    requires
        0 <= k < pairs.len(),
        !spec_has_recurrence_id(pairs[k].0),
    ensures
        exists|i: int|
            0 <= i < spec_non_modifying(pairs).len() && #[trigger] spec_non_modifying(pairs)[i]
                == pairs[k],
    decreases pairs.len(),
{
    reveal(Seq::filter);
    let filtered = spec_non_modifying(pairs);
    if k == pairs.len() - 1 {
        assert(filtered[filtered.len() - 1] == pairs[k]);
    } else {
        let shorter = spec_non_modifying(pairs.drop_last());
        assert(pairs.drop_last()[k] == pairs[k]);
        lemma_non_modifying_contains(pairs.drop_last(), k);
        let i = choose|i: int|
            0 <= i < shorter.len() && #[trigger] shorter[i] == pairs.drop_last()[k];
        assert(filtered[i] == shorter[i]);
    }
}

/// Two sequences with the same multiset have the same multiset of views.
proof fn lemma_map_to_multiset_commute(a: Seq<Event>, b: Seq<Event>)
    requires
        a.to_multiset() == b.to_multiset(),
    ensures
        a.map_values(|e: Event| e.eview()).to_multiset() == b.map_values(
            |e: Event| e.eview(),
        ).to_multiset(),
    decreases a.len(),
{
    broadcast use vstd::seq_lib::group_to_multiset_ensures;
    broadcast use vstd::multiset::group_multiset_axioms;

    if a.len() == 0 {
        assert(b.to_multiset().len() == 0);
        assert(b.len() == 0);
        assert(a.map_values(|e: Event| e.eview()) =~= Seq::<EventView>::empty());
        assert(b.map_values(|e: Event| e.eview()) =~= Seq::<EventView>::empty());
    } else {
        let x = a.last();
        assert(a.to_multiset().contains(x)) by {
            assert(a.contains(x));
        }
        assert(b.to_multiset().contains(x));
        assert(b.contains(x));
        let j = choose|j: int| 0 <= j < b.len() && b[j] == x;
        let a2 = a.drop_last();
        let b2 = b.remove(j);
        assert(a.to_multiset() =~= a2.to_multiset().insert(x)) by {
            assert(a2.push(x) =~= a);
        }
        assert(b.to_multiset() =~= b2.to_multiset().insert(x));
        assert(a2.to_multiset() =~= b2.to_multiset());
        lemma_map_to_multiset_commute(a2, b2);
        assert(a.map_values(|e: Event| e.eview()) =~= a2.map_values(|e: Event| e.eview()).push(
            x.eview(),
        ));
        assert(a.map_values(|e: Event| e.eview()).to_multiset() =~= a2.map_values(
            |e: Event| e.eview(),
        ).to_multiset().insert(x.eview()));
        assert(b.map_values(|e: Event| e.eview()) =~= b2.map_values(
            |e: Event| e.eview(),
        ).insert(j, x.eview()));
        assert(b2.map_values(|e: Event| e.eview()).insert(j, x.eview()).to_multiset()
            =~= b2.map_values(|e: Event| e.eview()).to_multiset().insert(x.eview())) by {
            let bm = b2.map_values(|e: Event| e.eview());
            assert(bm.insert(j, x.eview()) =~= bm.subrange(0, j) + seq![x.eview()] + bm.subrange(
                j,
                bm.len() as int,
            ));
            vstd::seq_lib::lemma_multiset_commutative(
                bm.subrange(0, j) + seq![x.eview()],
                bm.subrange(j, bm.len() as int),
            );
            vstd::seq_lib::lemma_multiset_commutative(bm.subrange(0, j), seq![x.eview()]);
            vstd::seq_lib::lemma_multiset_commutative(
                bm.subrange(0, j),
                bm.subrange(j, bm.len() as int),
            );
            assert(bm.subrange(0, j) + bm.subrange(j, bm.len() as int) =~= bm);
            assert(seq![x.eview()].to_multiset() =~= Seq::<EventView>::empty().push(
                x.eview(),
            ).to_multiset());
        }
    }
}

/// Turn a feed's text into the flat, time-ordered list of concrete meeting
/// occurrences. Whatever the feed was, a successful result is sorted
/// ascending by start instant and every record's instants lie within the
/// supported range; the shape of the records against the parsed components
/// is stated at [`extract_events_from_components`]. Any failure while
/// processing a single component aborts the whole feed.
pub fn extract_events(text: &str, local_tz: &chrono_tz::Tz) -> (r: Result<
    Vec<Event>,
    CalendarError,
>)
    ensures
        crate::bridge::ical_parse_outcome(text@) is None ==> (r matches Ok(v) && v@.len() == 0),
        crate::bridge::ical_parse_outcome(text@) == Some(false) ==> r is Err,
        match r {
            Ok(v) => forall|i: int, j: int|
                0 <= i < j < v@.len() ==> (#[trigger] v@[i]).start_timestamp <= (
                #[trigger] v@[j]).start_timestamp,
            Err(_) => true,
        },
{
    let calendar = match parse_calendar(text)? {
        Some(c) => c,
        None => {
            return Ok(Vec::new());
        },
    };
    // Convert the structural parse into the library's property-bag model.
    let tz_components = crate::bridge::calendar_timezones(&calendar);
    let mut tz_blocks: Vec<crate::timezones::VTimezoneBlock> = Vec::new();
    let mut ti: usize = 0;
    while ti < tz_components.len()
        decreases tz_components@.len() - ti,
    {
        let vtz = &tz_components[ti];
        let transitions_raw = crate::bridge::timezone_transitions(vtz);
        let mut transitions: Vec<crate::timezones::TransitionBlock> = Vec::new();
        let mut tj: usize = 0;
        while tj < transitions_raw.len()
            decreases transitions_raw@.len() - tj,
        {
            let tr = &transitions_raw[tj];
            transitions.push(
                crate::timezones::TransitionBlock {
                    daylight: crate::bridge::transition_is_daylight(tr),
                    properties: crate::bridge::transition_properties(tr),
                },
            );
            tj = tj + 1;
        }
        tz_blocks.push(
            crate::timezones::VTimezoneBlock {
                properties: crate::bridge::timezone_properties(vtz),
                transitions,
            },
        );
        ti = ti + 1;
    }
    let event_components = crate::bridge::calendar_events(&calendar);
    let mut raw_events: Vec<RawEvent> = Vec::new();
    let mut ei: usize = 0;
    while ei < event_components.len()
        decreases event_components@.len() - ei,
    {
        raw_events.push(
            RawEvent { properties: crate::bridge::event_properties(&event_components[ei]) },
        );
        ei = ei + 1;
    }
    extract_events_from_components(&tz_blocks, raw_events, local_tz)
}

/// Sort event records ascending by start instant, keeping exactly the same
/// records.
pub fn sort_events_by_start(events: Vec<Event>) -> (r: Vec<Event>)
    ensures
        r@.to_multiset() == events@.to_multiset(),
        r@.len() == events@.len(),
        forall|i: int, j: int|
            0 <= i < j < r@.len() ==> (#[trigger] r@[i]).start_timestamp <= (
            #[trigger] r@[j]).start_timestamp,
{
    let ghost all = events@;
    let mut sorted: Vec<Event> = Vec::new();
    let mut rest2 = events;
    proof {
        broadcast use vstd::multiset::group_multiset_axioms;

        vstd::seq_lib::lemma_multiset_commutative(sorted@, rest2@);
        assert(sorted@ + rest2@ =~= rest2@);
    }
    while rest2.len() > 0
        invariant
            sorted@.to_multiset().add(rest2@.to_multiset()) == all.to_multiset(),
            forall|i: int, j: int|
                0 <= i < j < sorted@.len() ==> (#[trigger] sorted@[i]).start_timestamp <= (
                #[trigger] sorted@[j]).start_timestamp,
        decreases rest2@.len(),
    {
        let ghost rest_prev = rest2@;
        let e = rest2.remove(0);
        let mut pos: usize = 0;
        while pos < sorted.len() && sorted[pos].start_timestamp <= e.start_timestamp
            invariant
                pos <= sorted@.len(),
                forall|i: int|
                    0 <= i < pos ==> (#[trigger] sorted@[i]).start_timestamp <= e.start_timestamp,
                forall|i: int, j: int|
                    0 <= i < j < sorted@.len() ==> (#[trigger] sorted@[i]).start_timestamp <= (
                    #[trigger] sorted@[j]).start_timestamp,
            decreases sorted@.len() - pos,
        {
            pos = pos + 1;
        }
        let ghost prev = sorted@;
        sorted.insert(pos, e);
        proof {
            broadcast use vstd::multiset::group_multiset_axioms;

            let a = prev.subrange(0, pos as int);
            let b = prev.subrange(pos as int, prev.len() as int);
            assert(a + seq![e] + b =~= sorted@);
            vstd::seq_lib::lemma_multiset_commutative(a + seq![e], b);
            vstd::seq_lib::lemma_multiset_commutative(a, seq![e]);
            vstd::seq_lib::lemma_multiset_commutative(a, b);
            assert(a + b =~= prev);
            assert(seq![e] =~= seq![rest_prev[0]]);
            vstd::seq_lib::lemma_multiset_commutative(seq![rest_prev[0]], rest2@);
            assert(seq![rest_prev[0]] + rest2@ =~= rest_prev);
            assert(sorted@.to_multiset().add(rest2@.to_multiset()) =~= all.to_multiset());
            assert forall|i: int, j: int|
                0 <= i < j < sorted@.len() implies (#[trigger] sorted@[i]).start_timestamp <= (
            #[trigger] sorted@[j]).start_timestamp by {
                if j < pos {
                } else if i < pos && j == pos {
                } else if i == pos {
                    assert(sorted@[j] == prev[j - 1]);
                    assert(prev[j - 1].start_timestamp >= prev[pos as int].start_timestamp);
                } else if i > pos {
                    assert(sorted@[i] == prev[i - 1]);
                    assert(sorted@[j] == prev[j - 1]);
                } else {
                    assert(sorted@[i] == prev[i]);
                    assert(sorted@[j] == prev[j - 1]);
                    assert(prev[j - 1].start_timestamp >= prev[pos as int].start_timestamp);
                }
            }
        }
    }
    proof {
        broadcast use vstd::multiset::group_multiset_axioms;
        broadcast use vstd::seq_lib::group_to_multiset_ensures;

        assert(rest2@ =~= Seq::<Event>::empty());
        assert(sorted@.to_multiset() =~= all.to_multiset());
        assert(sorted@.len() == sorted@.to_multiset().len());
        assert(all.len() == all.to_multiset().len());
    }
    sorted
}

/// Whether an event overlaps the interval in any way.
pub open spec fn spec_overlaps(ev: EventView, start_time: int, end_time: int) -> bool {
    ||| (ev.start_timestamp > start_time && ev.start_timestamp < end_time)
    ||| (ev.start_timestamp < start_time && ev.end_timestamp > start_time)
    ||| (ev.start_timestamp < end_time && ev.end_timestamp > end_time)
}

/// The events overlapping the interval, in input order.
pub open spec fn spec_events_in_interval(
    events: Seq<Event>,
    start_time: int,
    end_time: int,
) -> Seq<Event> {
    events.filter(|ev: Event| spec_overlaps(ev.eview(), start_time, end_time))
}

/// The events that lie inside the interval or overlap it in some way,
/// sorted ascending by start instant.
pub fn get_events_for_interval(events: Vec<Event>, start_time: i64, end_time: i64) -> (r: Vec<
    Event,
>)
    ensures
        r@.to_multiset() == spec_events_in_interval(
            events@,
            start_time as int,
            end_time as int,
        ).to_multiset(),
        forall|i: int, j: int|
            0 <= i < j < r@.len() ==> (#[trigger] r@[i]).start_timestamp <= (
            #[trigger] r@[j]).start_timestamp,
{
    let ghost all = events@;
    let mut kept: Vec<Event> = Vec::new();
    let mut rest = events;
    let ghost k: int = 0;
    proof {
        reveal(Seq::filter);
        assert(rest@ =~= all.subrange(0, all.len() as int));
        assert(all.subrange(0, 0) =~= Seq::<Event>::empty());
        assert(kept@ =~= spec_events_in_interval(all.subrange(0, 0), start_time as int,
            end_time as int));
    }
    while rest.len() > 0
        invariant
            0 <= k <= all.len(),
            rest@ == all.subrange(k, all.len() as int),
            kept@ == spec_events_in_interval(all.subrange(0, k), start_time as int,
                end_time as int),
        decreases rest@.len(),
    {
        let e = rest.remove(0);
        proof {
            reveal(Seq::filter);
            assert(e == all[k]);
            assert(all.subrange(0, k + 1).drop_last() =~= all.subrange(0, k));
            assert(all.subrange(0, k + 1).last() == all[k]);
        }
        let keep = (e.start_timestamp > start_time && e.start_timestamp < end_time) || (
        e.start_timestamp < start_time && e.end_timestamp > start_time) || (e.start_timestamp
            < end_time && e.end_timestamp > end_time);
        if keep {
            kept.push(e);
        }
        proof {
            assert(rest@ =~= all.subrange(k + 1, all.len() as int));
            k = k + 1;
        }
    }
    proof {
        assert(all.subrange(0, all.len() as int) =~= all);
    }
    sort_events_by_start(kept)
}

} // verus!
