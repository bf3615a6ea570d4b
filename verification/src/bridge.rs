//! The trusted boundary to the outside crates: type declarations and thin
//! wrappers whose contracts Verus believes. Each wrapper names the outside
//! function it relies on and states only what that crate's source shows.

use vstd::prelude::*;

use crate::custom_timezone::LocalResolution;
use crate::ical_util::Prop;

use chrono::Datelike;
use chrono::Offset;
use chrono::TimeZone;
use chrono::Timelike;

verus! {

#[verifier::external_type_specification]
#[verifier::external_body]
pub struct ExTz(chrono_tz::Tz);

/// Whether chrono-tz's static table of IANA zone names holds this name:
/// its `FromStr` impl is a lookup in a compiled-in map, so acceptance is a
/// function of the string alone.
pub uninterp spec fn iana_known(name: Seq<char>) -> bool;

/// Relies on chrono_tz's `FromStr for Tz`: a lookup of the exact name in
/// its compiled-in table of IANA zone identifiers.
#[verifier::external_body]
pub fn iana_zone_lookup(name: &str) -> (r: Option<chrono_tz::Tz>)
    ensures
        r is Some <==> iana_known(name@),
{
    name.parse().ok()
}

/// Relies on chrono_tz's `offset_from_utc_datetime` and chrono's
/// `FixedOffset`: resolution from UTC is total and every offset is strictly
/// less than a day in magnitude.
#[verifier::external_body]
pub fn std_zone_offset_from_utc(tz: &chrono_tz::Tz, t: i64) -> (r: i32)
    requires
        -8000000000000 <= t <= 8000000000000,
    ensures
        -86400 < r < 86400,
{
    let ndt = chrono::DateTime::from_timestamp(t, 0).unwrap().naive_utc();
    tz.offset_from_utc_datetime(&ndt).fix().local_minus_utc()
}

/// Relies on chrono_tz's `offset_from_local_datetime` and chrono's
/// `FixedOffset`: a naive local time resolves to no, one, or two offsets,
/// each strictly less than a day in magnitude.
#[verifier::external_body]
pub fn std_zone_offset_from_local(tz: &chrono_tz::Tz, t: i64) -> (r: LocalResolution<i32>)
    requires
        -8000000000000 <= t <= 8000000000000,
    ensures
        match r {
            LocalResolution::NoSuchLocalTime => true,
            LocalResolution::Single(o) => -86400 < o < 86400,
            LocalResolution::Ambiguous(a, b) => -86400 < a < 86400 && -86400 < b < 86400,
        },
{
    let ndt = chrono::DateTime::from_timestamp(t, 0).unwrap().naive_utc();
    match tz.offset_from_local_datetime(&ndt) {
        chrono::LocalResult::None => LocalResolution::NoSuchLocalTime,
        chrono::LocalResult::Single(o) => LocalResolution::Single(o.fix().local_minus_utc()),
        chrono::LocalResult::Ambiguous(a, b) => LocalResolution::Ambiguous(
            a.fix().local_minus_utc(),
            b.fix().local_minus_utc(),
        ),
    }
}

/// Relies on chrono's `Local::now` and `Datelike::year`: the current year
/// of the system clock, within chrono's representable year range.
#[verifier::external_body]
pub fn current_year_local() -> (r: i32)
    ensures
        -300000 < r < 300000,
{
    chrono::Local::now().year()
}

#[verifier::external_type_specification]
#[verifier::external_body]
pub struct ExRRuleSet(rrule::RRuleSet);

/// One expanded occurrence of a recurrence rule: the instant in epoch
/// seconds, and the wall-clock reading of that instant in the zone the
/// expansion ran in.
#[derive(Debug, Clone, Copy, PartialEq, Eq, Structural)]
pub struct OccStamp {
    pub epoch: i64,
    pub year: i32,
    pub month: u32,
    pub day: u32,
    pub hour: u32,
    pub minute: u32,
    pub second: u32,
}

/// The field guarantees chrono documents for any date it hands out.
pub open spec fn spec_stamp_sane(s: OccStamp) -> bool {
    &&& -8000000000000 <= s.epoch <= 8000000000000
    &&& -300000 < s.year < 300000
    &&& 1 <= s.month <= 12
    &&& 1 <= s.day <= 31
    &&& s.hour <= 23
    &&& s.minute <= 59
    &&& s.second <= 59
}

/// Relies on rrule's `FromStr for RRuleSet`: parses `DTSTART`/`RRULE`/
/// `EXDATE` lines into a validated rule set. A naive start datetime is
/// interpreted in the machine's local zone, so acceptance can depend on the
/// machine; nothing more is claimed than that a result comes back.
#[verifier::external_body]
pub fn rrule_parse(text: &str) -> (r: Result<rrule::RRuleSet, String>)
{
    text.parse::<rrule::RRuleSet>().map_err(|e| e.to_string())
}

/// Relies on rrule's `RRuleSet::all` and chrono's `Datelike`/`Timelike`
/// accessors: at most `limit` occurrences come back, in chronological
/// order — the iterator behind `all` yields recurrences ascending — each
/// converted to a plain stamp whose components have chrono's documented
/// ranges.
#[verifier::external_body]
pub fn rrule_all(set: rrule::RRuleSet, limit: u16) -> (r: Vec<OccStamp>)
    ensures
        r@.len() <= limit,
        forall|i: int| 0 <= i < r@.len() ==> spec_stamp_sane(#[trigger] r@[i]),
        forall|i: int, j: int|
            0 <= i < j < r@.len() ==> (#[trigger] r@[i]).epoch <= (#[trigger] r@[j]).epoch,
{
    set.all(limit).dates.iter().map(
        |d| OccStamp {
            epoch: d.timestamp(),
            year: d.year(),
            month: d.month(),
            day: d.day(),
            hour: d.hour(),
            minute: d.minute(),
            second: d.second(),
        },
    ).collect()
}

#[verifier::external_type_specification]
#[verifier::external_body]
pub struct ExIcalCalendar(ical::parser::ical::component::IcalCalendar);

#[verifier::external_type_specification]
#[verifier::external_body]
pub struct ExIcalEvent(ical::parser::ical::component::IcalEvent);

#[verifier::external_type_specification]
#[verifier::external_body]
pub struct ExIcalTimeZone(ical::parser::ical::component::IcalTimeZone);

#[verifier::external_type_specification]
#[verifier::external_body]
pub struct ExIcalTimeZoneTransition(ical::parser::ical::component::IcalTimeZoneTransition);

/// Whether the structural parse of a feed's text finds a calendar and
/// accepts it: `None` when the text holds no calendar at all, else whether
/// parsing succeeded. The parser reads the text alone, so this is a
/// function of the text.
pub uninterp spec fn ical_parse_outcome(text: Seq<char>) -> Option<bool>;

/// Relies on ical's `IcalParser`: the structural parse of the first
/// `VCALENDAR` in the text, or `None` when the text holds none.
#[verifier::external_body]
pub fn parse_calendar_text(text: &str) -> (r: Option<
    Result<ical::parser::ical::component::IcalCalendar, String>,
>)
    ensures
        match r {
            None => ical_parse_outcome(text@) is None,
            Some(Ok(_)) => ical_parse_outcome(text@) == Some(true),
            Some(Err(_)) => ical_parse_outcome(text@) == Some(false),
        },
{
    ical::IcalParser::new(text.as_bytes()).next().map(|res| res.map_err(|e| format!("{:?}", e)))
}

/// Relies on ical's `IcalCalendar`: its list of `VEVENT` blocks.
#[verifier::external_body]
pub fn calendar_events(cal: &ical::parser::ical::component::IcalCalendar) -> (r: Vec<
    ical::parser::ical::component::IcalEvent,
>)
{
    cal.events.clone()
}

/// Relies on ical's `IcalCalendar`: its list of `VTIMEZONE` blocks.
#[verifier::external_body]
pub fn calendar_timezones(cal: &ical::parser::ical::component::IcalCalendar) -> (r: Vec<
    ical::parser::ical::component::IcalTimeZone,
>)
{
    cal.timezones.clone()
}

/// Relies on ical's `IcalEvent`: its properties, each converted one for one
/// into the library's property type.
#[verifier::external_body]
pub fn event_properties(ev: &ical::parser::ical::component::IcalEvent) -> (r: Vec<Prop>)
{
    ev.properties.iter().map(
        |p| Prop { name: p.name.clone(), params: p.params.clone(), value: p.value.clone() },
    ).collect()
}

/// Relies on ical's `IcalTimeZone`: its properties, converted one for one.
#[verifier::external_body]
pub fn timezone_properties(tz: &ical::parser::ical::component::IcalTimeZone) -> (r: Vec<Prop>)
{
    tz.properties.iter().map(
        |p| Prop { name: p.name.clone(), params: p.params.clone(), value: p.value.clone() },
    ).collect()
}

/// Relies on ical's `IcalTimeZone`: its `STANDARD`/`DAYLIGHT` sub-blocks.
#[verifier::external_body]
pub fn timezone_transitions(tz: &ical::parser::ical::component::IcalTimeZone) -> (r: Vec<
    ical::parser::ical::component::IcalTimeZoneTransition,
>)
{
    tz.transitions.clone()
}

/// Relies on ical's `IcalTimeZoneTransitionType`: which of the two
/// sub-block kinds this transition came from.
#[verifier::external_body]
pub fn transition_is_daylight(t: &ical::parser::ical::component::IcalTimeZoneTransition) -> (r:
    bool)
{
    match t.transition {
        ical::parser::ical::component::IcalTimeZoneTransitionType::DAYLIGHT => true,
        ical::parser::ical::component::IcalTimeZoneTransitionType::STANDARD => false,
    }
}

/// Relies on ical's `IcalTimeZoneTransition`: its properties, converted one
/// for one.
#[verifier::external_body]
pub fn transition_properties(t: &ical::parser::ical::component::IcalTimeZoneTransition) -> (r: Vec<
    Prop,
>)
{
    t.properties.iter().map(
        |p| Prop { name: p.name.clone(), params: p.params.clone(), value: p.value.clone() },
    ).collect()
}

/// The leftmost match of a regular expression in a text: a function of the
/// pattern and the text alone.
pub uninterp spec fn regex_first_match(pattern: Seq<char>, text: Seq<char>) -> Option<Seq<char>>;

/// Relies on regex's `Regex::new` and `Regex::find`: the leftmost match of
/// the pattern in the text, or `None` when the pattern is invalid or
/// matches nowhere.
#[verifier::external_body]
pub fn regex_find_first(pattern: &str, text: &str) -> (r: Option<String>)
    ensures
        match r {
            Some(m) => regex_first_match(pattern@, text@) == Some(m@),
            None => regex_first_match(pattern@, text@) is None,
        },
{
    regex::Regex::new(pattern).ok().and_then(|re| re.find(text)).map(|m| m.as_str().to_string())
}

} // verus!
