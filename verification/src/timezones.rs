//! The timezone identifier resolver: maps a textual TZID — a
//! calendar-embedded zone name, an IANA name, a Windows/CLDR display name,
//! or an "explicit offset plus city list" string — to a concrete zone.

use vstd::prelude::*;

use crate::bridge::current_year_local;
use crate::bridge::iana_known;
use crate::bridge::iana_zone_lookup;
use crate::bridge::rrule_all;
use crate::bridge::rrule_parse;
use crate::bridge::spec_stamp_sane;
use crate::bridge::std_zone_offset_from_local;
use crate::bridge::OccStamp;
use crate::civil::epoch_of_parts;
use crate::civil::parse_datetime_value;
use crate::civil::spec_all_digits;
use crate::civil::spec_epoch_of;
use crate::civil::spec_num_val;
use crate::civil::spec_parse_datetime;
use crate::custom_timezone::CustomTz;
use crate::custom_timezone::FixedTimespan;
use crate::custom_timezone::FixedTimespanSet;
use crate::custom_timezone::LocalResolution;
use crate::custom_timezone::MAX_OFFSET;
use crate::custom_timezone::MAX_TRANSITION;
use crate::domain::CalendarError;
use crate::ical_util::find_property;
use crate::ical_util::find_property_value;
use crate::ical_util::properties_to_string;
use crate::ical_util::spec_find_property;
use crate::ical_util::Prop;
use crate::strutil::str_eq_str;
use vstd::multiset::Multiset;
use vstd::string::StrSliceExecFns;
use vstd::string::StringExecFns;

verus! {

/// The fixed mapping from Windows/CLDR zone display identifiers to IANA
/// zone names, keyed on the literal string.
pub open spec fn spec_windows_to_iana(s: Seq<char>) -> Option<Seq<char>> {
    if s == "AUS Central Standard Time"@ {
        Some("Australia/Darwin"@)
    } else if s == "AUS Eastern Standard Time"@ {
        Some("Australia/Sydney"@)
    } else if s == "Afghanistan Standard Time"@ {
        Some("Asia/Kabul"@)
    } else if s == "Alaskan Standard Time"@ {
        Some("America/Anchorage"@)
    } else if s == "Arab Standard Time"@ {
        Some("Asia/Riyadh"@)
    } else if s == "Arabian Standard Time"@ {
        Some("Asia/Dubai"@)
    } else if s == "Arabic Standard Time"@ {
        Some("Asia/Baghdad"@)
    } else if s == "Argentina Standard Time"@ {
        Some("America/Argentina/Buenos_Aires"@)
    } else if s == "Atlantic Standard Time"@ {
        Some("America/Halifax"@)
    } else if s == "Azerbaijan Standard Time"@ {
        Some("Asia/Baku"@)
    } else if s == "Azores Standard Time"@ {
        Some("Atlantic/Azores"@)
    } else if s == "Bahia Standard Time"@ {
        Some("America/Bahia"@)
    } else if s == "Bangladesh Standard Time"@ {
        Some("Asia/Dhaka"@)
    } else if s == "Belarus Standard Time"@ {
        Some("Europe/Minsk"@)
    } else if s == "Canada Central Standard Time"@ {
        Some("America/Regina"@)
    } else if s == "Cape Verde Standard Time"@ {
        Some("Atlantic/Cape_Verde"@)
    } else if s == "Caucasus Standard Time"@ {
        Some("Asia/Yerevan"@)
    } else if s == "Cen. Australia Standard Time"@ {
        Some("Australia/Adelaide"@)
    } else if s == "Central America Standard Time"@ {
        Some("America/Guatemala"@)
    } else if s == "Central Asia Standard Time"@ {
        Some("Asia/Almaty"@)
    } else if s == "Central Europe Standard Time"@ {
        Some("Europe/Budapest"@)
    } else if s == "Central European Standard Time"@ {
        Some("Europe/Warsaw"@)
    } else if s == "Central Pacific Standard Time"@ {
        Some("Pacific/Guadalcanal"@)
    } else if s == "Central Standard Time"@ {
        Some("America/Chicago"@)
    } else if s == "Central Standard Time (Mexico)"@ {
        Some("America/Mexico_City"@)
    } else if s == "China Standard Time"@ {
        Some("Asia/Shanghai"@)
    } else if s == "Cuba Standard Time"@ {
        Some("America/Havana"@)
    } else if s == "Dateline Standard Time"@ {
        Some("Etc/GMT+12"@)
    } else if s == "E. Africa Standard Time"@ {
        Some("Africa/Nairobi"@)
    } else if s == "E. Australia Standard Time"@ {
        Some("Australia/Brisbane"@)
    } else if s == "E. Europe Standard Time"@ {
        Some("Europe/Chisinau"@)
    } else if s == "E. South America Standard Time"@ {
        Some("America/Sao_Paulo"@)
    } else if s == "Eastern Standard Time"@ {
        Some("America/New_York"@)
    } else if s == "Egypt Standard Time"@ {
        Some("Africa/Cairo"@)
    } else if s == "FLE Standard Time"@ {
        Some("Europe/Kiev"@)
    } else if s == "Fiji Standard Time"@ {
        Some("Pacific/Fiji"@)
    } else if s == "GMT Standard Time"@ {
        Some("Europe/London"@)
    } else if s == "GTB Standard Time"@ {
        Some("Europe/Bucharest"@)
    } else if s == "Georgian Standard Time"@ {
        Some("Asia/Tbilisi"@)
    } else if s == "Greenwich Standard Time"@ {
        Some("Atlantic/Reykjavik"@)
    } else if s == "Hawaiian Standard Time"@ {
        Some("Pacific/Honolulu"@)
    } else if s == "India Standard Time"@ {
        Some("Asia/Kolkata"@)
    } else if s == "Iran Standard Time"@ {
        Some("Asia/Tehran"@)
    } else if s == "Israel Standard Time"@ {
        Some("Asia/Jerusalem"@)
    } else if s == "Jordan Standard Time"@ {
        Some("Asia/Amman"@)
    } else if s == "Korea Standard Time"@ {
        Some("Asia/Seoul"@)
    } else if s == "Morocco Standard Time"@ {
        Some("Africa/Casablanca"@)
    } else if s == "Mountain Standard Time"@ {
        Some("America/Denver"@)
    } else if s == "Myanmar Standard Time"@ {
        Some("Asia/Yangon"@)
    } else if s == "Nepal Standard Time"@ {
        Some("Asia/Kathmandu"@)
    } else if s == "New Zealand Standard Time"@ {
        Some("Pacific/Auckland"@)
    } else if s == "Pacific Standard Time"@ {
        Some("America/Los_Angeles"@)
    } else if s == "Pakistan Standard Time"@ {
        Some("Asia/Karachi"@)
    } else if s == "Paraguay Standard Time"@ {
        Some("America/Asuncion"@)
    } else if s == "Romance Standard Time"@ {
        Some("Europe/Paris"@)
    } else if s == "Russian Standard Time"@ {
        Some("Europe/Moscow"@)
    } else if s == "SA Eastern Standard Time"@ {
        Some("America/Cayenne"@)
    } else if s == "SA Pacific Standard Time"@ {
        Some("America/Bogota"@)
    } else if s == "SA Western Standard Time"@ {
        Some("America/La_Paz"@)
    } else if s == "SE Asia Standard Time"@ {
        Some("Asia/Bangkok"@)
    } else if s == "Singapore Standard Time"@ {
        Some("Asia/Singapore"@)
    } else if s == "South Africa Standard Time"@ {
        Some("Africa/Johannesburg"@)
    } else if s == "Sri Lanka Standard Time"@ {
        Some("Asia/Colombo"@)
    } else if s == "Taipei Standard Time"@ {
        Some("Asia/Taipei"@)
    } else if s == "Tokyo Standard Time"@ {
        Some("Asia/Tokyo"@)
    } else if s == "Turkey Standard Time"@ {
        Some("Europe/Istanbul"@)
    } else if s == "US Eastern Standard Time"@ {
        Some("America/Indiana/Indianapolis"@)
    } else if s == "US Mountain Standard Time"@ {
        Some("America/Phoenix"@)
    } else if s == "UTC"@ {
        Some("Etc/UTC"@)
    } else if s == "UTC+12"@ {
        Some("Etc/GMT-12"@)
    } else if s == "UTC-02"@ {
        Some("Etc/GMT+2"@)
    } else if s == "UTC-11"@ {
        Some("Etc/GMT+11"@)
    } else if s == "Venezuela Standard Time"@ {
        Some("America/Caracas"@)
    } else if s == "Vladivostok Standard Time"@ {
        Some("Asia/Vladivostok"@)
    } else if s == "W. Australia Standard Time"@ {
        Some("Australia/Perth"@)
    } else if s == "W. Central Africa Standard Time"@ {
        Some("Africa/Lagos"@)
    } else if s == "W. Europe Standard Time"@ {
        Some("Europe/Berlin"@)
    } else if s == "West Asia Standard Time"@ {
        Some("Asia/Tashkent"@)
    } else if s == "West Pacific Standard Time"@ {
        Some("Pacific/Port_Moresby"@)
    } else if s == "Yakutsk Standard Time"@ {
        Some("Asia/Yakutsk"@)
    } else {
        None
    }
}

/// Look up a Windows/CLDR zone identifier such as `W. Europe Standard Time`.
#[verifier::rlimit(30)]
pub fn windows_to_iana(tzid: &str) -> (r: Option<&'static str>)
    ensures
        match r {
            Some(z) => spec_windows_to_iana(tzid@) == Some(z@),
            None => spec_windows_to_iana(tzid@) is None,
        },
{
    if str_eq_str(tzid, "AUS Central Standard Time") {
        Some("Australia/Darwin")
    } else if str_eq_str(tzid, "AUS Eastern Standard Time") {
        Some("Australia/Sydney")
    } else if str_eq_str(tzid, "Afghanistan Standard Time") {
        Some("Asia/Kabul")
    } else if str_eq_str(tzid, "Alaskan Standard Time") {
        Some("America/Anchorage")
    } else if str_eq_str(tzid, "Arab Standard Time") {
        Some("Asia/Riyadh")
    } else if str_eq_str(tzid, "Arabian Standard Time") {
        Some("Asia/Dubai")
    } else if str_eq_str(tzid, "Arabic Standard Time") {
        Some("Asia/Baghdad")
    } else if str_eq_str(tzid, "Argentina Standard Time") {
        Some("America/Argentina/Buenos_Aires")
    } else if str_eq_str(tzid, "Atlantic Standard Time") {
        Some("America/Halifax")
    } else if str_eq_str(tzid, "Azerbaijan Standard Time") {
        Some("Asia/Baku")
    } else if str_eq_str(tzid, "Azores Standard Time") {
        Some("Atlantic/Azores")
    } else if str_eq_str(tzid, "Bahia Standard Time") {
        Some("America/Bahia")
    } else if str_eq_str(tzid, "Bangladesh Standard Time") {
        Some("Asia/Dhaka")
    } else if str_eq_str(tzid, "Belarus Standard Time") {
        Some("Europe/Minsk")
    } else if str_eq_str(tzid, "Canada Central Standard Time") {
        Some("America/Regina")
    } else if str_eq_str(tzid, "Cape Verde Standard Time") {
        Some("Atlantic/Cape_Verde")
    } else if str_eq_str(tzid, "Caucasus Standard Time") {
        Some("Asia/Yerevan")
    } else if str_eq_str(tzid, "Cen. Australia Standard Time") {
        Some("Australia/Adelaide")
    } else if str_eq_str(tzid, "Central America Standard Time") {
        Some("America/Guatemala")
    } else if str_eq_str(tzid, "Central Asia Standard Time") {
        Some("Asia/Almaty")
    } else if str_eq_str(tzid, "Central Europe Standard Time") {
        Some("Europe/Budapest")
    } else if str_eq_str(tzid, "Central European Standard Time") {
        Some("Europe/Warsaw")
    } else if str_eq_str(tzid, "Central Pacific Standard Time") {
        Some("Pacific/Guadalcanal")
    } else if str_eq_str(tzid, "Central Standard Time") {
        Some("America/Chicago")
    } else if str_eq_str(tzid, "Central Standard Time (Mexico)") {
        Some("America/Mexico_City")
    } else if str_eq_str(tzid, "China Standard Time") {
        Some("Asia/Shanghai")
    } else if str_eq_str(tzid, "Cuba Standard Time") {
        Some("America/Havana")
    } else if str_eq_str(tzid, "Dateline Standard Time") {
        Some("Etc/GMT+12")
    } else if str_eq_str(tzid, "E. Africa Standard Time") {
        Some("Africa/Nairobi")
    } else if str_eq_str(tzid, "E. Australia Standard Time") {
        Some("Australia/Brisbane")
    } else if str_eq_str(tzid, "E. Europe Standard Time") {
        Some("Europe/Chisinau")
    } else if str_eq_str(tzid, "E. South America Standard Time") {
        Some("America/Sao_Paulo")
    } else if str_eq_str(tzid, "Eastern Standard Time") {
        Some("America/New_York")
    } else if str_eq_str(tzid, "Egypt Standard Time") {
        Some("Africa/Cairo")
    } else if str_eq_str(tzid, "FLE Standard Time") {
        Some("Europe/Kiev")
    } else if str_eq_str(tzid, "Fiji Standard Time") {
        Some("Pacific/Fiji")
    } else if str_eq_str(tzid, "GMT Standard Time") {
        Some("Europe/London")
    } else if str_eq_str(tzid, "GTB Standard Time") {
        Some("Europe/Bucharest")
    } else if str_eq_str(tzid, "Georgian Standard Time") {
        Some("Asia/Tbilisi")
    } else if str_eq_str(tzid, "Greenwich Standard Time") {
        Some("Atlantic/Reykjavik")
    } else if str_eq_str(tzid, "Hawaiian Standard Time") {
        Some("Pacific/Honolulu")
    } else if str_eq_str(tzid, "India Standard Time") {
        Some("Asia/Kolkata")
    } else if str_eq_str(tzid, "Iran Standard Time") {
        Some("Asia/Tehran")
    } else if str_eq_str(tzid, "Israel Standard Time") {
        Some("Asia/Jerusalem")
    } else if str_eq_str(tzid, "Jordan Standard Time") {
        Some("Asia/Amman")
    } else if str_eq_str(tzid, "Korea Standard Time") {
        Some("Asia/Seoul")
    } else if str_eq_str(tzid, "Morocco Standard Time") {
        Some("Africa/Casablanca")
    } else if str_eq_str(tzid, "Mountain Standard Time") {
        Some("America/Denver")
    } else if str_eq_str(tzid, "Myanmar Standard Time") {
        Some("Asia/Yangon")
    } else if str_eq_str(tzid, "Nepal Standard Time") {
        Some("Asia/Kathmandu")
    } else if str_eq_str(tzid, "New Zealand Standard Time") {
        Some("Pacific/Auckland")
    } else if str_eq_str(tzid, "Pacific Standard Time") {
        Some("America/Los_Angeles")
    } else if str_eq_str(tzid, "Pakistan Standard Time") {
        Some("Asia/Karachi")
    } else if str_eq_str(tzid, "Paraguay Standard Time") {
        Some("America/Asuncion")
    } else if str_eq_str(tzid, "Romance Standard Time") {
        Some("Europe/Paris")
    } else if str_eq_str(tzid, "Russian Standard Time") {
        Some("Europe/Moscow")
    } else if str_eq_str(tzid, "SA Eastern Standard Time") {
        Some("America/Cayenne")
    } else if str_eq_str(tzid, "SA Pacific Standard Time") {
        Some("America/Bogota")
    } else if str_eq_str(tzid, "SA Western Standard Time") {
        Some("America/La_Paz")
    } else if str_eq_str(tzid, "SE Asia Standard Time") {
        Some("Asia/Bangkok")
    } else if str_eq_str(tzid, "Singapore Standard Time") {
        Some("Asia/Singapore")
    } else if str_eq_str(tzid, "South Africa Standard Time") {
        Some("Africa/Johannesburg")
    } else if str_eq_str(tzid, "Sri Lanka Standard Time") {
        Some("Asia/Colombo")
    } else if str_eq_str(tzid, "Taipei Standard Time") {
        Some("Asia/Taipei")
    } else if str_eq_str(tzid, "Tokyo Standard Time") {
        Some("Asia/Tokyo")
    } else if str_eq_str(tzid, "Turkey Standard Time") {
        Some("Europe/Istanbul")
    } else if str_eq_str(tzid, "US Eastern Standard Time") {
        Some("America/Indiana/Indianapolis")
    } else if str_eq_str(tzid, "US Mountain Standard Time") {
        Some("America/Phoenix")
    } else if str_eq_str(tzid, "UTC") {
        Some("Etc/UTC")
    } else if str_eq_str(tzid, "UTC+12") {
        Some("Etc/GMT-12")
    } else if str_eq_str(tzid, "UTC-02") {
        Some("Etc/GMT+2")
    } else if str_eq_str(tzid, "UTC-11") {
        Some("Etc/GMT+11")
    } else if str_eq_str(tzid, "Venezuela Standard Time") {
        Some("America/Caracas")
    } else if str_eq_str(tzid, "Vladivostok Standard Time") {
        Some("Asia/Vladivostok")
    } else if str_eq_str(tzid, "W. Australia Standard Time") {
        Some("Australia/Perth")
    } else if str_eq_str(tzid, "W. Central Africa Standard Time") {
        Some("Africa/Lagos")
    } else if str_eq_str(tzid, "W. Europe Standard Time") {
        Some("Europe/Berlin")
    } else if str_eq_str(tzid, "West Asia Standard Time") {
        Some("Asia/Tashkent")
    } else if str_eq_str(tzid, "West Pacific Standard Time") {
        Some("Pacific/Port_Moresby")
    } else if str_eq_str(tzid, "Yakutsk Standard Time") {
        Some("Asia/Yakutsk")
    } else {
        None
    }
}

/// The fixed mapping from "explicit UTC offset + city list" display strings
/// to IANA zone names, keyed on the literal string: the mapping is
/// pre-built because city lists are ambiguous about daylight-saving rules.
pub open spec fn spec_explicit_to_iana(s: Seq<char>) -> Option<Seq<char>> {
    if s == "(UTC) Coordinated Universal Time"@ {
        Some("Etc/UTC"@)
    } else if s == "(UTC-08:00) Pacific Time (US & Canada)"@ {
        Some("America/Los_Angeles"@)
    } else if s == "(UTC-07:00) Mountain Time (US & Canada)"@ {
        Some("America/Denver"@)
    } else if s == "(UTC-06:00) Central Time (US & Canada)"@ {
        Some("America/Chicago"@)
    } else if s == "(UTC-05:00) Eastern Time (US & Canada)"@ {
        Some("America/New_York"@)
    } else if s == "(UTC-04:00) Georgetown, La Paz, Manaus, San Juan"@ {
        Some("America/La_Paz"@)
    } else if s == "(UTC-03:00) Brasilia"@ {
        Some("America/Sao_Paulo"@)
    } else if s == "(UTC+00:00) Dublin, Edinburgh, Lisbon, London"@ {
        Some("Europe/Dublin"@)
    } else if s == "(UTC+01:00) Amsterdam, Berlin, Bern, Rome, Stockholm, Vienna"@ {
        Some("Europe/Vienna"@)
    } else if s == "(UTC+01:00) Belgrade, Bratislava, Budapest, Ljubljana, Prague"@ {
        Some("Europe/Belgrade"@)
    } else if s == "(UTC+01:00) Brussels, Copenhagen, Madrid, Paris"@ {
        Some("Europe/Brussels"@)
    } else if s == "(UTC+01:00) Sarajevo, Skopje, Warsaw, Zagreb"@ {
        Some("Europe/Sarajevo"@)
    } else if s == "(UTC+02:00) Athens, Bucharest"@ {
        Some("Europe/Athens"@)
    } else if s == "(UTC+02:00) Helsinki, Kyiv, Riga, Sofia, Tallinn, Vilnius"@ {
        Some("Europe/Helsinki"@)
    } else if s == "(UTC+03:00) Moscow, St. Petersburg"@ {
        Some("Europe/Moscow"@)
    } else if s == "(UTC+05:30) Chennai, Kolkata, Mumbai, New Delhi"@ {
        Some("Asia/Kolkata"@)
    } else if s == "(UTC+08:00) Beijing, Chongqing, Hong Kong, Urumqi"@ {
        Some("Asia/Shanghai"@)
    } else if s == "(UTC+09:00) Osaka, Sapporo, Tokyo"@ {
        Some("Asia/Tokyo"@)
    } else if s == "(UTC+10:00) Canberra, Melbourne, Sydney"@ {
        Some("Australia/Sydney"@)
    } else {
        None
    }
}

/// Look up an explicit-offset display string such as
/// `(UTC+01:00) Amsterdam, Berlin, Bern, Rome, Stockholm, Vienna`.
#[verifier::rlimit(30)]
pub fn explicit_to_iana(tzid: &str) -> (r: Option<&'static str>)
    ensures
        match r {
            Some(z) => spec_explicit_to_iana(tzid@) == Some(z@),
            None => spec_explicit_to_iana(tzid@) is None,
        },
{
    if str_eq_str(tzid, "(UTC) Coordinated Universal Time") {
        Some("Etc/UTC")
    } else if str_eq_str(tzid, "(UTC-08:00) Pacific Time (US & Canada)") {
        Some("America/Los_Angeles")
    } else if str_eq_str(tzid, "(UTC-07:00) Mountain Time (US & Canada)") {
        Some("America/Denver")
    } else if str_eq_str(tzid, "(UTC-06:00) Central Time (US & Canada)") {
        Some("America/Chicago")
    } else if str_eq_str(tzid, "(UTC-05:00) Eastern Time (US & Canada)") {
        Some("America/New_York")
    } else if str_eq_str(tzid, "(UTC-04:00) Georgetown, La Paz, Manaus, San Juan") {
        Some("America/La_Paz")
    } else if str_eq_str(tzid, "(UTC-03:00) Brasilia") {
        Some("America/Sao_Paulo")
    } else if str_eq_str(tzid, "(UTC+00:00) Dublin, Edinburgh, Lisbon, London") {
        Some("Europe/Dublin")
    } else if str_eq_str(tzid, "(UTC+01:00) Amsterdam, Berlin, Bern, Rome, Stockholm, Vienna") {
        Some("Europe/Vienna")
    } else if str_eq_str(tzid, "(UTC+01:00) Belgrade, Bratislava, Budapest, Ljubljana, Prague") {
        Some("Europe/Belgrade")
    } else if str_eq_str(tzid, "(UTC+01:00) Brussels, Copenhagen, Madrid, Paris") {
        Some("Europe/Brussels")
    } else if str_eq_str(tzid, "(UTC+01:00) Sarajevo, Skopje, Warsaw, Zagreb") {
        Some("Europe/Sarajevo")
    } else if str_eq_str(tzid, "(UTC+02:00) Athens, Bucharest") {
        Some("Europe/Athens")
    } else if str_eq_str(tzid, "(UTC+02:00) Helsinki, Kyiv, Riga, Sofia, Tallinn, Vilnius") {
        Some("Europe/Helsinki")
    } else if str_eq_str(tzid, "(UTC+03:00) Moscow, St. Petersburg") {
        Some("Europe/Moscow")
    } else if str_eq_str(tzid, "(UTC+05:30) Chennai, Kolkata, Mumbai, New Delhi") {
        Some("Asia/Kolkata")
    } else if str_eq_str(tzid, "(UTC+08:00) Beijing, Chongqing, Hong Kong, Urumqi") {
        Some("Asia/Shanghai")
    } else if str_eq_str(tzid, "(UTC+09:00) Osaka, Sapporo, Tokyo") {
        Some("Asia/Tokyo")
    } else if str_eq_str(tzid, "(UTC+10:00) Canberra, Melbourne, Sydney") {
        Some("Australia/Sydney")
    } else {
        None
    }
}

/// A zone resolved from a TZID: either a standard zone of the IANA database
/// or a calendar-embedded custom zone of the feed's table.
pub enum ResolvedTz<'a> {
    Standard(chrono_tz::Tz),
    Custom(&'a CustomTz),
}

/// The custom zones a feed defined inline, keyed by their TZID. Newer
/// definitions shadow older ones of the same name.
pub struct CustomTzMap {
    pub entries: Vec<CustomTz>,
}

/// The first entry with the given name, if any.
pub open spec fn spec_ctz_lookup(entries: Seq<CustomTz>, name: Seq<char>) -> Option<CustomTz>
    decreases entries.len(),
{
    if entries.len() == 0 {
        None
    } else if entries[0].name@ == name {
        Some(entries[0])
    } else {
        spec_ctz_lookup(entries.drop_first(), name)
    }
}

impl CustomTzMap {
    /// Every zone in the table is fit for offset queries.
    pub open spec fn wf(self) -> bool {
        forall|i: int| 0 <= i < self.entries@.len() ==> (#[trigger] self.entries@[i]).wf()
    }

    pub fn new() -> (r: CustomTzMap)
        ensures
            r.entries@.len() == 0,
    {
        CustomTzMap { entries: Vec::new() }
    }

    /// Add a zone; it shadows any earlier zone of the same name.
    pub fn insert(&mut self, tz: CustomTz)
        ensures
            final(self).entries@ == old(self).entries@.insert(0, tz),
    {
        self.entries.insert(0, tz);
    }

    /// Find the zone a TZID names, calendar-embedded zones first.
    pub fn lookup(&self, name: &str) -> (r: Option<&CustomTz>)
        ensures
            match r {
                Some(tz) => spec_ctz_lookup(self.entries@, name@) == Some(*tz),
                None => spec_ctz_lookup(self.entries@, name@) is None,
            },
    {
        let mut i: usize = 0;
        proof {
            assert(self.entries@.subrange(0, self.entries@.len() as int) =~= self.entries@);
        }
        while i < self.entries.len()
            invariant
                i <= self.entries@.len(),
                spec_ctz_lookup(self.entries@, name@) == spec_ctz_lookup(
                    self.entries@.subrange(i as int, self.entries@.len() as int),
                    name@,
                ),
            decreases self.entries@.len() - i,
        {
            proof {
                assert(self.entries@.subrange(i as int, self.entries@.len() as int).drop_first()
                    =~= self.entries@.subrange(i + 1, self.entries@.len() as int));
            }
            if str_eq_str(self.entries[i].name.as_str(), name) {
                return Some(&self.entries[i]);
            }
            i = i + 1;
        }
        None
    }
}

/// Whether a TZID resolves as a standard zone: as an IANA name directly, or
/// through one of the two fixed mapping tables.
pub open spec fn spec_standard_resolvable(s: Seq<char>) -> bool {
    ||| iana_known(s)
    ||| (spec_windows_to_iana(s) matches Some(w) && iana_known(w))
    ||| (spec_explicit_to_iana(s) matches Some(e) && iana_known(e))
}

/// Parse a Windows/CLDR display identifier into a standard zone.
pub fn parse_windows_tzid(tzid: &str) -> (r: Result<chrono_tz::Tz, String>)
    ensures
        (r is Ok) == (spec_windows_to_iana(tzid@) matches Some(w) && iana_known(w)),
{
    match windows_to_iana(tzid) {
        Some(name) => match iana_zone_lookup(name) {
            Some(tz) => Ok(tz),
            None => Err(windows_tzid_error(tzid)),
        },
        None => Err(windows_tzid_error(tzid)),
    }
}

/// Parse an "explicit offset + city list" display string into a standard
/// zone.
pub fn parse_explicit_tzid(tzid: &str) -> (r: Result<chrono_tz::Tz, String>)
    ensures
        (r is Ok) == (spec_explicit_to_iana(tzid@) matches Some(e) && iana_known(e)),
{
    match explicit_to_iana(tzid) {
        Some(name) => match iana_zone_lookup(name) {
            Some(tz) => Ok(tz),
            None => Err(windows_tzid_error(tzid)),
        },
        None => Err(windows_tzid_error(tzid)),
    }
}

fn windows_tzid_error(tzid: &str) -> (r: String) {
    let mut msg = String::from_str("Timezone string ");
    msg.append(tzid);
    msg.append(" does not represent a windows timezone");
    msg
}

/// Parse a TZID against the standardized formats, tried in order: an IANA
/// name, a Windows/CLDR identifier, an explicit-offset display string.
/// Succeeds exactly when one of the three resolves.
pub fn parse_standard_tz(tzid: &str) -> (r: Result<chrono_tz::Tz, String>)
    ensures
        (r is Ok) == spec_standard_resolvable(tzid@),
{
    match iana_zone_lookup(tzid) {
        Some(tz) => Ok(tz),
        None => match parse_windows_tzid(tzid) {
            Ok(wtz) => Ok(wtz),
            Err(_) => match parse_explicit_tzid(tzid) {
                Ok(etz) => Ok(etz),
                Err(_) => {
                    let mut msg = String::from_str("Can't parse tzid ");
                    msg.append(tzid);
                    Err(msg)
                },
            },
        },
    }
}

/// What a resolver result must be, as a function of the identifier and the
/// custom-zone table alone: the matching table entry itself when there is
/// one — calendar-embedded zones are authoritative — and otherwise a
/// standard zone exactly when one of the standardized formats resolves.
pub open spec fn spec_resolves_to<'a>(
    r: Result<ResolvedTz<'a>, String>,
    tzid: Seq<char>,
    entries: Seq<CustomTz>,
) -> bool {
    match spec_ctz_lookup(entries, tzid) {
        Some(c) => r matches Ok(rt) && rt matches ResolvedTz::Custom(p) && *p == c,
        None => {
            &&& (r matches Ok(rt) ==> rt is Standard)
            &&& ((r is Ok) == spec_standard_resolvable(tzid))
        },
    }
}

/// Parse a TZID as it may occur in a feed. A custom-zone table entry is
/// authoritative and wins over every standardized format; otherwise the
/// standardized formats decide.
pub fn parse_tzid<'a>(tzid: &str, custom_timezones: &'a CustomTzMap) -> (r: Result<
    ResolvedTz<'a>,
    String,
>)
    ensures
        spec_resolves_to(r, tzid@, custom_timezones.entries@),
{
    match custom_timezones.lookup(tzid) {
        Some(tz) => Ok(ResolvedTz::Custom(tz)),
        None => match parse_standard_tz(tzid) {
            Ok(tz) => Ok(ResolvedTz::Standard(tz)),
            Err(e) => Err(e),
        },
    }
}

/// Round-trip idempotence: resolving a TZID twice against the same
/// custom-zone table yields identical results. The outcome — whether the
/// identifier resolves, which kind of zone it names, and for a custom zone
/// the zone itself — is a function of the identifier and the table alone,
/// so two resolutions of the same inputs cannot disagree.
pub proof fn lemma_resolution_idempotent<'a, 'b>(
    tzid: Seq<char>,
    entries: Seq<CustomTz>,
    r1: Result<ResolvedTz<'a>, String>,
    r2: Result<ResolvedTz<'b>, String>,
)
    requires
        spec_resolves_to(r1, tzid, entries),
        spec_resolves_to(r2, tzid, entries),
    ensures
        (r1 is Ok) == (r2 is Ok),
        match (r1, r2) {
            (Ok(a), Ok(b)) => match (a, b) {
                (ResolvedTz::Custom(ca), ResolvedTz::Custom(cb)) => *ca == *cb,
                (ResolvedTz::Standard(_), ResolvedTz::Standard(_)) => true,
                _ => false,
            },
            (Err(_), Err(_)) => true,
            _ => false,
        },
{
}

/// One `STANDARD` or `DAYLIGHT` sub-block of an embedded timezone
/// definition.
#[derive(Debug)]
pub struct TransitionBlock {
    /// True for a `DAYLIGHT` sub-block, false for `STANDARD`.
    pub daylight: bool,
    pub properties: Vec<Prop>,
}

/// One `VTIMEZONE` block of a feed: its own properties and its two
/// sub-blocks.
#[derive(Debug)]
pub struct VTimezoneBlock {
    pub properties: Vec<Prop>,
    pub transitions: Vec<TransitionBlock>,
}

/// What parsing a `±HHMM` UTC offset yields, in seconds. The sign applies
/// to the hours only, as the feed format writes offsets.
pub open spec fn spec_offset_seconds(s: Seq<char>) -> Option<int> {
    if s.len() == 5 && (s[0] == '+' || s[0] == '-') && spec_all_digits(s.subrange(1, 5)) {
        let hh = spec_num_val(s.subrange(1, 3));
        let mm = spec_num_val(s.subrange(3, 5));
        let signed_hours = if s[0] == '-' {
            -hh
        } else {
            hh
        };
        Some(signed_hours * 3600 + mm * 60)
    } else {
        None
    }
}

/// Converts offsets in string form like `+0200` — more generally `±HHMM` —
/// to the matching number of seconds.
pub fn offset_to_seconds(offset: &str) -> (r: Option<i32>)
    ensures
        match r {
            Some(v) => spec_offset_seconds(offset@) == Some(v as int) && -356400 <= v <= 362340,
            None => spec_offset_seconds(offset@) is None,
        },
{
    if offset.unicode_len() != 5 {
        return None;
    }
    let sign = offset.get_char(0);
    if sign != '+' && sign != '-' {
        return None;
    }
    let hh = crate::civil::read_num(offset, 1, 3);
    let mm = crate::civil::read_num(offset, 3, 5);
    match (hh, mm) {
        (Some(h), Some(m)) => {
            proof {
                lemma_offset_digit_cover(offset@);
                crate::civil::lemma_num_val_bounds(offset@.subrange(1, 3));
                crate::civil::lemma_num_val_bounds(offset@.subrange(3, 5));
                assert(crate::civil::spec_pow10(2) == 100) by {
                    reveal_with_fuel(crate::civil::spec_pow10, 4);
                }
            }
            let hours: i32 = if sign == '-' {
                -(h as i32)
            } else {
                h as i32
            };
            Some(hours * 3600 + m as i32 * 60)
        },
        _ => {
            proof {
                lemma_offset_digit_cover(offset@);
            }
            None
        },
    }
}

/// The two digit fields of a `±HHMM` offset cover its digit run exactly.
proof fn lemma_offset_digit_cover(s: Seq<char>)
    requires
        s.len() == 5,
    ensures
        spec_all_digits(s.subrange(1, 3)) && spec_all_digits(s.subrange(3, 5))
            <==> spec_all_digits(s.subrange(1, 5)),
{
    if spec_all_digits(s.subrange(1, 3)) && spec_all_digits(s.subrange(3, 5)) {
        assert forall|i: int| 0 <= i < 4 implies crate::civil::spec_is_digit(
            #[trigger] s.subrange(1, 5)[i],
        ) by {
            if i < 2 {
                assert(s.subrange(1, 5)[i] == s.subrange(1, 3)[i]);
            } else {
                assert(s.subrange(1, 5)[i] == s.subrange(3, 5)[i - 2]);
            }
        }
    }
    if spec_all_digits(s.subrange(1, 5)) {
        assert forall|i: int| 0 <= i < 2 implies crate::civil::spec_is_digit(
            #[trigger] s.subrange(1, 3)[i],
        ) by {
            assert(s.subrange(1, 3)[i] == s.subrange(1, 5)[i]);
        }
        assert forall|i: int| 0 <= i < 2 implies crate::civil::spec_is_digit(
            #[trigger] s.subrange(3, 5)[i],
        ) by {
            assert(s.subrange(3, 5)[i] == s.subrange(1, 5)[i + 2]);
        }
    }
}

/// The first index whose stamp's year reaches `below`, scanning from the
/// front; the length when none does.
pub open spec fn spec_skip_end(s: Seq<OccStamp>, below: int) -> int
    decreases s.len(),
{
    if s.len() == 0 {
        0
    } else if s[0].year >= below {
        0
    } else {
        1 + spec_skip_end(s.drop_first(), below)
    }
}

/// How many leading stamps have a year within `[lo, hi]`.
pub open spec fn spec_take_len(s: Seq<OccStamp>, lo: int, hi: int) -> int
    decreases s.len(),
{
    if s.len() == 0 {
        0
    } else if lo <= s[0].year <= hi {
        1 + spec_take_len(s.drop_first(), lo, hi)
    } else {
        0
    }
}

pub proof fn lemma_skip_end_bounds(s: Seq<OccStamp>, below: int)
    ensures
        0 <= spec_skip_end(s, below) <= s.len(),
    decreases s.len(),
{
    if s.len() > 0 && s[0].year < below {
        lemma_skip_end_bounds(s.drop_first(), below);
    }
}

pub proof fn lemma_take_len_bounds(s: Seq<OccStamp>, lo: int, hi: int)
    ensures
        0 <= spec_take_len(s, lo, hi) <= s.len(),
    decreases s.len(),
{
    if s.len() > 0 && lo <= s[0].year <= hi {
        lemma_take_len_bounds(s.drop_first(), lo, hi);
    }
}

/// The year window applied to an expansion: drop stamps until one reaches
/// `skip_below`, then keep stamps while their year stays within
/// `[take_lo, take_hi]`.
pub open spec fn spec_window(s: Seq<OccStamp>, skip_below: int, take_lo: int, take_hi: int) -> Seq<
    OccStamp,
> {
    let a = spec_skip_end(s, skip_below);
    let n = spec_take_len(s.skip(a), take_lo, take_hi);
    s.subrange(a, a + n)
}

/// Apply the year window to a list of stamps.
pub fn window_stamps(stamps: &Vec<OccStamp>, skip_below: i32, take_lo: i32, take_hi: i32) -> (r:
    Vec<OccStamp>)
    ensures
        r@ == spec_window(stamps@, skip_below as int, take_lo as int, take_hi as int),
        r@.len() <= stamps@.len(),
        forall|i: int| 0 <= i < r@.len() ==> stamps@.contains(#[trigger] r@[i]),
        forall|i: int|
            0 <= i < r@.len() ==> #[trigger] r@[i] == stamps@[spec_skip_end(
                stamps@,
                skip_below as int,
            ) + i],
        0 <= spec_skip_end(stamps@, skip_below as int),
        spec_skip_end(stamps@, skip_below as int) + r@.len() <= stamps@.len(),
{
    let n = stamps.len();
    let mut a: usize = 0;
    proof {
        assert(stamps@.skip(0) =~= stamps@);
    }
    while a < n && stamps[a].year < skip_below
        invariant
            0 <= a <= n,
            n == stamps@.len(),
            spec_skip_end(stamps@, skip_below as int) == a + spec_skip_end(
                stamps@.skip(a as int),
                skip_below as int,
            ),
        decreases n - a,
    {
        proof {
            assert(stamps@.skip(a as int)[0] == stamps@[a as int]);
            assert(stamps@.skip(a as int).drop_first() =~= stamps@.skip(a + 1));
        }
        a = a + 1;
    }
    proof {
        if a < n {
            assert(stamps@.skip(a as int)[0] == stamps@[a as int]);
        }
        lemma_skip_end_bounds(stamps@.skip(a as int), skip_below as int);
        assert(spec_skip_end(stamps@, skip_below as int) == a);
    }
    let mut out: Vec<OccStamp> = Vec::new();
    let mut i: usize = a;
    proof {
        assert(out@ =~= stamps@.subrange(a as int, a as int));
    }
    while i < n && take_lo <= stamps[i].year && stamps[i].year <= take_hi
        invariant
            a <= i <= n,
            n == stamps@.len(),
            out@ == stamps@.subrange(a as int, i as int),
            spec_take_len(stamps@.skip(a as int), take_lo as int, take_hi as int) == (i - a)
                + spec_take_len(stamps@.skip(i as int), take_lo as int, take_hi as int),
        decreases n - i,
    {
        proof {
            assert(stamps@.skip(i as int)[0] == stamps@[i as int]);
            assert(stamps@.skip(i as int).drop_first() =~= stamps@.skip(i + 1));
        }
        out.push(stamps[i]);
        proof {
            assert(out@ =~= stamps@.subrange(a as int, i + 1));
        }
        i = i + 1;
    }
    proof {
        if i < n {
            assert(stamps@.skip(i as int)[0] == stamps@[i as int]);
        }
        lemma_take_len_bounds(stamps@.skip(i as int), take_lo as int, take_hi as int);
        assert(spec_take_len(stamps@.skip(a as int), take_lo as int, take_hi as int) == i - a);
        assert forall|k: int| 0 <= k < out@.len() implies stamps@.contains(#[trigger] out@[k]) by {
            assert(out@[k] == stamps@[a + k]);
        }
        assert forall|k: int| 0 <= k < out@.len() implies #[trigger] out@[k] == stamps@[
            spec_skip_end(stamps@, skip_below as int) + k] by {
            assert(out@[k] == stamps@[a + k]);
        }
    }
    out
}

/// The instants of a list of stamps.
pub fn stamp_epochs(stamps: &Vec<OccStamp>) -> (r: Vec<i64>)
    ensures
        r@ == stamps@.map_values(|s: OccStamp| s.epoch),
{
    let mut out: Vec<i64> = Vec::new();
    let mut i: usize = 0;
    while i < stamps.len()
        invariant
            i <= stamps@.len(),
            out@.len() == i,
            forall|j: int| 0 <= j < i ==> out@[j] == stamps@[j].epoch,
        decreases stamps@.len() - i,
    {
        out.push(stamps[i].epoch);
        i = i + 1;
    }
    proof {
        assert(out@ =~= stamps@.map_values(|s: OccStamp| s.epoch));
    }
    out
}

/// The last `n` elements of a list (all of it when shorter).
pub fn last_up_to(v: &Vec<i64>, n: usize) -> (r: Vec<i64>)
    ensures
        r@ == (if v@.len() <= n {
            v@
        } else {
            v@.subrange(v@.len() - n, v@.len() as int)
        }),
        forall|i: int| 0 <= i < r@.len() ==> v@.contains(#[trigger] r@[i]),
{
    let start = if v.len() <= n {
        0
    } else {
        v.len() - n
    };
    let mut out: Vec<i64> = Vec::new();
    let mut i: usize = start;
    while i < v.len()
        invariant
            start <= i <= v@.len(),
            out@ == v@.subrange(start as int, i as int),
        decreases v@.len() - i,
    {
        out.push(v[i]);
        proof {
            assert(out@ =~= v@.subrange(start as int, i + 1));
        }
        i = i + 1;
    }
    proof {
        if start == 0 {
            assert(v@.subrange(0, v@.len() as int) =~= v@);
        }
        assert forall|k: int| 0 <= k < out@.len() implies v@.contains(#[trigger] out@[k]) by {
            assert(out@[k] == v@[start + k]);
        }
    }
    out
}

/// Sort transition points ascending by timestamp, keeping exactly the same
/// points. Points with equal timestamps keep their relative order.
pub fn sort_points(points: &Vec<(i64, i32)>) -> (r: Vec<(i64, i32)>)
    ensures
        r@.to_multiset() == points@.to_multiset(),
        r@.len() == points@.len(),
        forall|i: int, j: int| 0 <= i < j < r@.len() ==> r@[i].0 <= r@[j].0,
        forall|i: int| 0 <= i < r@.len() ==> points@.contains(#[trigger] r@[i]),
{
    let mut out: Vec<(i64, i32)> = Vec::new();
    let mut k: usize = 0;
    proof {
        assert(points@.subrange(0, 0) =~= Seq::<(i64, i32)>::empty());
        vstd::seq_lib::lemma_multiset_commutative(Seq::<(i64, i32)>::empty(), Seq::empty());
        assert(out@.to_multiset() =~= points@.subrange(0, 0).to_multiset());
    }
    while k < points.len()
        invariant
            k <= points@.len(),
            out@.len() == k,
            out@.to_multiset() == points@.subrange(0, k as int).to_multiset(),
            forall|i: int, j: int| 0 <= i < j < out@.len() ==> out@[i].0 <= out@[j].0,
        decreases points@.len() - k,
    {
        let p = points[k];
        let mut pos: usize = 0;
        while pos < out.len() && out[pos].0 <= p.0
            invariant
                pos <= out@.len(),
                forall|i: int| 0 <= i < pos ==> (#[trigger] out@[i]).0 <= p.0,
                forall|i: int, j: int| 0 <= i < j < out@.len() ==> out@[i].0 <= out@[j].0,
            decreases out@.len() - pos,
        {
            pos = pos + 1;
        }
        let ghost prev = out@;
        out.insert(pos, p);
        proof {
            broadcast use vstd::multiset::group_multiset_axioms;

            let a = prev.subrange(0, pos as int);
            let b = prev.subrange(pos as int, prev.len() as int);
            assert(a + seq![p] + b =~= out@);
            vstd::seq_lib::lemma_multiset_commutative(a + seq![p], b);
            vstd::seq_lib::lemma_multiset_commutative(a, seq![p]);
            vstd::seq_lib::lemma_multiset_commutative(a, b);
            assert(a + b =~= prev);
            let upto = points@.subrange(0, k + 1);
            assert(upto.drop_last() =~= points@.subrange(0, k as int));
            vstd::seq_lib::lemma_multiset_commutative(upto.drop_last(), seq![upto.last()]);
            assert(upto.drop_last() + seq![upto.last()] =~= upto);
            assert(seq![upto.last()] =~= seq![p]);
            assert(out@.to_multiset() =~= upto.to_multiset());
            assert forall|i: int, j: int| 0 <= i < j < out@.len() implies out@[i].0
                <= out@[j].0 by {
                if j < pos {
                } else if i < pos && j == pos {
                } else if i == pos {
                    assert(out@[j] == prev[j - 1]);
                    assert(prev[j - 1].0 >= prev[pos as int].0);
                } else if i > pos {
                    assert(out@[i] == prev[i - 1]);
                    assert(out@[j] == prev[j - 1]);
                } else {
                    assert(out@[i] == prev[i]);
                    assert(out@[j] == prev[j - 1]);
                    assert(prev[j - 1].0 >= prev[pos as int].0);
                }
            }
        }
        k = k + 1;
    }
    proof {
        assert(points@.subrange(0, points@.len() as int) =~= points@);
        assert forall|i: int| 0 <= i < out@.len() implies points@.contains(#[trigger] out@[i]) by {
            broadcast use vstd::seq_lib::group_to_multiset_ensures;

            assert(out@.contains(out@[i]));
            assert(out@.to_multiset().count(out@[i]) > 0);
            assert(points@.to_multiset().count(out@[i]) > 0);
        }
    }
    out
}

/// Collapse runs of equal timestamps, keeping the last point of each run:
/// the result is strictly increasing and every point kept was present.
pub fn dedupe_points(points: &Vec<(i64, i32)>) -> (r: Vec<(i64, i32)>)
    requires
        forall|i: int, j: int| 0 <= i < j < points@.len() ==> points@[i].0 <= points@[j].0,
    ensures
        forall|i: int, j: int| 0 <= i < j < r@.len() ==> r@[i].0 < r@[j].0,
        forall|i: int| 0 <= i < r@.len() ==> points@.contains(#[trigger] r@[i]),
        r@.len() <= points@.len(),
        points@.len() > 0 ==> r@.len() > 0,
    {
    let mut out: Vec<(i64, i32)> = Vec::new();
    let mut k: usize = 0;
    while k < points.len()
        invariant
            k <= points@.len(),
            out@.len() <= k,
            k > 0 ==> out@.len() > 0,
            forall|i: int, j: int| 0 <= i < j < points@.len() ==> points@[i].0 <= points@[j].0,
            forall|i: int, j: int| 0 <= i < j < out@.len() ==> out@[i].0 < out@[j].0,
            forall|i: int| 0 <= i < out@.len() ==> points@.contains(#[trigger] out@[i]),
            out@.len() > 0 && k < points@.len() ==> out@.last().0 <= points@[k as int].0,
        decreases points@.len() - k,
    {
        let p = points[k];
        if out.len() > 0 && out[out.len() - 1].0 == p.0 {
            let last = out.len() - 1;
            out.set(last, p);
            proof {
                assert(points@.contains(p));
            }
        } else {
            out.push(p);
            proof {
                assert(points@.contains(p));
            }
        }
        k = k + 1;
    }
    out
}

/// Consecutive strict increase gives pairwise strict increase.
proof fn lemma_pairwise_increasing(rest: Seq<(i64, FixedTimespan)>, i: int, j: int)
    requires
        forall|k: int| 0 <= k < rest.len() - 1 ==> (#[trigger] rest[k].0) < rest[k + 1].0,
        0 <= i < j < rest.len(),
    ensures
        rest[i].0 < rest[j].0,
    decreases j - i,
{
    if i + 1 < j {
        lemma_pairwise_increasing(rest, i + 1, j);
    }
}

fn offsets_bounded_exec(ts: &FixedTimespan) -> (r: bool)
    ensures
        r == ts.offsets_bounded(),
{
    -MAX_OFFSET <= ts.utc_offset && ts.utc_offset <= MAX_OFFSET && -MAX_OFFSET <= ts.dst_offset
        && ts.dst_offset <= MAX_OFFSET
}

/// Decide whether a span set is well-formed: bounded offsets and
/// transitions, strictly increasing transition instants, and local span
/// boundaries that move forward with the span index.
#[verifier::rlimit(100)]
pub fn check_set_wf(set: &FixedTimespanSet) -> (r: bool)
    ensures
        r == set.wf(),
{
    let n = set.rest.len();
    if n >= 0x1000_0000 {
        return false;
    }
    if !offsets_bounded_exec(&set.first) {
        return false;
    }
    let mut i: usize = 0;
    while i < n
        invariant
            i <= n,
            n == set.rest@.len(),
            forall|k: int| 0 <= k < i ==> (#[trigger] set.rest@[k].1).offsets_bounded(),
            forall|k: int|
                0 <= k < i ==> -MAX_TRANSITION <= (#[trigger] set.rest@[k].0) <= MAX_TRANSITION,
            forall|k: int| 0 <= k < i - 1 ==> (#[trigger] set.rest@[k].0) < set.rest@[k + 1].0,
        decreases n - i,
    {
        if !offsets_bounded_exec(&set.rest[i].1) {
            return false;
        }
        let t = set.rest[i].0;
        if t < -MAX_TRANSITION || t > MAX_TRANSITION {
            return false;
        }
        if i > 0 && set.rest[i - 1].0 >= t {
            return false;
        }
        i = i + 1;
    }
    proof {
        assert forall|a: int, b: int| 0 <= a < b < set.rest@.len() implies (
        #[trigger] set.rest@[a].0) < (#[trigger] set.rest@[b].0) by {
            lemma_pairwise_increasing(set.rest@, a, b);
        }
        assert(set.utc_wf());
    }
    // Local-side checks: every bounded local span is nonempty, boundaries
    // move forward, and non-adjacent spans stay disjoint.
    let mut i: usize = 1;
    while i < n
        invariant
            set.utc_wf(),
            1 <= i,
            i <= n || n == 0,
            n == set.rest@.len(),
            forall|k: int| 1 <= k < i ==> #[trigger] set.local_begin(k) < set.local_end(k),
            forall|k: int| 1 <= k < i ==> #[trigger] set.local_begin(k) < set.local_begin(k + 1),
            forall|k: int| 1 <= k < i ==> #[trigger] set.local_end(k - 1) < set.local_end(k),
        decreases n - i,
    {
        proof {
            assert(set.rest@[i - 1].1.offsets_bounded());
            assert(set.rest@[i as int].1.offsets_bounded());
            assert(-MAX_TRANSITION <= set.rest@[i - 1].0 <= MAX_TRANSITION);
            assert(-MAX_TRANSITION <= set.rest@[i as int].0 <= MAX_TRANSITION);
            if i >= 2 {
                assert(set.rest@[i - 2].1.offsets_bounded());
            }
        }
        let off_i = set.rest[i - 1].1.total_offset();
        let begin_i = set.rest[i - 1].0 + off_i;
        let end_i = set.rest[i].0 + off_i;
        proof {
            assert(begin_i == set.local_begin(i as int));
            assert(end_i == set.local_end(i as int));
        }
        if begin_i >= end_i {
            proof {
                assert(!set.local_wf());
            }
            return false;
        }
        let begin_next = set.rest[i].0 + set.rest[i].1.total_offset();
        proof {
            assert(begin_next == set.local_begin(i + 1));
        }
        if begin_i >= begin_next {
            proof {
                assert(!set.local_wf());
            }
            return false;
        }
        let off_prev = if i == 1 {
            set.first.total_offset()
        } else {
            set.rest[i - 2].1.total_offset()
        };
        let end_prev = set.rest[i - 1].0 + off_prev;
        proof {
            assert(end_prev == set.local_end(i - 1));
        }
        if end_prev >= end_i {
            proof {
                assert(!set.local_wf());
            }
            return false;
        }
        i = i + 1;
    }
    let mut j: usize = 2;
    while j <= n
        invariant
            set.utc_wf(),
            2 <= j,
            j <= n + 1 || n <= 1,
            n == set.rest@.len(),
            forall|k: int| 2 <= k < j ==> #[trigger] set.local_end(k - 2) <= set.local_begin(k),
        decreases n + 1 - j,
    {
        proof {
            assert(set.rest@[j - 2].1.offsets_bounded());
            assert(set.rest@[j - 1].1.offsets_bounded());
            assert(-MAX_TRANSITION <= set.rest@[j - 2].0 <= MAX_TRANSITION);
            assert(-MAX_TRANSITION <= set.rest@[j - 1].0 <= MAX_TRANSITION);
            if j >= 3 {
                assert(set.rest@[j - 3].1.offsets_bounded());
            }
        }
        let off_prev2 = if j == 2 {
            set.first.total_offset()
        } else {
            set.rest[j - 3].1.total_offset()
        };
        let end_prev2 = set.rest[j - 2].0 + off_prev2;
        let begin_j = set.rest[j - 1].0 + set.rest[j - 1].1.total_offset();
        proof {
            assert(end_prev2 == set.local_end(j - 2));
            assert(begin_j == set.local_begin(j as int));
        }
        if end_prev2 > begin_j {
            proof {
                assert(!set.local_wf());
            }
            return false;
        }
        j = j + 1;
    }
    proof {
        assert(set.local_wf());
    }
    true
}

fn calendar_error(msg: &str) -> (r: CalendarError)
    ensures
        r.msg@ == msg@,
{
    CalendarError::new(String::from_str(msg))
}

/// Interpret a naive local timestamp by the resolution policy: the earlier
/// offset of an ambiguity, and no instant at all inside a gap.
pub fn epoch_from_local_policy(naive: i64, res: LocalResolution<i32>) -> (r: Option<i64>)
    requires
        -8100000000000 <= naive <= 8100000000000,
        (res matches LocalResolution::Single(o) ==> -86400 < o < 86400),
        (res matches LocalResolution::Ambiguous(a, b) ==> -86400 < a < 86400),
    ensures
        match res.spec_earliest() {
            Some(o) => r == Some((naive - o) as i64),
            None => r is None,
        },
{
    match res.earliest() {
        Some(o) => Some(naive - o as i64),
        None => None,
    }
}

/// The builder's year window applied to an expansion: the stamps with a
/// year from two years before to two years after `y`; when that window is
/// empty, the last four (or fewer) instants before year `y` instead.
pub open spec fn spec_tz_window_result(stamps: Seq<OccStamp>, y: int, v: Seq<i64>) -> bool {
    let windowed = spec_window(stamps, y - 2, -2147483648, y + 1);
    if windowed.len() > 0 {
        v == windowed.map_values(|st: OccStamp| st.epoch)
    } else {
        let eps = spec_window(stamps, -2147483648, -2147483648, y - 1).map_values(
            |st: OccStamp| st.epoch,
        );
        v == (if eps.len() <= 4 {
            eps
        } else {
            eps.subrange(eps.len() - 4, eps.len() as int)
        })
    }
}

/// The instants are a windowed expansion of some chronological rule
/// expansion around some current year.
pub open spec fn spec_windowed_expansion(v: Seq<i64>) -> bool {
    exists|y: int, stamps: Seq<OccStamp>|
        #![trigger spec_tz_window_result(stamps, y, v)]
        -300000 < y < 300000 && spec_tz_window_result(stamps, y, v)
}

/// Expand the transition occurrences of one `STANDARD` or `DAYLIGHT` block:
/// the instants of its start rule, windowed to two years before to two
/// years after now; when the window is empty, the last four transitions
/// before now; when the block has no recurrence rule, its single anchor
/// instant, interpreted in the configured local zone.
pub fn parse_occurrences_from_timespan(properties: &Vec<Prop>, local_tz: &chrono_tz::Tz) -> (r:
    Result<Vec<i64>, CalendarError>)
    ensures
        spec_find_property(properties@, "DTSTART"@) is None ==> r is Err,
        match spec_find_property(properties@, "DTSTART"@) {
            Some(dp) => spec_find_property(properties@, "RRULE"@) is None ==> (match dp.value {
                Some(dv) => match crate::civil::spec_parse_datetime(dv@) {
                    Some(p) => r matches Ok(v) ==> (v@.len() == 1 && spec_epoch_of(p) - 86400
                        < v@[0] < spec_epoch_of(p) + 86400),
                    None => r is Err,
                },
                None => r is Err,
            }),
            None => true,
        },
        (spec_find_property(properties@, "DTSTART"@) is Some && spec_find_property(
            properties@,
            "RRULE"@,
        ) is Some) ==> (match r {
            Ok(v) => {
                &&& (forall|i: int, j: int|
                    0 <= i < j < v@.len() ==> (#[trigger] v@[i]) <= (#[trigger] v@[j]))
                &&& spec_windowed_expansion(v@)
            },
            Err(_) => true,
        }),
        match r {
            Ok(v) => {
                &&& spec_find_property(properties@, "DTSTART"@) is Some
                &&& v@.len() <= 65535
                &&& (forall|i: int|
                    0 <= i < v@.len() ==> -8100000000000 <= #[trigger] v@[i] <= 8100000000000)
                &&& (spec_find_property(properties@, "RRULE"@) is None ==> v@.len() == 1)
            },
            Err(_) => true,
        },
{
    let maybe_dtstart_prop = find_property(properties, "DTSTART");
    let maybe_rrule_prop = find_property(properties, "RRULE");
    let dtstart_prop = match maybe_dtstart_prop {
        Some(p) => p,
        None => {
            return Err(calendar_error("Invalid definition for timespan, missing DTSTART"));
        },
    };
    match maybe_rrule_prop {
        Some(rrule_prop) => {
            let mut rule_props: Vec<Prop> = Vec::new();
            rule_props.push(rrule_prop.clone());
            rule_props.push(dtstart_prop.clone());
            let event_as_string = properties_to_string(&rule_props);
            match rrule_parse(event_as_string.as_str()) {
                Ok(ruleset) => {
                    let stamps = rrule_all(ruleset, 65535);
                    let current_year = current_year_local();
                    // Keep transitions near the current year: embedded
                    // definitions are typically anchored centuries back and
                    // full expansion is wasted work.
                    let relevant = window_stamps(
                        &stamps,
                        current_year - 2,
                        i32::MIN,
                        current_year + 1,
                    );
                    if relevant.len() == 0 {
                        // A zone that stopped observing transitions before
                        // the window: fall back to the last four transitions
                        // before the current year.
                        let before_now = window_stamps(
                            &stamps,
                            i32::MIN,
                            i32::MIN,
                            current_year - 1,
                        );
                        let epochs = stamp_epochs(&before_now);
                        proof {
                            assert forall|k: int| 0 <= k < epochs@.len() implies -8100000000000
                                <= #[trigger] epochs@[k] <= 8100000000000 by {
                                assert(epochs@[k] == before_now@[k].epoch);
                                assert(stamps@.contains(before_now@[k]));
                                let w = choose|w: int|
                                    0 <= w < stamps@.len() && stamps@[w] == before_now@[k];
                                assert(spec_stamp_sane(stamps@[w]));
                            }
                        }
                        let last4 = last_up_to(&epochs, 4);
                        proof {
                            assert forall|k: int| 0 <= k < last4@.len() implies -8100000000000
                                <= #[trigger] last4@[k] <= 8100000000000 by {
                                assert(epochs@.contains(last4@[k]));
                                let w = choose|w: int|
                                    0 <= w < epochs@.len() && epochs@[w] == last4@[k];
                            }
                            let a = spec_skip_end(stamps@, i32::MIN as int);
                            assert forall|i: int, j: int| 0 <= i < j < epochs@.len() implies (
                            #[trigger] epochs@[i]) <= (#[trigger] epochs@[j]) by {
                                assert(epochs@[i] == before_now@[i].epoch);
                                assert(epochs@[j] == before_now@[j].epoch);
                                assert(before_now@[i] == stamps@[a + i]);
                                assert(before_now@[j] == stamps@[a + j]);
                            }
                            assert forall|i: int, j: int| 0 <= i < j < last4@.len() implies (
                            #[trigger] last4@[i]) <= (#[trigger] last4@[j]) by {
                                if epochs@.len() > 4 {
                                    assert(last4@[i] == epochs@[epochs@.len() - 4 + i]);
                                    assert(last4@[j] == epochs@[epochs@.len() - 4 + j]);
                                }
                            }
                            assert(before_now@.map_values(|st: OccStamp| st.epoch) =~= epochs@);
                            assert(spec_tz_window_result(stamps@, current_year as int, last4@));
                            assert(spec_windowed_expansion(last4@));
                        }
                        Ok(last4)
                    } else {
                        let epochs = stamp_epochs(&relevant);
                        proof {
                            assert forall|k: int| 0 <= k < epochs@.len() implies -8100000000000
                                <= #[trigger] epochs@[k] <= 8100000000000 by {
                                assert(epochs@[k] == relevant@[k].epoch);
                                assert(stamps@.contains(relevant@[k]));
                                let w = choose|w: int|
                                    0 <= w < stamps@.len() && stamps@[w] == relevant@[k];
                                assert(spec_stamp_sane(stamps@[w]));
                            }
                            let a = spec_skip_end(stamps@, (current_year - 2) as int);
                            assert forall|i: int, j: int| 0 <= i < j < epochs@.len() implies (
                            #[trigger] epochs@[i]) <= (#[trigger] epochs@[j]) by {
                                assert(epochs@[i] == relevant@[i].epoch);
                                assert(epochs@[j] == relevant@[j].epoch);
                                assert(relevant@[i] == stamps@[a + i]);
                                assert(relevant@[j] == stamps@[a + j]);
                            }
                            assert(relevant@.map_values(|st: OccStamp| st.epoch) =~= epochs@);
                            assert(spec_tz_window_result(stamps@, current_year as int, epochs@));
                            assert(spec_windowed_expansion(epochs@));
                        }
                        Ok(epochs)
                    }
                },
                Err(e) => {
                    let mut msg = String::from_str("error for string '");
                    msg.append(event_as_string.as_str());
                    msg.append("' in RRULE parsing: ");
                    msg.append(e.as_str());
                    Err(CalendarError::new(msg))
                },
            }
        },
        None => {
            // No recurrence rule: zones without daylight saving declare a
            // single anchor instant.
            let date_time_str = match &dtstart_prop.value {
                Some(v) => v,
                None => {
                    return Err(
                        calendar_error("Could not parse DTSTART for timezone timespan: no value"),
                    );
                },
            };
            match parse_datetime_value(date_time_str.as_str()) {
                Some(parts) => {
                    let naive = epoch_of_parts(&parts);
                    let res = std_zone_offset_from_local(local_tz, naive);
                    match epoch_from_local_policy(naive, res) {
                        Some(epoch) => {
                            let mut single: Vec<i64> = Vec::new();
                            single.push(epoch);
                            Ok(single)
                        },
                        None => Err(
                            calendar_error(
                                "Could not resolve DTSTART for timezone timespan in the local timezone",
                            ),
                        ),
                    }
                },
                None => {
                    let mut msg = String::from_str(
                        "Could not parse DTSTART for timezone timespan with value ",
                    );
                    msg.append(date_time_str.as_str());
                    Err(CalendarError::new(msg))
                },
            }
        },
    }
}

/// The UTC offsets one transition block declares, in seconds: present
/// exactly when both `TZOFFSETFROM` and `TZOFFSETTO` are well-formed
/// offsets no larger than a day.
pub open spec fn spec_transition_offsets(props: Seq<Prop>) -> Option<(int, int)> {
    match (spec_find_property(props, "TZOFFSETFROM"@), spec_find_property(props, "TZOFFSETTO"@)) {
        (Some(pf), Some(pt)) => match (pf.value, pt.value) {
            (Some(vf), Some(vt)) => match (spec_offset_seconds(vf@), spec_offset_seconds(vt@)) {
                (Some(f), Some(t)) => if -86400 <= f <= 86400 && -86400 <= t <= 86400 {
                    Some((f, t))
                } else {
                    None
                },
                _ => None,
            },
            _ => None,
        },
        _ => None,
    }
}

/// The offsets of one transition block.
pub struct ParsedTransition {
    pub offsetfrom: i32,
    pub offsetto: i32,
}

/// Read the `TZOFFSETFROM`/`TZOFFSETTO` declarations of a transition block.
pub fn parse_icaltimezonetransition(t: &TransitionBlock) -> (r: Result<
    ParsedTransition,
    CalendarError,
>)
    ensures
        match r {
            Ok(pt) => spec_transition_offsets(t.properties@) == Some(
                (pt.offsetfrom as int, pt.offsetto as int),
            ),
            Err(_) => spec_transition_offsets(t.properties@) is None,
        },
{
    let from_value = match find_property_value(&t.properties, "TZOFFSETFROM") {
        Some(v) => v,
        None => {
            return Err(calendar_error("no TZOFFSETFROM in timezone transition"));
        },
    };
    let to_value = match find_property_value(&t.properties, "TZOFFSETTO") {
        Some(v) => v,
        None => {
            return Err(calendar_error("no TZOFFSETTO in timezone transition"));
        },
    };
    let from_secs = match offset_to_seconds(from_value.as_str()) {
        Some(v) => v,
        None => {
            return Err(calendar_error("malformed TZOFFSETFROM in timezone transition"));
        },
    };
    let to_secs = match offset_to_seconds(to_value.as_str()) {
        Some(v) => v,
        None => {
            return Err(calendar_error("malformed TZOFFSETTO in timezone transition"));
        },
    };
    if from_secs < -86400 || from_secs > 86400 || to_secs < -86400 || to_secs > 86400 {
        return Err(calendar_error("out-of-range UTC offset in timezone transition"));
    }
    Ok(ParsedTransition { offsetfrom: from_secs, offsetto: to_secs })
}

/// Build the fixed-timespan model of one embedded timezone definition: both
/// sub-blocks' transition rules expanded into instants near now, merged into
/// one ascending sequence, each instant tagged with the offset that applies
/// from it on. The span before the first transition is a synthetic
/// placeholder that real event dates never reach.
#[verifier::rlimit(100)]
#[verifier::spinoff_prover]
pub fn parse_timespansets(vtimezone: &VTimezoneBlock, local_tz: &chrono_tz::Tz) -> (r: Result<
    FixedTimespanSet,
    CalendarError,
>)
    ensures
        vtimezone.transitions@.len() != 2 ==> r is Err,
        match r {
            Ok(set) => {
                &&& set.wf()
                &&& vtimezone.transitions@.len() == 2
                &&& spec_transition_offsets(vtimezone.transitions@[0].properties@) is Some
                &&& spec_transition_offsets(vtimezone.transitions@[1].properties@) is Some
                &&& set.first.utc_offset == 0
                &&& set.first.dst_offset == 0
                &&& set.first.name@ == Seq::<char>::empty()
                &&& (forall|i: int|
                    0 <= i < set.rest@.len() ==> (#[trigger] set.rest@[i]).1.dst_offset == 0 && ((
                    spec_transition_offsets(vtimezone.transitions@[0].properties@) matches Some(t0)
                        && set.rest@[i].1.utc_offset == t0.1) || (spec_transition_offsets(
                        vtimezone.transitions@[1].properties@,
                    ) matches Some(t1) && set.rest@[i].1.utc_offset == t1.1)))
            },
            Err(_) => true,
        },
{
    if vtimezone.transitions.len() != 2 {
        return Err(
            calendar_error(
                "Invalid timezone definition: expected exactly one STANDARD and one DAYLIGHT block",
            ),
        );
    }
    let t0 = parse_icaltimezonetransition(&vtimezone.transitions[0])?;
    let t1 = parse_icaltimezonetransition(&vtimezone.transitions[1])?;
    let occ0 = parse_occurrences_from_timespan(&vtimezone.transitions[0].properties, local_tz)?;
    let occ1 = parse_occurrences_from_timespan(&vtimezone.transitions[1].properties, local_tz)?;
    proof {
        assert(-86400 <= t0.offsetto <= 86400);
        assert(-86400 <= t1.offsetto <= 86400);
    }
    let mut points: Vec<(i64, i32)> = Vec::new();
    let mut i: usize = 0;
    while i < occ0.len()
        invariant
            i <= occ0@.len(),
            -86400 <= t0.offsetto <= 86400,
            forall|k: int|
                0 <= k < occ0@.len() ==> -8100000000000 <= #[trigger] occ0@[k] <= 8100000000000,
            forall|k: int|
                0 <= k < points@.len() ==> -8100000000000 <= (#[trigger] points@[k]).0
                    <= 8100000000000 && -86400 <= points@[k].1 <= 86400,
            forall|k: int|
                0 <= k < points@.len() ==> (#[trigger] points@[k]).1 == t0.offsetto
                    || points@[k].1 == t1.offsetto,
        decreases occ0@.len() - i,
    {
        points.push((occ0[i], t0.offsetto));
        i = i + 1;
    }
    let mut i: usize = 0;
    while i < occ1.len()
        invariant
            i <= occ1@.len(),
            -86400 <= t1.offsetto <= 86400,
            forall|k: int|
                0 <= k < occ1@.len() ==> -8100000000000 <= #[trigger] occ1@[k] <= 8100000000000,
            forall|k: int|
                0 <= k < points@.len() ==> -8100000000000 <= (#[trigger] points@[k]).0
                    <= 8100000000000 && -86400 <= points@[k].1 <= 86400,
            forall|k: int|
                0 <= k < points@.len() ==> (#[trigger] points@[k]).1 == t0.offsetto
                    || points@[k].1 == t1.offsetto,
        decreases occ1@.len() - i,
    {
        points.push((occ1[i], t1.offsetto));
        i = i + 1;
    }
    let sorted = sort_points(&points);
    let deduped = dedupe_points(&sorted);
    let mut rest: Vec<(i64, FixedTimespan)> = Vec::new();
    let mut i: usize = 0;
    while i < deduped.len()
        invariant
            i <= deduped@.len(),
            rest@.len() == i,
            forall|k: int|
                0 <= k < i ==> (#[trigger] rest@[k]).0 == deduped@[k].0 && rest@[k].1.utc_offset
                    == deduped@[k].1 && rest@[k].1.dst_offset == 0,
        decreases deduped@.len() - i,
    {
        let p = deduped[i];
        rest.push(
            (p.0, FixedTimespan { utc_offset: p.1, dst_offset: 0, name: String::new() }),
        );
        i = i + 1;
    }
    let set = FixedTimespanSet {
        // This synthetic first timespan models the time before the first
        // transition point; embedded definitions anchor their rules far in
        // the past, so real event dates never fall in it.
        first: FixedTimespan { utc_offset: 0, dst_offset: 0, name: String::new() },
        rest,
    };
    proof {
        assert forall|k: int| 0 <= k < set.rest@.len() implies (
        #[trigger] set.rest@[k]).1.dst_offset == 0 && (set.rest@[k].1.utc_offset == t0.offsetto
            || set.rest@[k].1.utc_offset == t1.offsetto) by {
            assert(set.rest@[k].1.utc_offset == deduped@[k].1);
            assert(sorted@.contains(deduped@[k]));
            let w1 = choose|w1: int| 0 <= w1 < sorted@.len() && sorted@[w1] == deduped@[k as int];
            assert(points@.contains(sorted@[w1]));
            let w2 = choose|w2: int| 0 <= w2 < points@.len() && points@[w2] == sorted@[w1];
            assert(points@[w2].1 == t0.offsetto || points@[w2].1 == t1.offsetto);
        }
    }
    if check_set_wf(&set) {
        Ok(set)
    } else {
        Err(calendar_error("Invalid timezone definition: transitions too close together"))
    }
}

/// Parse one embedded `VTIMEZONE` block into a named custom zone.
#[verifier::rlimit(50)]
pub fn parse_ical_timezone(vtimezone: &VTimezoneBlock, local_tz: &chrono_tz::Tz) -> (r: Result<
    (String, CustomTz),
    CalendarError,
>)
    ensures
        match r {
            Ok((name, tz)) => tz.wf() && tz.name@ == name@ && spec_block_ok(*vtimezone) && (
            match spec_find_property(vtimezone.properties@, "TZID"@) {
                Some(p) => p.value matches Some(v) && v@ == name@,
                None => false,
            }),
            Err(_) => true,
        },
{
    match find_property_value(&vtimezone.properties, "TZID") {
        Some(name) => {
            let timespanset = parse_timespansets(vtimezone, local_tz)?;
            let tz_name = name.clone();
            Ok((name, CustomTz { name: tz_name, timespanset }))
        },
        None => Err(calendar_error("Expecting TZID property for custom timezone")),
    }
}

/// The block's `TZID` property names it `name`.
pub open spec fn spec_block_named(block: VTimezoneBlock, name: Seq<char>) -> bool {
    match spec_find_property(block.properties@, "TZID"@) {
        Some(p) => p.value matches Some(v) && v@ == name,
        None => false,
    }
}

/// The library-decided validity of a `VTIMEZONE` block: it carries a TZID
/// value and exactly two transition blocks whose UTC offsets are
/// well-formed.
pub open spec fn spec_block_ok(block: VTimezoneBlock) -> bool {
    &&& (match spec_find_property(block.properties@, "TZID"@) {
        Some(p) => p.value is Some,
        None => false,
    })
    &&& block.transitions@.len() == 2
    &&& spec_transition_offsets(block.transitions@[0].properties@) is Some
    &&& spec_transition_offsets(block.transitions@[1].properties@) is Some
}

/// Parse every `VTIMEZONE` block of a feed into the custom-zone table; a
/// malformed block fails the whole feed. The table holds one well-formed
/// zone per block, each named by its block's `TZID` value; later blocks
/// stand in front, so they shadow earlier ones of the same name.
pub fn parse_ical_timezones(timezones: &Vec<VTimezoneBlock>, local_tz: &chrono_tz::Tz) -> (r:
    Result<CustomTzMap, CalendarError>)
    ensures
        timezones@.len() == 0 ==> r is Ok,
        match r {
            Ok(map) => {
                &&& map.wf()
                &&& map.entries@.len() == timezones@.len()
                &&& (forall|i: int|
                    0 <= i < map.entries@.len() ==> spec_block_named(
                        timezones@[timezones@.len() - 1 - i],
                        (#[trigger] map.entries@[i]).name@,
                    ))
                &&& (forall|i: int|
                    0 <= i < timezones@.len() ==> spec_block_ok(#[trigger] timezones@[i]))
            },
            Err(_) => true,
        },
{
    let mut zones: Vec<CustomTz> = Vec::new();
    let mut i: usize = 0;
    while i < timezones.len()
        invariant
            i <= timezones@.len(),
            zones@.len() == i,
            forall|j: int|
                0 <= j < i ==> (#[trigger] zones@[j]).wf() && spec_block_named(
                    timezones@[j],
                    zones@[j].name@,
                ),
            forall|j: int| 0 <= j < i ==> spec_block_ok(#[trigger] timezones@[j]),
        decreases timezones@.len() - i,
    {
        let (_, tz) = parse_ical_timezone(&timezones[i], local_tz)?;
        zones.push(tz);
        i = i + 1;
    }
    // Reverse so the last block of the feed stands first and shadows
    // earlier blocks of the same name, as insertion does.
    let ghost built = zones@;
    let mut entries: Vec<CustomTz> = Vec::new();
    let mut rest = zones;
    while rest.len() > 0
        invariant
            entries@.len() + rest@.len() == built.len(),
            rest@ == built.subrange(0, rest@.len() as int),
            forall|j: int|
                0 <= j < entries@.len() ==> #[trigger] entries@[j] == built[built.len() - 1 - j],
        decreases rest@.len(),
    {
        let x = match rest.pop() {
            Some(x) => x,
            None => {
                proof {
                    assert(false);
                }
                return Err(calendar_error("unreachable"));
            },
        };
        proof {
            assert(x == built[rest@.len() as int]);
            assert(rest@ =~= built.subrange(0, rest@.len() as int));
        }
        entries.push(x);
    }
    let map = CustomTzMap { entries };
    proof {
        assert forall|k: int| 0 <= k < map.entries@.len() implies (
        #[trigger] map.entries@[k]).wf() && spec_block_named(
            timezones@[timezones@.len() - 1 - k],
            map.entries@[k].name@,
        ) by {
            assert(map.entries@[k] == built[built.len() - 1 - k]);
            assert(built[built.len() - 1 - k].wf());
            assert(spec_block_named(timezones@[built.len() - 1 - k], built[built.len() - 1
                - k].name@));
        }
    }
    Ok(map)
}

} // verus!
