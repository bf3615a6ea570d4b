//! Tests of the timezone identifier resolver: IANA names, Windows/CLDR
//! display names, explicit-offset city lists, and custom-zone precedence.

use chrono_tz::Europe::{Berlin, Dublin, Vienna};
use meeters_core::{
    offset_to_seconds, parse_standard_tz, parse_tzid, CustomTz, CustomTzMap, FixedTimespan,
    FixedTimespanSet, ResolvedTz,
};

#[test]
fn parses_iana_strings() {
    assert_eq!(Berlin, parse_standard_tz("Europe/Berlin").unwrap());
}

#[test]
fn parses_windows_strings() {
    assert_eq!(Berlin, parse_standard_tz("W. Europe Standard Time").unwrap());
}

#[test]
fn parses_fucked_windows_strings() {
    assert_eq!(
        Vienna,
        parse_standard_tz("(UTC+01:00) Amsterdam, Berlin, Bern, Rome, Stockholm, Vienna").unwrap()
    );
    assert_eq!(
        Dublin,
        parse_standard_tz("(UTC+00:00) Dublin, Edinburgh, Lisbon, London").unwrap()
    );
}

#[test]
fn chrono_ical_parses_iana_strings() {
    assert_eq!(Berlin, parse_standard_tz("Europe/Berlin").unwrap());
}

#[test]
fn chrono_ical_parses_windows_strings() {
    assert_eq!(Berlin, parse_standard_tz("W. Europe Standard Time").unwrap());
}

#[test]
fn chrono_ical_parses_fucked_windows_strings() {
    assert_eq!(
        Vienna,
        parse_standard_tz("(UTC+01:00) Amsterdam, Berlin, Bern, Rome, Stockholm, Vienna").unwrap()
    );
    assert_eq!(
        Dublin,
        parse_standard_tz("(UTC+00:00) Dublin, Edinburgh, Lisbon, London").unwrap()
    );
}

#[test]
fn unknown_timezone_strings_are_rejected() {
    assert!(parse_standard_tz("Atlantis/Lost_City").is_err());
    let empty = CustomTzMap::new();
    assert!(parse_tzid("Atlantis/Lost_City", &empty).is_err());
}

fn sample_custom_zone(name: &str) -> CustomTz {
    CustomTz {
        name: name.to_string(),
        timespanset: FixedTimespanSet {
            first: FixedTimespan { utc_offset: 0, dst_offset: 0, name: String::new() },
            rest: vec![(
                1000000,
                FixedTimespan { utc_offset: 3600, dst_offset: 0, name: String::new() },
            )],
        },
    }
}

#[test]
fn custom_zones_take_precedence_over_standard_names() {
    // A calendar-embedded zone that shadows a real IANA name wins.
    let mut table = CustomTzMap::new();
    table.insert(sample_custom_zone("Europe/Berlin"));
    match parse_tzid("Europe/Berlin", &table).unwrap() {
        ResolvedTz::Custom(c) => assert_eq!(c.name, "Europe/Berlin"),
        ResolvedTz::Standard(_) => panic!("embedded zones must win over IANA names"),
    }
}

/// Round-trip idempotence: resolving a TZID twice against the same table
/// yields identical results.
#[test]
fn resolving_twice_yields_identical_results() {
    let mut table = CustomTzMap::new();
    table.insert(sample_custom_zone("My/Zone"));
    for tzid in ["My/Zone", "Europe/Berlin", "W. Europe Standard Time", "Nonsense"] {
        let first = parse_tzid(tzid, &table);
        let second = parse_tzid(tzid, &table);
        match (first, second) {
            (Ok(ResolvedTz::Custom(a)), Ok(ResolvedTz::Custom(b))) => {
                assert_eq!(a.name, b.name);
                assert_eq!(a.timespanset.rest.len(), b.timespanset.rest.len());
            }
            (Ok(ResolvedTz::Standard(a)), Ok(ResolvedTz::Standard(b))) => assert_eq!(a, b),
            (Err(a), Err(b)) => assert_eq!(a, b),
            _ => panic!("two resolutions of {} disagreed", tzid),
        }
    }
}

#[test]
fn offset_strings_convert_to_seconds() {
    assert_eq!(offset_to_seconds("+0200"), Some(7200));
    assert_eq!(offset_to_seconds("+0000"), Some(0));
    // The sign applies to the hours only, as the feed format writes offsets.
    assert_eq!(offset_to_seconds("-0430"), Some(-4 * 3600 + 30 * 60));
    assert_eq!(offset_to_seconds("0200"), None);
    assert_eq!(offset_to_seconds("+02:00"), None);
    assert_eq!(offset_to_seconds(""), None);
}
