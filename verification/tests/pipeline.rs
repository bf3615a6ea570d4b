//! End-to-end tests of event parsing, recurrence expansion, embedded
//! timezone handling, and reconciliation of modifying events.

use chrono::Datelike;
use meeters_core::{
    calculate_occurrences, epoch_of_parts, extract_events, get_events_for_interval,
    parse_datetime_value, parse_ical_timezone, parse_occurrences, partition_modifying_events,
    parse_zoom_url, CustomTzMap, Event, Prop, RawEvent, TransitionBlock, VTimezoneBlock,
};

fn this_year() -> i32 {
    chrono::Local::now().year()
}

fn prop(name: &str, value: &str) -> Prop {
    let mut p = Prop::new();
    p.name = name.to_string();
    p.value = Some(value.to_string());
    p
}

fn prop_with_param(name: &str, pname: &str, pvalue: &str, value: &str) -> Prop {
    let mut p = prop(name, value);
    p.params = Some(vec![(pname.to_string(), vec![pvalue.to_string()])]);
    p
}

fn plain_event(summary: &str, start: i64, end: i64) -> Event {
    Event {
        summary: summary.to_string(),
        description: String::new(),
        location: String::new(),
        meeturl: None,
        all_day: false,
        start_timestamp: start,
        end_timestamp: end,
        num_participants: 1,
    }
}

fn utc_epoch(value: &str) -> i64 {
    epoch_of_parts(&parse_datetime_value(value).unwrap())
}

/// UNTIL rewrite correctness: for a weekly rule with an explicitly zoned
/// start, the UTC `UNTIL` bound is rewritten into the source zone so the
/// final legitimate occurrence on the boundary is not dropped.
#[test]
fn until_rewrite_keeps_final_occurrence() {
    let y = this_year();
    // Four weekly occurrences at 10:00 Berlin time (09:00 UTC in January);
    // UNTIL lands exactly on the last occurrence's UTC instant.
    let dtstart = prop_with_param(
        "DTSTART",
        "TZID",
        "Europe/Berlin",
        &format!("{y:04}0107T100000"),
    );
    let rrule = prop("RRULE", &format!("FREQ=WEEKLY;UNTIL={y:04}0128T090000Z"));
    let properties = vec![dtstart, rrule];
    let table = CustomTzMap::new();
    let occurrences =
        parse_occurrences(&properties, &table, &chrono_tz::Europe::Berlin).unwrap();
    assert_eq!(occurrences.len(), 4);
    // The final occurrence is 10:00 Berlin = 09:00 UTC on January 28.
    assert_eq!(occurrences[3], utc_epoch(&format!("{y:04}0128T090000")));
}

/// A bare local timestamp with no zone hint has no reliable source zone.
#[test]
fn naive_start_without_zone_is_rejected() {
    let y = this_year();
    let properties = vec![
        prop("DTSTART", &format!("{y:04}0107T100000")),
        prop("RRULE", "FREQ=WEEKLY;COUNT=3"),
    ];
    let table = CustomTzMap::new();
    assert!(parse_occurrences(&properties, &table, &chrono_tz::Europe::Berlin).is_err());
}

/// Reconciliation precedence: three expanded occurrences and one modifying
/// event matching the second; the modifying event's content appears at that
/// position and synthesized content at the other two.
#[test]
fn reconciliation_replaces_exactly_the_matching_occurrence() {
    let t1 = utc_epoch("20250107T090000");
    let t2 = utc_epoch("20250114T090000");
    let t3 = utc_epoch("20250121T090000");

    let mut base_raw = RawEvent::new();
    base_raw.add_property(prop("UID", "series1"));
    let base_event = plain_event("Weekly sync", t1, t1 + 3600);

    let mut mod_raw = RawEvent::new();
    mod_raw.add_property(prop("UID", "series1"));
    mod_raw.add_property(prop("RECURRENCE-ID", "20250114T090000Z"));
    let mod_event = plain_event("Moved sync", t2 + 1800, t2 + 5400);

    let table = CustomTzMap::new();
    let (modifying, bases) = partition_modifying_events(
        vec![(base_raw, base_event), (mod_raw, mod_event)],
        &table,
        &chrono_tz::Europe::Berlin,
    )
    .unwrap();
    assert_eq!(bases.len(), 1);
    let (base_raw, base_event) = &bases[0];
    let records = calculate_occurrences(base_raw, base_event, &vec![t1, t2, t3], &modifying);
    assert_eq!(records.len(), 3);
    assert_eq!(records[0].summary, "Weekly sync");
    assert_eq!(records[0].start_timestamp, t1);
    assert_eq!(records[0].end_timestamp, t1 + 3600);
    assert_eq!(records[1].summary, "Moved sync");
    assert_eq!(records[1].start_timestamp, t2 + 1800);
    assert_eq!(records[2].summary, "Weekly sync");
    assert_eq!(records[2].start_timestamp, t3);
}

/// Promotion edge case: a modifying event with no matching base UID appears
/// once, verbatim, in the output.
#[test]
fn orphan_modifying_event_is_promoted_once() {
    let t = utc_epoch("20250114T090000");
    let mut mod_raw = RawEvent::new();
    mod_raw.add_property(prop("UID", "forwarded-only"));
    mod_raw.add_property(prop("RECURRENCE-ID", "20250114T090000Z"));
    let mod_event = plain_event("Forwarded instance", t, t + 3600);

    let table = CustomTzMap::new();
    let (modifying, bases) = partition_modifying_events(
        vec![(mod_raw, mod_event)],
        &table,
        &chrono_tz::Europe::Berlin,
    )
    .unwrap();
    assert_eq!(bases.len(), 1);
    assert_eq!(bases[0].1.summary, "Forwarded instance");
    assert_eq!(bases[0].1.start_timestamp, t);
    assert!(modifying.groups.is_empty());
}

/// End-to-end scenario: one all-day event plus one weekly timed event with
/// an explicit Berlin zone, three occurrences and one exception date;
/// expected output is the all-day record plus exactly the first and third
/// week, anchored to Berlin's seasonal offset.
#[test]
fn feed_with_all_day_and_weekly_recurring_event() {
    let y = this_year();
    let feed = format!(
        "BEGIN:VCALENDAR\n\
         BEGIN:VEVENT\n\
         UID:allday1\n\
         DTSTART;VALUE=DATE:{y:04}0106\n\
         SUMMARY:Planning day\n\
         END:VEVENT\n\
         BEGIN:VEVENT\n\
         UID:weekly1\n\
         DTSTART;TZID=Europe/Berlin:{y:04}0106T100000\n\
         DTEND;TZID=Europe/Berlin:{y:04}0106T110000\n\
         RRULE:FREQ=WEEKLY;COUNT=3\n\
         EXDATE;TZID=Europe/Berlin:{y:04}0113T100000\n\
         SUMMARY:Weekly standup\n\
         END:VEVENT\n\
         END:VCALENDAR\n"
    );
    let events = extract_events(&feed, &chrono_tz::Europe::Berlin).unwrap();
    assert_eq!(events.len(), 3);

    let all_day: Vec<&Event> = events.iter().filter(|e| e.all_day).collect();
    assert_eq!(all_day.len(), 1);
    assert_eq!(all_day[0].summary, "Planning day");
    // Local midnight in Berlin in January is 23:00 UTC the day before.
    assert_eq!(
        all_day[0].start_timestamp,
        utc_epoch(&format!("{y:04}0106T000000")) - 3600
    );

    let mut timed: Vec<&Event> = events.iter().filter(|e| !e.all_day).collect();
    timed.sort_by_key(|e| e.start_timestamp);
    assert_eq!(timed.len(), 2);
    // 10:00 Berlin in January is 09:00 UTC; the second week is excepted.
    let first = utc_epoch(&format!("{y:04}0106T090000"));
    let third = utc_epoch(&format!("{y:04}0120T090000"));
    assert_eq!(timed[0].start_timestamp, first);
    assert_eq!(timed[0].end_timestamp, first + 3600);
    assert_eq!(timed[1].start_timestamp, third);
    assert_eq!(timed[1].end_timestamp, third + 3600);
}

/// An embedded timezone definition builds a usable offset model: winter
/// queries get the standard offset, summer queries the daylight offset.
#[test]
fn embedded_timezone_definition_resolves_offsets() {
    let vtimezone = VTimezoneBlock {
        properties: vec![prop("TZID", "W. Europe Standard Time")],
        transitions: vec![
            TransitionBlock {
                daylight: false,
                properties: vec![
                    prop("DTSTART", "16010101T030000"),
                    prop("TZOFFSETFROM", "+0200"),
                    prop("TZOFFSETTO", "+0100"),
                    prop("RRULE", "FREQ=YEARLY;INTERVAL=1;BYDAY=-1SU;BYMONTH=10"),
                ],
            },
            TransitionBlock {
                daylight: true,
                properties: vec![
                    prop("DTSTART", "16010101T020000"),
                    prop("TZOFFSETFROM", "+0100"),
                    prop("TZOFFSETTO", "+0200"),
                    prop("RRULE", "FREQ=YEARLY;INTERVAL=1;BYDAY=-1SU;BYMONTH=3"),
                ],
            },
        ],
    };
    let (name, tz) =
        parse_ical_timezone(&vtimezone, &chrono_tz::Europe::Berlin).unwrap();
    assert_eq!(name, "W. Europe Standard Time");
    let y = this_year();
    let winter = tz.offset_from_utc_timestamp(utc_epoch(&format!("{y:04}0115T120000")));
    assert_eq!(winter.total_offset_seconds(), 3600);
    let summer = tz.offset_from_utc_timestamp(utc_epoch(&format!("{y:04}0715T120000")));
    assert_eq!(summer.total_offset_seconds(), 7200);
}

/// A timezone definition with no recurrence rule: the single anchor instant
/// is the sole transition.
#[test]
fn embedded_timezone_without_rule_uses_single_anchor() {
    let vtimezone = VTimezoneBlock {
        properties: vec![prop("TZID", "(UTC-04:00) Georgetown, La Paz, Manaus, San Juan")],
        transitions: vec![
            TransitionBlock {
                daylight: false,
                properties: vec![
                    prop("DTSTART", "16010101T000000"),
                    prop("TZOFFSETFROM", "-0400"),
                    prop("TZOFFSETTO", "-0400"),
                ],
            },
            TransitionBlock {
                daylight: true,
                properties: vec![
                    prop("DTSTART", "16010101T000000"),
                    prop("TZOFFSETFROM", "-0400"),
                    prop("TZOFFSETTO", "-0400"),
                ],
            },
        ],
    };
    let (_, tz) = parse_ical_timezone(&vtimezone, &chrono_tz::Europe::Berlin).unwrap();
    let y = this_year();
    let offset = tz.offset_from_utc_timestamp(utc_epoch(&format!("{y:04}0115T120000")));
    assert_eq!(offset.total_offset_seconds(), -4 * 3600);
}

/// A malformed embedded definition fails the feed instead of guessing.
#[test]
fn embedded_timezone_without_tzid_is_rejected() {
    let vtimezone = VTimezoneBlock { properties: vec![], transitions: vec![] };
    assert!(parse_ical_timezone(&vtimezone, &chrono_tz::Europe::Berlin).is_err());
}

#[test]
fn zoom_urls_are_found_in_event_text() {
    assert_eq!(
        parse_zoom_url("Join at https://foo.zoom.us/j/123456 today"),
        Some("https://foo.zoom.us/j/123456".to_string())
    );
    assert_eq!(
        parse_zoom_url("see https://company.zoom.us/my/room<end>"),
        Some("https://company.zoom.us/my/room".to_string())
    );
    assert_eq!(parse_zoom_url("no link here"), None);
}

#[test]
fn participants_are_counted_from_description_segments() {
    assert_eq!(meeters_core::count_participants("a@x.com,b@y.com;c@z.com"), 3);
    assert_eq!(meeters_core::count_participants("a@x.com\nnobody\nb@y.com"), 2);
    assert_eq!(meeters_core::count_participants("no addresses at all"), 0);
}

#[test]
fn malformed_recurrence_rule_fails_the_event() {
    let y = this_year();
    let properties = vec![
        prop_with_param("DTSTART", "TZID", "Europe/Berlin", &format!("{y:04}0107T100000")),
        prop("RRULE", "FREQ=NEVERLY"),
    ];
    let table = CustomTzMap::new();
    assert!(parse_occurrences(&properties, &table, &chrono_tz::Europe::Berlin).is_err());
}

#[test]
fn missing_mandatory_start_fails_the_event() {
    let mut event = RawEvent::new();
    event.add_property(prop("SUMMARY", "no start"));
    let table = CustomTzMap::new();
    assert!(
        meeters_core::extract_start_end_time(&event, &table, &chrono_tz::Europe::Berlin).is_err()
    );
}

#[test]
fn timed_event_without_end_fails() {
    let mut event = RawEvent::new();
    event.add_property(prop("DTSTART", "20250107T100000Z"));
    let table = CustomTzMap::new();
    assert!(
        meeters_core::extract_start_end_time(&event, &table, &chrono_tz::Europe::Berlin).is_err()
    );
}

#[test]
fn date_start_with_other_value_parameter_fails() {
    let mut event = RawEvent::new();
    event.add_property(prop_with_param("DTSTART", "VALUE", "PERIOD", "20250107"));
    let table = CustomTzMap::new();
    assert!(
        meeters_core::extract_start_end_time(&event, &table, &chrono_tz::Europe::Berlin).is_err()
    );
}

#[test]
fn structurally_broken_feeds_are_handled() {
    // Text with no calendar at all yields no events.
    assert_eq!(extract_events("", &chrono_tz::Europe::Berlin).unwrap().len(), 0);
    // Text that is not a property line at all is a structural parse error.
    assert!(extract_events("not a calendar", &chrono_tz::Europe::Berlin).is_err());
    assert_eq!(
        extract_events("BEGIN:VCALENDAR\nEND:VCALENDAR\n", &chrono_tz::Europe::Berlin)
            .unwrap()
            .len(),
        0
    );
    // A calendar that starts an event and never closes it is a structural
    // parse error.
    assert!(extract_events(
        "BEGIN:VCALENDAR\nBEGIN:VEVENT\nUID:x\n",
        &chrono_tz::Europe::Berlin
    )
    .is_err());
}

/// An event naming a zone that resolves to nothing is a timezone
/// resolution failure that aborts the whole feed.
#[test]
fn unresolvable_zone_aborts_the_feed() {
    let table = CustomTzMap::new();
    let prop = prop_with_param("DTSTART", "TZID", "Atlantis/Lost_City", "20250107T100000");
    assert!(
        meeters_core::extract_ical_datetime(&prop, &table, &chrono_tz::Europe::Berlin).is_err()
    );
    let y = this_year();
    let feed = format!(
        "BEGIN:VCALENDAR\n\
         BEGIN:VEVENT\n\
         UID:badzone1\n\
         DTSTART;TZID=Atlantis/Lost_City:{y:04}0106T100000\n\
         DTEND;TZID=Atlantis/Lost_City:{y:04}0106T110000\n\
         SUMMARY:Nowhere\n\
         END:VEVENT\n\
         END:VCALENDAR\n"
    );
    assert!(extract_events(&feed, &chrono_tz::Europe::Berlin).is_err());
}

/// The extracted record list is time-ordered overall.
#[test]
fn extracted_records_come_back_sorted_by_start() {
    let y = this_year();
    let feed = format!(
        "BEGIN:VCALENDAR\n\
         BEGIN:VEVENT\n\
         UID:late1\n\
         DTSTART:{y:04}0110T100000Z\n\
         DTEND:{y:04}0110T110000Z\n\
         SUMMARY:Later\n\
         END:VEVENT\n\
         BEGIN:VEVENT\n\
         UID:early1\n\
         DTSTART:{y:04}0102T100000Z\n\
         DTEND:{y:04}0102T110000Z\n\
         SUMMARY:Earlier\n\
         END:VEVENT\n\
         END:VCALENDAR\n"
    );
    let events = extract_events(&feed, &chrono_tz::Europe::Berlin).unwrap();
    assert_eq!(events.len(), 2);
    assert_eq!(events[0].summary, "Earlier");
    assert_eq!(events[1].summary, "Later");
}

/// A modifying event whose override stamp cannot be read aborts the whole
/// feed instead of being silently set aside.
#[test]
fn unreadable_override_stamp_aborts_the_feed() {
    let mut base_raw = RawEvent::new();
    base_raw.add_property(prop("UID", "series1"));
    let base_event = plain_event("Weekly sync", 0, 3600);
    let mut mod_raw = RawEvent::new();
    mod_raw.add_property(prop("UID", "series1"));
    mod_raw.add_property(prop("RECURRENCE-ID", "not-a-datetimeZ"));
    let mod_event = plain_event("Moved sync", 0, 3600);
    let table = CustomTzMap::new();
    assert!(partition_modifying_events(
        vec![(base_raw, base_event), (mod_raw, mod_event)],
        &table,
        &chrono_tz::Europe::Berlin,
    )
    .is_err());
}

#[test]
fn interval_filter_keeps_overlapping_events_sorted() {
    let a = plain_event("a", 100, 200);
    let b = plain_event("b", 300, 400);
    let c = plain_event("c", 50, 150);
    let d = plain_event("d", 500, 600);
    let kept = get_events_for_interval(vec![b, a, c, d], 120, 450);
    let names: Vec<&str> = kept.iter().map(|e| e.summary.as_str()).collect();
    assert_eq!(names, vec!["c", "a", "b"]);
}
