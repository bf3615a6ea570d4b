//! Tests of the property-bag model and its text form.

use meeters_core::{
    epoch_of_parts, format_datetime_value, ical_event_to_string, parse_datetime_value,
    parts_of_epoch, unescape_string, Prop, RawEvent,
};

#[test]
fn ical_to_string_empty_ical_event() {
    assert_eq!("", ical_event_to_string(&RawEvent::new()));
}

#[test]
fn ical_to_string_one_prop_with_value() {
    let mut event = RawEvent::new();
    let mut prop = Prop::new();
    prop.name = "DESCRIPTION".to_string();
    prop.value = Some("foobar".to_string());
    event.add_property(prop);
    assert_eq!("DESCRIPTION:foobar", ical_event_to_string(&event));
}

#[test]
fn ical_to_string_one_prop_with_no_value() {
    let mut event = RawEvent::new();
    let mut prop = Prop::new();
    prop.name = "DESCRIPTION".to_string();
    event.add_property(prop);
    assert_eq!("DESCRIPTION:", ical_event_to_string(&event));
}

#[test]
fn ical_to_string_two_props() {
    let mut event = RawEvent::new();
    let mut prop = Prop::new();
    prop.name = "FOO".to_string();
    prop.value = Some("bar".to_string());
    event.add_property(prop);

    prop = Prop::new();
    prop.name = "baz".to_string();
    prop.value = Some("qux".to_string());
    event.add_property(prop);

    assert_eq!("FOO:bar\nbaz:qux", ical_event_to_string(&event));
}

#[test]
fn params_render_with_quoting() {
    let mut event = RawEvent::new();
    let mut prop = Prop::new();
    prop.name = "DTSTART".to_string();
    prop.params = Some(vec![(
        "TZID".to_string(),
        vec!["W. Europe Standard Time".to_string()],
    )]);
    prop.value = Some("20210101T100000".to_string());
    event.add_property(prop);
    assert_eq!(
        "DTSTART;TZID=\"W. Europe Standard Time\":20210101T100000",
        ical_event_to_string(&event)
    );
}

#[test]
fn unescape_collapses_feed_escapes() {
    assert_eq!("a,b;c\\d", unescape_string("a\\,b\\;c\\\\d"));
    assert_eq!("line\nbreak", unescape_string("line\\nbreak"));
    assert_eq!("line\nbreak", unescape_string("line\\Nbreak"));
    assert_eq!("plain", unescape_string("plain"));
    assert_eq!("trailing\\", unescape_string("trailing\\"));
}

#[test]
fn datetime_values_parse_and_format_exactly() {
    let parts = parse_datetime_value("20210801T100000").unwrap();
    assert_eq!(parts.year, 2021);
    assert_eq!(parts.month, 8);
    assert_eq!(parts.day, 1);
    assert_eq!(parts.hour, 10);
    // Sunday, August 1, 2021 10:00:00 AM GMT = 1627812000.
    assert_eq!(epoch_of_parts(&parts), 1627812000);
    assert_eq!(format_datetime_value(&parts), "20210801T100000");
    let back = parts_of_epoch(1627812000).unwrap();
    assert_eq!(back, parts);

    assert!(parse_datetime_value("20210801").is_none());
    assert!(parse_datetime_value("20211301T000000").is_none());
    assert!(parse_datetime_value("20210230T000000").is_none());
    assert!(parse_datetime_value("2021080AT100000").is_none());
}
