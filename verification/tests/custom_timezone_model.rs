//! Tests of the fixed-timespan offset model: span lookup from UTC and from
//! local time, including the gap and overlap cases around transitions.

use meeters_core::{
    parts_of_epoch, CustomTz, FixedTimespan, FixedTimespanSet, LocalResolution, OffsetCarrier,
    OffsetName, Span, TimeSpans,
};

fn cet() -> FixedTimespan {
    FixedTimespan { utc_offset: 3600, dst_offset: 0, name: "CET".to_string() }
}

fn cest() -> FixedTimespan {
    FixedTimespan { utc_offset: 3600, dst_offset: 3600, name: "CEST".to_string() }
}

fn mytz() -> CustomTz {
    CustomTz {
        name: "mytz".to_string(),
        timespanset: FixedTimespanSet {
            first: cet(),
            // Sunday, August 1, 2021 10:00:00 AM GMT = 1627812000
            rest: vec![(1627812000, cest())],
        },
    }
}

/// This tests whether we can create a custom timezone with two spans that
/// have different offsets. If we create a UTC datetime in the second span we
/// verify that the offsets are applied correctly. We do the same for the
/// first span.
#[test]
fn find_timespan_and_apply_offsets() {
    let tz = mytz();
    // This datetime should fall in the second span since it is after 10 am
    // August 1st 2021: 2021-08-01T10:01:00Z.
    let offset = tz.offset_from_utc_timestamp(1627812060);
    let local = 1627812060 + offset.total_offset_seconds();
    let parts = parts_of_epoch(local).unwrap();
    assert_eq!(12, parts.hour);
    assert_eq!(1, parts.minute);
    assert_eq!(0, parts.second);
    // This datetime should fall in the first span since it is before 10 am
    // August 1st 2021: 2021-08-01T09:59:00Z.
    let offset = tz.offset_from_utc_timestamp(1627811940);
    let local = 1627811940 + offset.total_offset_seconds();
    let parts = parts_of_epoch(local).unwrap();
    assert_eq!(10, parts.hour);
    assert_eq!(59, parts.minute);
    assert_eq!(0, parts.second);
}

#[test]
fn utc_resolution_is_total() {
    let tz = mytz();
    // Exactly at the transition instant the new span applies.
    let at = tz.offset_from_utc_timestamp(1627812000);
    assert_eq!(at.abbreviation(), "CEST");
    // One second before, the old span still applies.
    let before = tz.offset_from_utc_timestamp(1627811999);
    assert_eq!(before.abbreviation(), "CET");
    // Far before any transition the leading span applies.
    let early = tz.offset_from_utc_timestamp(-4000000000);
    assert_eq!(early.abbreviation(), "CET");
    assert_eq!(at.tz_id(), "mytz");
}

#[test]
fn fall_back_overlap_prefers_earlier_span() {
    // Offsets fall from UTC+1 to UTC+0 at instant 1000000: local times in
    // [1000000, 1003600) are named by both spans.
    let set = FixedTimespanSet {
        first: FixedTimespan { utc_offset: 3600, dst_offset: 0, name: "SUMMER".to_string() },
        rest: vec![(
            1000000,
            FixedTimespan { utc_offset: 0, dst_offset: 0, name: "WINTER".to_string() },
        )],
    };
    match set.offset_from_local_timestamp(1000000 + 1800) {
        LocalResolution::Ambiguous(a, b) => {
            assert_eq!(a.name, "SUMMER");
            assert_eq!(b.name, "WINTER");
        }
        _ => panic!("expected an ambiguous local time in the overlap"),
    }
    // The single-answer policy picks the earlier span's offset.
    let picked = set.offset_from_local_timestamp(1000000 + 1800).earliest().unwrap();
    assert_eq!(picked.name, "SUMMER");
    assert_eq!(picked.utc_offset + picked.dst_offset, 3600);
}

#[test]
fn spring_forward_gap_has_no_local_time() {
    // Offsets jump from UTC+0 to UTC+1 at instant 1000000: local times in
    // [1000000, 1003600) name no instant at all.
    let set = FixedTimespanSet {
        first: FixedTimespan { utc_offset: 0, dst_offset: 0, name: "WINTER".to_string() },
        rest: vec![(
            1000000,
            FixedTimespan { utc_offset: 3600, dst_offset: 0, name: "SUMMER".to_string() },
        )],
    };
    match set.offset_from_local_timestamp(1000000 + 1800) {
        LocalResolution::NoSuchLocalTime => {}
        _ => panic!("expected the skipped window to name no instant"),
    }
    assert!(set.offset_from_local_timestamp(1000000 + 1800).earliest().is_none());
    // Just before the gap the old span applies; at its end the new one does.
    match set.offset_from_local_timestamp(999999) {
        LocalResolution::Single(o) => assert_eq!(o.name, "WINTER"),
        _ => panic!("expected a unique resolution before the gap"),
    }
    match set.offset_from_local_timestamp(1003600) {
        LocalResolution::Single(o) => assert_eq!(o.name, "SUMMER"),
        _ => panic!("expected a unique resolution after the gap"),
    }
}

#[test]
fn date_only_values_resolve_by_day() {
    let set = FixedTimespanSet {
        first: FixedTimespan { utc_offset: 0, dst_offset: 0, name: "WINTER".to_string() },
        rest: vec![(
            1000000,
            FixedTimespan { utc_offset: 3600, dst_offset: 0, name: "SUMMER".to_string() },
        )],
    };
    // A day that starts inside the skipped window still resolves, through
    // the later second of the day.
    let picked = set.offset_from_local_day(1000000 + 1800).unwrap();
    assert_eq!(picked.name, "SUMMER");
}

#[test]
fn span_contains_and_timespans_round_trip() {
    let span = Span { begin: Some(10), end: Some(20) };
    assert!(span.contains(10));
    assert!(!span.contains(20));
    let open_span = Span { begin: None, end: None };
    assert!(open_span.contains(i64::MIN));
    let tz = mytz();
    let copied = tz.timespans();
    assert_eq!(copied.len(), 2);
    assert_eq!(copied.get(1).name, "CEST");
    assert_eq!(copied.utc_span(1).begin, Some(1627812000));
    assert_eq!(copied.utc_span(1).end, None);
    // The local span of the second timespan starts shifted by its own
    // total offset.
    assert_eq!(copied.local_span(1).begin, Some(1627812000 + 7200));
}
