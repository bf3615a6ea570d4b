//! Compatibility tests against the recurrence-expansion crate itself: the
//! rule strings this library hands over must keep parsing and expanding.

use meeters_core::parse_datetime_value;
use rrule::RRuleSet;

#[test]
fn rruleset_parsing_date() {
    "DTSTART;VALUE=DATE:20200812\nRRULE:FREQ=WEEKLY;UNTIL=20210511T220000Z;INTERVAL=1;BYDAY=WE;WKST=MO".parse::<RRuleSet>().unwrap();
}

#[test]
fn rruleset_monthly_first_wednesday() {
    println!(
        "{:?}",
        "DTSTART;VALUE=DATE:20200701\nRRULE:FREQ=MONTHLY;UNTIL=20210303T090000Z;INTERVAL=1;BYDAY=1WE"
            .parse::<RRuleSet>()
            .unwrap()
            .all(65535)
            .dates
    );
}

#[test]
fn rrule_all_fails_with_panic() {
    // A date-only DTSTART carrying a time part: current versions of the
    // expansion crate reject this at parse time instead of panicking later.
    assert!(
        "DTSTART;VALUE=DATE:20201230T130000\nRRULE:FREQ=MONTHLY;UNTIL=20210825T120000Z;INTERVAL=1;BYDAY=-1WE"
            .parse::<RRuleSet>()
            .is_err()
    );
}

#[test]
fn rrule_all_missing_final_meeting() {
    println!(
        "{:?}",
        "DTSTART:20210316T093000Z\nRRULE:FREQ=WEEKLY;UNTIL=20210511T093000Z;INTERVAL=1;BYDAY=TU;WKST=MO"
            .parse::<RRuleSet>()
            .unwrap()
    );
}

#[test]
fn rrule_invalid_by_month_value() {
    // This used to fail with "invalid by_month value"
    "DTSTART;VALUE=DATE:20211206\nRRULE:FREQ=YEARLY;UNTIL=20221205T230000Z;INTERVAL=1;BYMONTHDAY=6;BYMONTH=12".parse::<RRuleSet>().unwrap();
}

#[test]
fn rrule_expansion_matches_expected_weekly_dates() {
    // A UTC weekly rule whose UNTIL lands exactly on the final occurrence:
    // that boundary occurrence is included.
    let dates = "DTSTART:20210316T093000Z\nRRULE:FREQ=WEEKLY;UNTIL=20210330T093000Z;INTERVAL=1;BYDAY=TU;WKST=MO"
        .parse::<RRuleSet>()
        .unwrap()
        .all(65535)
        .dates;
    assert_eq!(dates.len(), 3);
    let first = parse_datetime_value("20210316T093000").unwrap();
    assert_eq!(dates[0].timestamp(), meeters_core::epoch_of_parts(&first));
}
