use wxrust::models::{
    EBlock, Exercise, ExerciseWrapper, GetJRangeData, GraphQLError, GraphQLResponse, JDay,
    JRangeData, JRangeDayData, LoggedSet, SessionInfo, User, UserBasicInfoData, WorkoutData,
};
use wxrust::utils::Date;
use wxrust::workouts::{
    jday_of, jday_query, join_messages, jrange_query, listed_days, page_dates, payload, user_of,
    DateScan, FetchError, PAGE_SIZE,
};

fn ymd(year: u32, month: u32, day: u32) -> Date {
    Date { year, month, day }
}

fn october(day: u32) -> Date {
    ymd(2023, 10, day)
}

fn error(message: &str) -> GraphQLError {
    GraphQLError { message: message.to_string() }
}

fn day(on: &str) -> JRangeDayData {
    JRangeDayData { on: Some(on.to_string()) }
}

/// Runs a scan over the pages in order, as long as it asks for more.
fn scan(scan: &mut DateScan, pages: &[Vec<Date>]) -> usize {
    let mut asked = 0;
    for page in pages {
        asked += 1;
        if !scan.absorb(page) {
            break;
        }
    }
    asked
}

#[test]
fn test_page_size() {
    assert_eq!(PAGE_SIZE, 32);
}

#[test]
fn test_scan_begins_at_latest_or_today() {
    let scan = DateScan::begin(None, None, 2, october(15));
    assert_eq!(scan.cursor, october(15));
    assert!(scan.found.is_empty());
    let scan = DateScan::begin(Some(october(3)), Some(october(1)), 0, october(15));
    assert_eq!(scan.cursor, october(3));
    assert_eq!(scan.latest, Some(october(3)));
    assert_eq!(scan.oldest, Some(october(1)));
    assert_eq!(scan.count, 0);
}

#[test]
fn test_scan_two_dates_in_one_page() {
    let mut s = DateScan::begin(None, None, 2, october(15));
    assert!(!s.absorb(&vec![october(1), october(2)]));
    assert_eq!(s.finish(false), vec![october(1), october(2)]);
    assert_eq!(s.finish(true), vec![october(2), october(1)]);
}

#[test]
fn test_scan_two_most_recent_of_overlapping_pages() {
    let mut s = DateScan::begin(None, None, 2, october(15));
    // the first page has one date only, the second holds it again
    assert!(s.absorb(&vec![october(9)]));
    assert_eq!(s.cursor, october(9));
    assert!(!s.absorb(&vec![october(9), october(7), october(8)]));
    assert_eq!(s.found, vec![october(9), october(9), october(7), october(8)]);
    assert_eq!(s.finish(false), vec![october(8), october(9)]);
    assert_eq!(s.finish(true), vec![october(9), october(8)]);
}

#[test]
fn test_scan_duplicates_count_towards_the_stop_but_not_the_result() {
    let mut s = DateScan::begin(None, None, 3, october(15));
    assert!(!s.absorb(&vec![october(5), october(5), october(5)]));
    assert_eq!(s.finish(false), vec![october(5)]);
}

#[test]
fn test_scan_stops_on_empty_page() {
    let mut s = DateScan::begin(None, None, 10, october(15));
    let pages = vec![vec![october(9), october(8)], vec![october(7)], vec![], vec![october(1)]];
    assert_eq!(scan(&mut s, &pages), 3);
    assert_eq!(s.cursor, october(7));
    assert_eq!(s.finish(false), vec![october(7), october(8), october(9)]);
}

#[test]
fn test_scan_empty_page_changes_nothing() {
    let mut s = DateScan::begin(None, None, 0, october(15));
    assert!(!s.absorb(&vec![]));
    assert_eq!(s.cursor, october(15));
    assert!(s.found.is_empty());
    assert!(s.finish(false).is_empty());
    assert!(s.finish(true).is_empty());
}

#[test]
fn test_scan_cursor_moves_to_earliest_of_page() {
    let mut s = DateScan::begin(None, None, 0, october(15));
    assert!(s.absorb(&vec![october(12), october(10), october(14), october(11)]));
    assert_eq!(s.cursor, october(10));
    assert!(s.absorb(&vec![ymd(2023, 9, 30), october(10), ymd(2022, 12, 31)]));
    assert_eq!(s.cursor, ymd(2022, 12, 31));
}

#[test]
fn test_scan_without_count_takes_everything() {
    let mut s = DateScan::begin(None, None, 0, october(15));
    let pages = vec![
        vec![october(14), october(12)],
        vec![october(12), october(3)],
        vec![october(3), october(1)],
        vec![],
    ];
    assert_eq!(scan(&mut s, &pages), 4);
    assert_eq!(
        s.finish(false),
        vec![october(1), october(3), october(12), october(14)]
    );
    assert_eq!(
        s.finish(true),
        vec![october(14), october(12), october(3), october(1)]
    );
}

#[test]
fn test_scan_keeps_dates_within_bounds() {
    let mut s = DateScan::begin(Some(october(10)), Some(october(5)), 0, october(15));
    assert_eq!(s.cursor, october(10));
    // a page that reaches back beyond the oldest date ends the scan
    assert!(!s.absorb(&vec![october(11), october(10), october(7), october(5), october(4)]));
    assert_eq!(s.found, vec![october(10), october(7), october(5)]);
    assert_eq!(s.cursor, october(10));
    assert_eq!(s.finish(false), vec![october(5), october(7), october(10)]);
}

#[test]
fn test_scan_goes_on_while_pages_stay_within_bounds() {
    let mut s = DateScan::begin(None, Some(october(5)), 0, october(15));
    assert!(s.absorb(&vec![october(9), october(8)]));
    // the earliest date of the page is the oldest date itself: one more page
    assert!(s.absorb(&vec![october(6), october(5)]));
    assert_eq!(s.cursor, october(5));
    assert!(!s.absorb(&vec![october(4)]));
    assert_eq!(s.finish(false), vec![october(5), october(6), october(8), october(9)]);
}

#[test]
fn test_scan_count_is_reached_before_the_bound() {
    let mut s = DateScan::begin(None, Some(october(1)), 2, october(15));
    assert!(!s.absorb(&vec![october(9), october(8), october(7)]));
    assert_eq!(s.finish(false), vec![october(8), october(9)]);
    assert_eq!(s.finish(true), vec![october(9), october(8)]);
}

#[test]
fn test_scan_fewer_dates_than_asked_for() {
    let mut s = DateScan::begin(None, None, 5, october(15));
    let pages = vec![vec![october(9), october(8)], vec![]];
    assert_eq!(scan(&mut s, &pages), 2);
    assert_eq!(s.finish(false), vec![october(8), october(9)]);
}

#[test]
fn test_scan_across_years() {
    let mut s = DateScan::begin(None, None, 3, ymd(2024, 1, 15));
    let pages = vec![vec![ymd(2024, 1, 2)], vec![ymd(2023, 12, 31), ymd(2023, 2, 28)]];
    assert_eq!(scan(&mut s, &pages), 2);
    assert_eq!(s.finish(false), vec![ymd(2023, 2, 28), ymd(2023, 12, 31), ymd(2024, 1, 2)]);
}

#[test]
fn test_payload_errors_come_first() {
    let response = GraphQLResponse {
        data: Some(7u32),
        errors: Some(vec![error("GraphQL error"), error("second")]),
    };
    assert_eq!(payload(response), Err(FetchError::Remote("GraphQL error; second".to_string())));
    let response = GraphQLResponse { data: Some(7u32), errors: Some(vec![]) };
    assert_eq!(payload(response), Err(FetchError::Remote(String::new())));
}

#[test]
fn test_payload_data_or_unexpected() {
    let response = GraphQLResponse { data: Some(7u32), errors: None };
    assert_eq!(payload(response), Ok(7));
    let response: GraphQLResponse<u32> = GraphQLResponse { data: None, errors: None };
    assert_eq!(payload(response), Err(FetchError::Unexpected));
}

#[test]
fn test_join_messages() {
    assert_eq!(join_messages(&vec![]), "");
    assert_eq!(join_messages(&vec![error("one")]), "one");
    assert_eq!(join_messages(&vec![error("one"), error(""), error("three")]), "one; ; three");
}

fn squat_day() -> JDay {
    JDay {
        log: "Date: 2023-10-01".to_string(),
        bw: Some(180_000),
        eblocks: vec![EBlock {
            eid: "ex1".to_string(),
            sets: vec![LoggedSet {
                w: Some(135_000),
                r: Some(5),
                s: Some(1),
                lb: Some(0),
                rpe: None,
                ..Default::default()
            }],
        }],
        exercises: vec![ExerciseWrapper {
            exercise: Exercise {
                id: "ex1".to_string(),
                name: "Squat".to_string(),
                ex_type: Some("strength".to_string()),
            },
        }],
    }
}

#[test]
fn test_jday_of_success() {
    let response =
        GraphQLResponse { data: Some(WorkoutData { jday: Some(squat_day()) }), errors: None };
    let jday = jday_of(response).unwrap();
    assert_eq!(jday.log, "Date: 2023-10-01");
    assert_eq!(jday.bw, Some(180_000));
    assert_eq!(jday.eblocks.len(), 1);
    assert_eq!(jday.exercises[0].exercise.name, "Squat");
}

#[test]
fn test_jday_of_no_workout() {
    let response = GraphQLResponse { data: Some(WorkoutData { jday: None }), errors: None };
    let result = jday_of(response);
    assert!(matches!(result, Err(FetchError::NoWorkout)));
    assert!(result.unwrap_err().message().contains("No workout found"));
}

#[test]
fn test_jday_of_graphql_error() {
    let response: GraphQLResponse<WorkoutData> =
        GraphQLResponse { data: None, errors: Some(vec![error("GraphQL error")]) };
    let result = jday_of(response);
    assert!(result.is_err());
    assert_eq!(result.unwrap_err().message(), "GraphQL error");
}

#[test]
fn test_jday_of_unexpected() {
    let response: GraphQLResponse<WorkoutData> = GraphQLResponse { data: None, errors: None };
    assert!(matches!(jday_of(response), Err(FetchError::Unexpected)));
}

#[test]
fn test_fetch_error_messages() {
    assert_eq!(FetchError::Remote("a; b".to_string()).message(), "a; b");
    assert_eq!(FetchError::NoWorkout.message(), "No workout found for the date.");
    assert_eq!(FetchError::Unexpected.message(), "Unexpected response.");
    assert_eq!(FetchError::NoData.message(), "No data in response");
    assert_eq!(FetchError::BadStamp.message(), "Unreadable date in response.");
}

#[test]
fn test_listed_days() {
    let response = GraphQLResponse {
        data: Some(GetJRangeData {
            jrange: Some(JRangeData { days: Some(vec![day("2023-10-01"), day("2023-10-02")]) }),
        }),
        errors: None,
    };
    let days = listed_days(response).unwrap();
    assert_eq!(days.len(), 2);
    assert_eq!(days[0].on.as_deref(), Some("2023-10-01"));
    assert_eq!(days[1].on.as_deref(), Some("2023-10-02"));
}

#[test]
fn test_listed_days_without_days() {
    let response =
        GraphQLResponse { data: Some(GetJRangeData { jrange: None }), errors: None };
    assert!(listed_days(response).unwrap().is_empty());
    let response = GraphQLResponse {
        data: Some(GetJRangeData { jrange: Some(JRangeData { days: None }) }),
        errors: None,
    };
    assert!(listed_days(response).unwrap().is_empty());
}

#[test]
fn test_listed_days_errors() {
    let response: GraphQLResponse<GetJRangeData> = GraphQLResponse { data: None, errors: None };
    assert!(matches!(listed_days(response), Err(FetchError::Unexpected)));
    let response = GraphQLResponse {
        data: Some(GetJRangeData { jrange: None }),
        errors: Some(vec![error("denied")]),
    };
    assert!(matches!(listed_days(response), Err(FetchError::Remote(m)) if m == "denied"));
}

#[test]
fn test_page_dates() {
    let days = vec![day("2023-10-02"), JRangeDayData { on: None }, day("2023-10-01T07:00")];
    assert_eq!(page_dates(&days), Ok(vec![october(2), october(1)]));
    assert_eq!(page_dates(&vec![]), Ok(vec![]));
    assert_eq!(page_dates(&vec![JRangeDayData { on: None }]), Ok(vec![]));
}

#[test]
fn test_page_dates_bad_stamp() {
    let days = vec![day("2023-10-02"), day("yesterday"), day("2023-10-01")];
    assert_eq!(page_dates(&days), Err(FetchError::BadStamp));
    assert_eq!(page_dates(&vec![day("")]), Err(FetchError::BadStamp));
}

#[test]
fn test_listing_to_dates() {
    let response = GraphQLResponse {
        data: Some(GetJRangeData {
            jrange: Some(JRangeData { days: Some(vec![day("2023-10-01"), day("2023-10-02")]) }),
        }),
        errors: None,
    };
    let page = page_dates(&listed_days(response).unwrap()).unwrap();
    let mut s = DateScan::begin(None, None, 2, october(15));
    assert!(!s.absorb(&page));
    let dates: Vec<String> = s.finish(false).iter().map(|d| d.to_ymd()).collect();
    assert_eq!(dates, vec!["2023-10-01", "2023-10-02"]);
}

#[test]
fn test_user_of() {
    let response = GraphQLResponse {
        data: Some(UserBasicInfoData {
            get_session: Some(SessionInfo { user: User { usekg: Some(0) } }),
        }),
        errors: None,
    };
    assert_eq!(user_of(response).unwrap().usekg, Some(0));
    let response =
        GraphQLResponse { data: Some(UserBasicInfoData { get_session: None }), errors: None };
    assert_eq!(user_of(response).unwrap().usekg, Some(1));
}

#[test]
fn test_user_of_errors() {
    let response: GraphQLResponse<UserBasicInfoData> =
        GraphQLResponse { data: None, errors: None };
    assert!(matches!(user_of(response), Err(FetchError::NoData)));
    let response: GraphQLResponse<UserBasicInfoData> =
        GraphQLResponse { data: None, errors: Some(vec![error("a"), error("b")]) };
    assert!(matches!(user_of(response), Err(FetchError::Remote(m)) if m == "a; b"));
}

#[test]
fn test_jday_query() {
    let query = jday_query(123, "2023-10-01");
    assert!(query.starts_with("\nquery {\n  jday(uid: 123, ymd: \"2023-10-01\") {\n    log\n    bw\n"));
    assert!(query.contains("sets { w r s lb rpe pr est1rm eff int type t d dunit speed force c }"));
    assert!(query.ends_with("    exercises {\n      exercise { id name type }\n    }\n  }\n}\n"));
    assert!(jday_query(u32::MAX, "").contains("jday(uid: 4294967295, ymd: \"\")"));
    assert!(jday_query(0, "x").contains("jday(uid: 0, ymd: \"x\")"));
}

#[test]
fn test_jrange_query() {
    let query = jrange_query();
    assert!(query.starts_with("\nquery GetJRange($uid: ID!, $ymd: YMD!, $range: Int!) {\n"));
    assert!(query.contains("jrange(uid: $uid, ymd: $ymd, range: $range)"));
    assert!(query.ends_with("    days {\n      on\n    }\n  }\n}\n"));
}
