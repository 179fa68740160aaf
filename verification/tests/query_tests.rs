//! Query-parameter parsing: integers, timestamps, sort modes, lists.

use mgp::query::{
    datetime_lt, parse_csl, parse_i32, parse_iso8601, DateTime, DateTimeParseError, IntParseError,
    PostQueryParams, QueryError, QueryField, SortMode,
};

fn params(pairs: &[(&[u8], &[u8])]) -> Vec<(Vec<u8>, Vec<u8>)> {
    pairs.iter().map(|(k, v)| (k.to_vec(), v.to_vec())).collect()
}

fn dt(year: u16, month: u8, day: u8, hour: u8, minute: u8, second: u8) -> DateTime {
    DateTime { year, month, day, hour, minute, second }
}

#[test]
fn integers_parse_exactly() {
    assert_eq!(parse_i32(&b"0".to_vec()), Ok(0));
    assert_eq!(parse_i32(&b"42".to_vec()), Ok(42));
    assert_eq!(parse_i32(&b"+42".to_vec()), Ok(42));
    assert_eq!(parse_i32(&b"-5".to_vec()), Ok(-5));
    assert_eq!(parse_i32(&b"007".to_vec()), Ok(7));
    assert_eq!(parse_i32(&b"2147483647".to_vec()), Ok(2147483647));
    assert_eq!(parse_i32(&b"-2147483648".to_vec()), Ok(-2147483648));
}

#[test]
fn integer_errors_are_classified() {
    assert_eq!(parse_i32(&Vec::new()), Err(IntParseError::Empty));
    assert_eq!(parse_i32(&b"+".to_vec()), Err(IntParseError::InvalidDigit));
    assert_eq!(parse_i32(&b"-".to_vec()), Err(IntParseError::InvalidDigit));
    assert_eq!(parse_i32(&b"4x2".to_vec()), Err(IntParseError::InvalidDigit));
    assert_eq!(parse_i32(&b" 42".to_vec()), Err(IntParseError::InvalidDigit));
    assert_eq!(parse_i32(&b"2147483648".to_vec()), Err(IntParseError::OutOfRange));
    assert_eq!(parse_i32(&b"-2147483649".to_vec()), Err(IntParseError::OutOfRange));
    assert_eq!(
        parse_i32(&b"99999999999999999999".to_vec()),
        Err(IntParseError::OutOfRange)
    );
}

#[test]
fn timestamps_parse_exactly() {
    assert_eq!(
        parse_iso8601(&b"20230710T221006Z".to_vec()),
        Ok(dt(2023, 7, 10, 22, 10, 6))
    );
    assert_eq!(
        parse_iso8601(&b"20240229T000000Z".to_vec()),
        Ok(dt(2024, 2, 29, 0, 0, 0))
    );
    // The sixtieth second is a leap second, not an impossibility.
    assert_eq!(
        parse_iso8601(&b"20161231T235960Z".to_vec()),
        Ok(dt(2016, 12, 31, 23, 59, 60))
    );
    assert!(matches!(
        parse_iso8601(&b"20161231T235961Z".to_vec()),
        Err(DateTimeParseError::Impossible)
    ));
}

#[test]
fn timestamp_errors_are_classified() {
    assert!(matches!(
        parse_iso8601(&b"2023".to_vec()),
        Err(DateTimeParseError::TooShort)
    ));
    assert!(matches!(
        parse_iso8601(&b"20230710T221006Z0".to_vec()),
        Err(DateTimeParseError::TooLong)
    ));
    assert!(matches!(
        parse_iso8601(&b"20230710x221006Z".to_vec()),
        Err(DateTimeParseError::InvalidCharacter)
    ));
    // Month thirteen.
    assert!(matches!(
        parse_iso8601(&b"20231310T000000Z".to_vec()),
        Err(DateTimeParseError::Impossible)
    ));
    // Not a leap year.
    assert!(matches!(
        parse_iso8601(&b"20230229T000000Z".to_vec()),
        Err(DateTimeParseError::Impossible)
    ));
    // A century year divisible by four hundred is a leap year...
    assert!(parse_iso8601(&b"20000229T000000Z".to_vec()).is_ok());
    // ... but one merely divisible by four is not.
    assert!(matches!(
        parse_iso8601(&b"19000229T000000Z".to_vec()),
        Err(DateTimeParseError::Impossible)
    ));
    assert!(matches!(
        parse_iso8601(&b"20230710T246006Z".to_vec()),
        Err(DateTimeParseError::Impossible)
    ));
}

#[test]
fn datetime_order_is_lexicographic_over_fields() {
    assert!(datetime_lt(&dt(2023, 7, 10, 0, 0, 0), &dt(2023, 7, 10, 0, 0, 1)));
    assert!(datetime_lt(&dt(2022, 12, 31, 23, 59, 59), &dt(2023, 1, 1, 0, 0, 0)));
    assert!(!datetime_lt(&dt(2023, 7, 10, 0, 0, 0), &dt(2023, 7, 10, 0, 0, 0)));
}

#[test]
fn comma_lists_are_sets_of_segments() {
    let r = parse_csl(&b"a,b,a".to_vec());
    assert_eq!(r.len(), 2);
    assert!(r.contains(&b"a".to_vec()));
    assert!(r.contains(&b"b".to_vec()));
    let single = parse_csl(&b"alone".to_vec());
    assert_eq!(single, vec![b"alone".to_vec()]);
    let empty = parse_csl(&Vec::new());
    assert_eq!(empty, vec![Vec::<u8>::new()]);
    let trailing = parse_csl(&b"x,".to_vec());
    assert_eq!(trailing.len(), 2);
    assert!(trailing.contains(&b"x".to_vec()));
    assert!(trailing.contains(&Vec::<u8>::new()));
}

#[test]
fn defaults_are_the_empty_query() {
    let q = PostQueryParams::default();
    assert_eq!(q.depth, 0);
    assert_eq!(q.limit, 0);
    assert_eq!(q.sort, SortMode::New);
    assert!(q.before.is_none());
    assert!(q.after.is_none());
    assert!(q.fields.is_empty());
    assert!(q.expansions.is_empty());
    assert!(q.tags.is_empty());
}

#[test]
fn full_query_parses() {
    let p = params(&[
        (b"depth", b"3"),
        (b"limit", b"10"),
        (b"sort", b"top"),
        (b"before", b"20230710T221006Z"),
        (b"after", b"20230711T221006Z"),
        (b"fields", b"body,author"),
        (b"tags", b"cats,cats"),
    ]);
    let q = PostQueryParams::from_query_params(&p).unwrap();
    assert_eq!(q.depth, 3);
    assert_eq!(q.limit, 10);
    assert_eq!(q.sort, SortMode::Top);
    assert_eq!(q.before, Some(dt(2023, 7, 10, 22, 10, 6)));
    assert_eq!(q.after, Some(dt(2023, 7, 11, 22, 10, 6)));
    assert_eq!(q.fields.len(), 2);
    assert!(q.fields.contains(&b"body".to_vec()));
    assert!(q.fields.contains(&b"author".to_vec()));
    assert_eq!(q.tags, vec![b"cats".to_vec()]);
    assert!(q.expansions.is_empty());
}

#[test]
fn empty_query_takes_all_defaults() {
    let q = PostQueryParams::from_query_params(&Vec::new()).unwrap();
    assert_eq!(q.depth, 0);
    assert_eq!(q.limit, 0);
    assert_eq!(q.sort, SortMode::New);
}

#[test]
fn sort_modes_parse_and_reject() {
    for (text, mode) in [
        (b"new".as_slice(), SortMode::New),
        (b"hot".as_slice(), SortMode::Hot),
        (b"top".as_slice(), SortMode::Top),
    ] {
        let q = PostQueryParams::from_query_params(&params(&[(b"sort", text)])).unwrap();
        assert_eq!(q.sort, mode);
    }
    let r = PostQueryParams::from_query_params(&params(&[(b"sort", b"best")]));
    assert_eq!(r.unwrap_err(), QueryError::BadSortValue);
}

#[test]
fn field_errors_carry_their_field() {
    let r = PostQueryParams::from_query_params(&params(&[(b"depth", b"abc")]));
    assert_eq!(r.unwrap_err(), QueryError::InvalidCharacter(QueryField::Depth));
    let r = PostQueryParams::from_query_params(&params(&[(b"limit", b"")]));
    assert_eq!(r.unwrap_err(), QueryError::EmptyValue(QueryField::Limit));
    let r = PostQueryParams::from_query_params(&params(&[(b"depth", b"3000000000")]));
    assert_eq!(r.unwrap_err(), QueryError::OutOfRange(QueryField::Depth));
    let r = PostQueryParams::from_query_params(&params(&[(b"before", b"2023")]));
    assert_eq!(r.unwrap_err(), QueryError::NotEnoughData(QueryField::Before));
    let r = PostQueryParams::from_query_params(&params(&[(b"after", b"20231310T000000Z")]));
    assert_eq!(r.unwrap_err(), QueryError::Impossible(QueryField::After));
}

#[test]
fn after_must_fall_later_than_before() {
    let r = PostQueryParams::from_query_params(&params(&[
        (b"before", b"20230710T221006Z"),
        (b"after", b"20230710T221006Z"),
    ]));
    assert_eq!(r.unwrap_err(), QueryError::DatesOutOfOrder);
    let r = PostQueryParams::from_query_params(&params(&[
        (b"before", b"20230711T000000Z"),
        (b"after", b"20230710T000000Z"),
    ]));
    assert_eq!(r.unwrap_err(), QueryError::DatesOutOfOrder);
    let ok = PostQueryParams::from_query_params(&params(&[
        (b"before", b"20230710T000000Z"),
        (b"after", b"20230711T000000Z"),
    ]));
    assert!(ok.is_ok());
}
