use bench_stats::interval::Interval;

#[test]
fn whole_numbers_are_cycle_counts() {
    assert_eq!(Interval::from_str("100"), Ok(Interval::Count(100)));
    assert_eq!(Interval::from_str("0"), Ok(Interval::Count(0)));
    assert_eq!(
        Interval::from_str("18446744073709551615"),
        Ok(Interval::Count(u64::MAX))
    );
}

#[test]
fn duration_expressions_are_time_bounds() {
    // a result other than the input itself shows the parser really ran
    assert_eq!(Interval::from_str("2m"), Ok(Interval::Time(120, 0)));
    assert_eq!(Interval::from_str("1h30m"), Ok(Interval::Time(5400, 0)));
    assert_eq!(Interval::from_str("250ms"), Ok(Interval::Time(0, 250_000_000)));
}

#[test]
fn the_word_unbounded_is_no_bound() {
    let i = Interval::from_str("unbounded").unwrap();
    assert_eq!(i, Interval::Unbounded);
    assert!(i.is_unbounded());
    assert!(!Interval::from_str("5s").unwrap().is_unbounded());
    assert!(!Interval::from_str("7").unwrap().is_unbounded());
}

#[test]
fn nonsense_is_rejected() {
    assert!(Interval::from_str("").is_err());
    assert!(Interval::from_str("soon").is_err());
    assert!(Interval::from_str("-5").is_err());
}
