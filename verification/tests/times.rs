use resource_chart::charttime::{ChartTime, TimeError};

#[test]
fn time_from_u32_splits_the_index() {
    let t = ChartTime::from_u32(0);
    assert_eq!(t.to_string(), "1/1/1");
    assert_eq!(ChartTime::from_u32(19).to_string(), "1/5/4");
    assert_eq!(ChartTime::from_u32(20).to_string(), "2/1/1");
    assert_eq!(ChartTime::from_u32(47).to_string(), "3/2/4");
}

#[test]
fn time_from_u32_and_back_is_the_same_index() {
    for q in [0u32, 1, 3, 4, 19, 20, 21, 399, 400, 12345, u32::MAX - 1, u32::MAX] {
        assert_eq!(ChartTime::from_u32(q).to_u32(), q);
        assert_eq!(ChartTime::from_u32(q).end_as_u32(), q);
        assert_eq!(ChartTime::from_u32(q).duration(), 1);
    }
}

#[test]
fn time_from_str_reads_a_week() {
    let t = ChartTime::from_str("3").unwrap();
    assert_eq!(t.to_u32(), 40);
    assert_eq!(t.duration(), 20);
    assert_eq!(t.end_as_u32(), 59);
    assert_eq!(t.to_string(), "3");
}

#[test]
fn time_from_str_reads_a_day() {
    let t = ChartTime::from_str("2/3").unwrap();
    assert_eq!(t.to_u32(), 28);
    assert_eq!(t.duration(), 4);
    assert_eq!(t.end_as_u32(), 31);
    assert_eq!(t.to_string(), "2/3");
}

#[test]
fn time_from_str_reads_a_quarter() {
    let t = ChartTime::from_str("2/3/4").unwrap();
    assert_eq!(t.to_u32(), 31);
    assert_eq!(t.duration(), 1);
    assert_eq!(t.end_as_u32(), 31);
    assert_eq!(t.to_string(), "2/3/4");
}

#[test]
fn time_from_str_takes_leading_zeros_in_the_week() {
    assert_eq!(ChartTime::from_str("007").unwrap().to_u32(), 120);
}

#[test]
fn time_from_str_refuses_week_zero() {
    assert_eq!(ChartTime::from_str("0"), Err(TimeError::WeekZero));
    assert_eq!(ChartTime::from_str("0/1"), Err(TimeError::WeekZero));
    assert_eq!(ChartTime::from_str("00/1/1"), Err(TimeError::WeekZero));
}

#[test]
fn time_from_str_refuses_other_shapes() {
    for s in ["", "a", "1/", "/1", "1/0", "1/6", "1/1/0", "1/1/5", "1/1/1/1", "1//1", " 1", "1 ",
        "-1", "+1", "1/12", "1/1/12", "１"]
    {
        assert_eq!(ChartTime::from_str(s), Err(TimeError::Syntax), "{}", s);
    }
}

#[test]
fn time_from_str_refuses_what_a_u32_cannot_index() {
    assert_eq!(ChartTime::from_str("214748365"), Err(TimeError::TooLate));
    assert_eq!(ChartTime::from_str("4294967296"), Err(TimeError::TooLate));
    assert_eq!(ChartTime::from_str("99999999999999999999"), Err(TimeError::TooLate));
    assert_eq!(ChartTime::from_str("214748365/4/4").unwrap().to_u32(), u32::MAX);
    assert_eq!(ChartTime::from_str("214748365/4").unwrap().end_as_u32(), u32::MAX);
    assert_eq!(ChartTime::from_str("214748365/5"), Err(TimeError::TooLate));
    assert_eq!(ChartTime::from_str("214748364").unwrap().end_as_u32(), 4294967279);
}

#[test]
fn time_times_are_equal_where_they_start_together() {
    assert!(ChartTime::from_str("2").unwrap() == ChartTime::from_str("2/1").unwrap());
    assert!(ChartTime::from_str("2/1").unwrap() == ChartTime::from_str("2/1/1").unwrap());
    assert!(ChartTime::from_str("2").unwrap() != ChartTime::from_str("2/1/2").unwrap());
    assert!(ChartTime::from_u32(20) == ChartTime::from_str("2").unwrap());
}

#[test]
fn time_order_is_that_of_the_first_quarter() {
    let t = |s: &str| ChartTime::from_str(s).unwrap();
    assert!(t("1") < t("2"));
    assert!(t("2") > t("1/5/4"));
    assert!(t("2/1") < t("2/1/2"));
    assert!(!(t("2") < t("2/1")) && !(t("2") > t("2/1")));
    assert!(t("2") <= t("2/1/1") && t("2") >= t("2/1/1"));
    assert_eq!(t("3").partial_cmp(&t("3/1")), Some(std::cmp::Ordering::Equal));
    assert_eq!(t("3").partial_cmp(&t("4")), Some(std::cmp::Ordering::Less));
    assert_eq!(t("3/2").partial_cmp(&t("3")), Some(std::cmp::Ordering::Greater));
}

#[test]
fn time_parses_through_the_standard_trait() {
    assert_eq!("2/3".parse::<ChartTime>().unwrap().to_u32(), 28);
    assert_eq!("0".parse::<ChartTime>(), Err(TimeError::WeekZero));
}

#[test]
fn time_from_week_names_a_whole_week() {
    let t = ChartTime::from_week(3).unwrap();
    assert_eq!((t.to_u32(), t.duration(), t.to_string()), (40, 20, "3".to_string()));
    assert_eq!(ChartTime::from_week(0), None);
    assert_eq!(ChartTime::from_week(214748364).unwrap().end_as_u32(), 4294967279);
    assert_eq!(ChartTime::from_week(214748365), None);
}
