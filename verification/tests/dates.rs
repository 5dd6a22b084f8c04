use resource_chart::chartdate::{ChartDate, DateError};

#[test]
fn date_new_is_the_first_day_of_2001() {
    assert_eq!(ChartDate::new().to_string(), "1/1/01");
    assert_eq!(ChartDate::new(), ChartDate::from_str("1/1/01").unwrap());
}

#[test]
fn date_from_str_reads_day_month_year() {
    assert_eq!(ChartDate::from_str("3/4/17").unwrap().to_string(), "3/4/17");
    assert_eq!(ChartDate::from_str("03/04/17").unwrap().to_string(), "3/4/17");
    assert_eq!(ChartDate::from_str("31/12/99").unwrap().to_string(), "31/12/99");
    assert_eq!(ChartDate::from_str("1/1/00").unwrap().to_string(), "1/1/00");
    assert_eq!(ChartDate::from_str("29/2/24").unwrap().to_string(), "29/2/24");
    assert_eq!(ChartDate::from_str("29/2/00").unwrap().to_string(), "29/2/00");
}

#[test]
fn date_from_str_asks_the_calendar() {
    assert_eq!(ChartDate::from_str("29/2/23"), Err(DateError::NoSuchDate));
    assert_eq!(ChartDate::from_str("30/2/24"), Err(DateError::NoSuchDate));
    assert_eq!(ChartDate::from_str("31/4/17"), Err(DateError::NoSuchDate));
    assert_eq!(ChartDate::from_str("0/4/17"), Err(DateError::NoSuchDate));
    assert_eq!(ChartDate::from_str("1/0/17"), Err(DateError::NoSuchDate));
    assert_eq!(ChartDate::from_str("1/13/17"), Err(DateError::NoSuchDate));
    assert_eq!(ChartDate::from_str("32/1/17"), Err(DateError::NoSuchDate));
    assert_eq!(ChartDate::from_str("99/99/99"), Err(DateError::NoSuchDate));
}

#[test]
fn date_from_str_refuses_other_shapes() {
    for s in ["", "1", "1/2", "1/2/3", "1/2/2017", "123/1/17", "1/123/17", "1//17", "/1/17",
        "1/1/", "a/1/17", "1/1/17/", "1-1-17", " 1/1/17", "1/1/1a"]
    {
        assert_eq!(ChartDate::from_str(s), Err(DateError::Syntax), "{}", s);
    }
}

#[test]
fn date_parses_through_the_standard_trait() {
    assert_eq!("9/10/11".parse::<ChartDate>().unwrap().to_string(), "9/10/11");
    assert_eq!("9/10".parse::<ChartDate>(), Err(DateError::Syntax));
}

#[test]
fn date_order_is_that_of_the_calendar() {
    let a = ChartDate::from_str("31/12/16").unwrap();
    let b = ChartDate::from_str("1/1/17").unwrap();
    let c = ChartDate::from_str("2/1/17").unwrap();
    assert!(a != b);
    assert!(b == ChartDate::from_str("01/01/17").unwrap());
    assert!(c != b);
    assert!(a < b && b < c && a < c);
    assert!(ChartDate::from_str("1/2/17").unwrap() > ChartDate::from_str("28/1/17").unwrap());
    assert_eq!(a.max(c), c);
}
