use resource_chart::chartperiod::{ChartPeriod, PeriodError};
use resource_chart::charttime::TimeError;

fn period(first: u32, last: u32) -> ChartPeriod {
    ChartPeriod::new(first, last).unwrap()
}

#[test]
fn period_new_keeps_the_ends() {
    let p = period(3, 9);
    assert_eq!(p.get_first(), 3);
    assert_eq!(p.get_last(), 9);
    assert_eq!(p.length(), 7);
}

#[test]
fn period_new_accepts_a_single_cell() {
    assert_eq!(period(5, 5).length(), 1);
}

#[test]
fn period_new_refuses_ends_out_of_order() {
    assert_eq!(ChartPeriod::new(4, 3), Err(PeriodError::Inverted));
}

#[test]
fn period_new_refuses_the_last_index_of_all() {
    assert_eq!(ChartPeriod::new(0, u32::MAX), Err(PeriodError::TooLate));
    assert!(ChartPeriod::new(0, u32::MAX - 1).is_ok());
}

#[test]
fn period_intersect_gives_the_shared_cells() {
    assert_eq!(period(0, 10).intersect(&period(5, 20)), Some(period(5, 10)));
    assert_eq!(period(5, 20).intersect(&period(0, 10)), Some(period(5, 10)));
    assert_eq!(period(0, 10).intersect(&period(2, 3)), Some(period(2, 3)));
    assert_eq!(period(0, 10).intersect(&period(10, 12)), Some(period(10, 10)));
}

#[test]
fn period_intersect_of_disjoint_periods_is_none() {
    assert_eq!(period(0, 4).intersect(&period(5, 9)), None);
    assert_eq!(period(5, 9).intersect(&period(0, 4)), None);
}

#[test]
fn period_intersect_is_symmetric_and_no_longer_than_either() {
    let all = [period(0, 0), period(0, 7), period(3, 12), period(8, 8), period(20, 39)];
    for p in all.iter() {
        for q in all.iter() {
            assert_eq!(p.intersect(q), q.intersect(p));
            if let Some(i) = p.intersect(q) {
                assert!(i.length() <= p.length());
                assert!(i.length() <= q.length());
            }
        }
    }
}

#[test]
fn period_union_joins_periods_that_overlap() {
    assert_eq!(period(0, 10).union(&period(5, 20)), Some(period(0, 20)));
    assert_eq!(period(5, 20).union(&period(0, 10)), Some(period(0, 20)));
    assert_eq!(period(0, 10).union(&period(2, 3)), Some(period(0, 10)));
}

#[test]
fn period_union_joins_periods_that_touch() {
    assert_eq!(period(0, 4).union(&period(5, 9)), Some(period(0, 9)));
    assert_eq!(period(5, 9).union(&period(0, 4)), Some(period(0, 9)));
}

#[test]
fn period_union_of_periods_with_a_gap_is_none() {
    assert_eq!(period(0, 4).union(&period(6, 9)), None);
    assert_eq!(period(6, 9).union(&period(0, 4)), None);
}

#[test]
fn period_limit_first_clamps_the_start() {
    assert_eq!(period(5, 10).limit_first(7), Some(period(7, 10)));
    assert_eq!(period(5, 10).limit_first(2), Some(period(5, 10)));
    assert_eq!(period(5, 10).limit_first(10), Some(period(10, 10)));
    assert_eq!(period(5, 10).limit_first(11), None);
}

#[test]
fn period_limit_last_clamps_the_end() {
    assert_eq!(period(5, 10).limit_last(7), Some(period(5, 7)));
    assert_eq!(period(5, 10).limit_last(12), Some(period(5, 10)));
    assert_eq!(period(5, 10).limit_last(5), Some(period(5, 5)));
    assert_eq!(period(5, 10).limit_last(4), None);
}

#[test]
fn period_from_str_reads_two_weeks() {
    assert_eq!(ChartPeriod::from_str("1..2"), Ok(period(0, 39)));
}

#[test]
fn period_from_str_runs_to_the_end_of_the_last_time() {
    assert_eq!(ChartPeriod::from_str("2/3..2/3"), Ok(period(28, 31)));
    assert_eq!(ChartPeriod::from_str("1/1/2..3"), Ok(period(1, 59)));
    assert_eq!(ChartPeriod::from_str("2/5/4..2/5/4"), Ok(period(39, 39)));
}

#[test]
fn period_from_str_length_is_from_start_to_end() {
    let p = ChartPeriod::from_str("3/2..7/4/1").unwrap();
    let start = resource_chart::charttime::ChartTime::from_str("3/2").unwrap();
    let end = resource_chart::charttime::ChartTime::from_str("7/4/1").unwrap();
    assert_eq!(p.length(), end.end_as_u32() - start.to_u32() + 1);
}

#[test]
fn period_from_str_refuses_other_shapes() {
    assert_eq!(ChartPeriod::from_str(""), Err(PeriodError::Syntax));
    assert_eq!(ChartPeriod::from_str("1"), Err(PeriodError::Syntax));
    assert_eq!(ChartPeriod::from_str("1.2"), Err(PeriodError::Syntax));
    assert_eq!(ChartPeriod::from_str("1..."), Err(PeriodError::Syntax));
    assert_eq!(ChartPeriod::from_str("..2"), Err(PeriodError::Syntax));
    assert_eq!(ChartPeriod::from_str("1.."), Err(PeriodError::Syntax));
    assert_eq!(ChartPeriod::from_str("1..2..3"), Err(PeriodError::Syntax));
    assert_eq!(ChartPeriod::from_str("a..2"), Err(PeriodError::Syntax));
    assert_eq!(ChartPeriod::from_str("1 ..2"), Err(PeriodError::Syntax));
}

#[test]
fn period_from_str_says_which_time_is_wrong() {
    assert_eq!(ChartPeriod::from_str("0..2"), Err(PeriodError::Start(TimeError::WeekZero)));
    assert_eq!(ChartPeriod::from_str("1/6..2"), Err(PeriodError::Start(TimeError::Syntax)));
    assert_eq!(ChartPeriod::from_str("1..2/1/5"), Err(PeriodError::End(TimeError::Syntax)));
    assert_eq!(ChartPeriod::from_str("1..0"), Err(PeriodError::End(TimeError::WeekZero)));
}

#[test]
fn period_from_str_refuses_an_end_before_the_start() {
    assert_eq!(ChartPeriod::from_str("2..1"), Err(PeriodError::Inverted));
    assert_eq!(ChartPeriod::from_str("1/2..1/1"), Err(PeriodError::Inverted));
}

#[test]
fn period_parses_through_the_standard_trait() {
    assert_eq!("1/1..1/2".parse::<ChartPeriod>(), Ok(period(0, 7)));
    assert_eq!("1/1".parse::<ChartPeriod>(), Err(PeriodError::Syntax));
}
