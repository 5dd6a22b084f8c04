use resource_chart::chartperiod::ChartPeriod;
use resource_chart::chartrow::ChartRow;
use resource_chart::charttime::{ChartTime, TimeError};
use resource_chart::data::{
    attribute_key, parse_done, parse_done_part, parse_plan, parse_plan_part, AttributeError,
    AttributeKey, DoneEntry, DoneError, NodeConfigData, PlanEntry, PlanError, PlanSuffix,
    ResourcingStrategy, ScheduleError, SchedulingStrategy,
};
use resource_chart::root::RootConfigData;
use resource_chart::text::NumberError;

fn period(first: u32, last: u32) -> ChartPeriod {
    ChartPeriod::new(first, last).unwrap()
}

fn set_cells(row: &ChartRow) -> Vec<u32> {
    (0..row.get_num_cells()).filter(|c| row.is_set(*c)).collect()
}

fn root() -> RootConfigData {
    let mut r = RootConfigData::new();
    r.set_weeks(2);
    r.add_developer("alice", &period(0, 39)).unwrap();
    r.add_developer("bob", &period(20, 39)).unwrap();
    r
}

fn set(node: &mut NodeConfigData, root: &RootConfigData, key: &str, value: &str) -> Result<(), AttributeError> {
    node.add_attribute(root, &key.to_string(), &value.to_string())
}

fn plan(when: u32, plan: u32) -> PlanEntry {
    PlanEntry::new(when, plan, None)
}

#[test]
fn node_new_has_no_attributes() {
    let n = NodeConfigData::new(40);
    assert_eq!(n.cells.get_num_cells(), 40);
    assert_eq!(n.cells.count(), 0);
    assert_eq!(n.budget, None);
    assert_eq!(n.scheduling, SchedulingStrategy::Parallel);
    assert_eq!(n.resourcing, None);
    assert!(n.get_managed());
    assert!(n.notes.is_empty());
    assert_eq!(n.dev, None);
    assert!(n.plan.is_empty() && n.default_plan.is_empty() && n.done.is_empty());
    assert_eq!((n.initial_plan, n.now_plan), (None, None));
    assert_eq!((n.earliest_start, n.latest_end), (0, 40));
    assert!(!n.resource_transferred);
}

#[test]
fn node_attribute_keys() {
    assert_eq!(attribute_key("budget"), Some(AttributeKey::Budget));
    assert_eq!(attribute_key("schedule"), Some(AttributeKey::Schedule));
    assert_eq!(attribute_key("resource"), Some(AttributeKey::Resource));
    assert_eq!(attribute_key("non-managed"), Some(AttributeKey::NonManaged));
    assert_eq!(attribute_key("dev"), Some(AttributeKey::Dev));
    assert_eq!(attribute_key("note"), Some(AttributeKey::Note));
    assert_eq!(attribute_key("plan"), Some(AttributeKey::Plan));
    assert_eq!(attribute_key("default-plan"), Some(AttributeKey::DefaultPlan));
    assert_eq!(attribute_key("done"), Some(AttributeKey::Done));
    assert_eq!(attribute_key("earliest-start"), Some(AttributeKey::EarliestStart));
    assert_eq!(attribute_key("latest-end"), Some(AttributeKey::LatestEnd));
    assert_eq!(attribute_key("Budget"), None);
    assert_eq!(attribute_key("notes"), None);
    assert_eq!(attribute_key(""), None);
}

#[test]
fn node_unknown_attribute_is_refused() {
    let mut n = NodeConfigData::new(40);
    assert_eq!(set(&mut n, &root(), "colour", "red"), Err(AttributeError::Unknown));
}

#[test]
fn node_budget_is_in_quarters() {
    let r = root();
    let mut n = NodeConfigData::new(40);
    for (text, quarters) in [("0", 0), ("1", 4), ("2.5", 10), ("2.50", 10), ("0.25", 1), ("0.3", 1),
        ("0.37", 1), ("0.38", 2), ("0.12", 0), ("0.13", 1), ("10.75", 43), ("007.1", 28),
        ("-0", 0), ("-0.0", 0), ("1073741823.75", u32::MAX), ("+1", 4), ("5.", 20), (".5", 2),
        ("+.25", 1), ("-.000", 0), ("1073741823.8749", u32::MAX)]
    {
        assert_eq!(set(&mut n, &r, "budget", text), Ok(()), "{}", text);
        assert_eq!(n.budget, Some(quarters), "{}", text);
    }
}

#[test]
fn node_budget_rounds_to_the_nearest_quarter() {
    let r = root();
    let mut n = NodeConfigData::new(40);
    for (text, quarters) in [
        ("0.125", 1),
        ("1.125", 5),
        ("0.1249999999999999999999999", 0),
        ("0.1250000000000000000000000", 1),
        ("0.374", 1),
        ("0.375", 2),
        ("0.3750001", 2),
        ("0.6249", 2),
        ("0.625", 3),
        ("0.8749", 3),
        ("0.875", 4),
        ("0.99999", 4),
        ("3.14159265358979", 13),
        ("1.234", 5),
        ("0.0000000000000000000000000000000000000001", 0),
    ] {
        assert_eq!(set(&mut n, &r, "budget", text), Ok(()), "{}", text);
        assert_eq!(n.budget, Some(quarters), "{}", text);
    }
    assert_eq!(resource_chart::data::read_budget("2.5"), Ok(10));
    assert_eq!(resource_chart::data::read_budget("0.125"), Ok(1));
}

#[test]
fn node_budget_says_what_is_wrong() {
    let r = root();
    let mut n = NodeConfigData::new(40);
    for text in ["", "x", ".", "+", "-", "+.", "1.2.3", "1,5", "1e3", " 1", "1 ", "--1", "+-1",
        "-x", "1.x", "x.1", "inf", "nan", "１"]
    {
        assert_eq!(
            set(&mut n, &r, "budget", text),
            Err(AttributeError::Budget(NumberError::Syntax)),
            "{}",
            text
        );
    }
    for text in ["-1", "-0.01", "-0.12", "-99999999999", "-.0001", "-0.0000000000000000000001"] {
        assert_eq!(set(&mut n, &r, "budget", text), Err(AttributeError::BudgetNegative), "{}", text);
    }
    for text in ["1073741824", "99999999999999999999", "1073741823.875"] {
        assert_eq!(
            set(&mut n, &r, "budget", text),
            Err(AttributeError::Budget(NumberError::TooLarge)),
            "{}",
            text
        );
    }
    assert_eq!(n.budget, None);
}

#[test]
fn node_schedule_and_resource_are_named() {
    let r = root();
    let mut n = NodeConfigData::new(40);
    assert_eq!(set(&mut n, &r, "schedule", "serial"), Ok(()));
    assert_eq!(n.scheduling, SchedulingStrategy::Serial);
    assert_eq!(set(&mut n, &r, "schedule", "parallel"), Ok(()));
    assert_eq!(n.scheduling, SchedulingStrategy::Parallel);
    assert_eq!(set(&mut n, &r, "schedule", "Serial"), Err(AttributeError::Schedule));
    for (text, s) in [
        ("management", ResourcingStrategy::Management),
        ("smearprorata", ResourcingStrategy::SmearProRata),
        ("smearremaining", ResourcingStrategy::SmearRemaining),
        ("frontload", ResourcingStrategy::FrontLoad),
        ("backload", ResourcingStrategy::BackLoad),
        ("prodsfr", ResourcingStrategy::ProdSFR),
    ] {
        assert_eq!(set(&mut n, &r, "resource", text), Ok(()));
        assert_eq!(n.get_resourcing(&r, "any"), Some(s));
    }
    assert_eq!(set(&mut n, &r, "resource", "prodsfr_part2"), Err(AttributeError::Resource));
    assert_eq!(set(&mut n, &r, "resource", ""), Err(AttributeError::Resource));
    assert_eq!(n.set_resourcing(&r, ResourcingStrategy::BackLoad), Ok(()));
    assert_eq!(n.resourcing, Some(ResourcingStrategy::BackLoad));
}

#[test]
fn node_non_managed_turns_the_flag() {
    let r = root();
    let mut n = NodeConfigData::new(40);
    assert_eq!(set(&mut n, &r, "non-managed", "true"), Ok(()));
    assert!(!n.get_managed());
    assert_eq!(set(&mut n, &r, "non-managed", "false"), Ok(()));
    assert!(n.get_managed());
    assert_eq!(set(&mut n, &r, "non-managed", "true"), Ok(()));
    assert_eq!(set(&mut n, &r, "non-managed", "yes"), Ok(()));
    assert!(n.get_managed());
    assert_eq!(n.set_non_managed("True"), Ok(()));
    assert!(n.get_managed());
    n.set_managed(false);
    assert!(!n.get_managed());
}

#[test]
fn node_dev_has_to_be_known() {
    let r = root();
    let mut n = NodeConfigData::new(40);
    assert_eq!(n.get_dev(&r, "task"), None);
    assert_eq!(n.get_dev(&r, "bob"), Some("bob".to_string()));
    assert_eq!(n.get_dev(&r, "outsource"), Some("outsource".to_string()));
    assert_eq!(set(&mut n, &r, "dev", "carol"), Err(AttributeError::UnknownDeveloper));
    assert_eq!(n.dev, None);
    assert_eq!(set(&mut n, &r, "dev", "alice"), Ok(()));
    assert_eq!(n.get_dev(&r, "bob"), Some("alice".to_string()));
    assert_eq!(set(&mut n, &r, "dev", "outsource"), Ok(()));
    assert_eq!(n.dev, Some("outsource".to_string()));
}

#[test]
fn node_notes_add_up() {
    let r = root();
    let mut n = NodeConfigData::new(40);
    assert_eq!(set(&mut n, &r, "note", "first"), Ok(()));
    assert_eq!(n.add_note("second"), Ok(()));
    assert_eq!(n.notes, vec!["first", "second"]);
}

#[test]
fn node_plan_part_reads_time_days_and_share() {
    assert_eq!(parse_plan_part("3"), Ok(plan(0, 12)));
    assert_eq!(parse_plan_part("2:1.5"), Ok(plan(20, 6)));
    assert_eq!(parse_plan_part("2/3/4:0.25"), Ok(plan(31, 1)));
    assert_eq!(parse_plan_part("10pcy"), Ok(PlanEntry::new(0, 40, Some(PlanSuffix::PerYear))));
    assert_eq!(parse_plan_part("2:1.25pcm"), Ok(PlanEntry::new(20, 5, Some(PlanSuffix::PerMonth))));
    assert_eq!(NodeConfigData::new(1).new_plan_entry("1/2:2"), Ok(plan(4, 8)));
}

#[test]
fn node_plan_part_says_what_is_wrong() {
    assert_eq!(parse_plan_part("0:1"), Err(PlanError::Time(TimeError::WeekZero)));
    assert_eq!(parse_plan_part("x:1"), Err(PlanError::Time(TimeError::Syntax)));
    assert_eq!(parse_plan_part(":1"), Err(PlanError::Time(TimeError::Syntax)));
    assert_eq!(parse_plan_part("1:2:3"), Err(PlanError::Number(NumberError::Syntax)));
    for text in ["", "pcy", "1pc", "1pcx", "1 pcy", "1pcy ", "2: 3", "1.", "abc", "1pcypcm"] {
        assert_eq!(parse_plan_part(text), Err(PlanError::Number(NumberError::Syntax)), "{}", text);
    }
    assert_eq!(parse_plan_part("1073741824pcm"), Err(PlanError::Number(NumberError::TooLarge)));
}

#[test]
fn node_plan_is_a_list() {
    assert_eq!(parse_plan("1, 2:3, 4:0.25pcy").unwrap(), vec![
        plan(0, 4),
        plan(20, 12),
        PlanEntry::new(60, 1, Some(PlanSuffix::PerYear)),
    ]);
    assert_eq!(parse_plan("1,2"), Err(PlanError::Number(NumberError::Syntax)));
    assert_eq!(parse_plan("1,  2"), Err(PlanError::Number(NumberError::Syntax)));
    assert_eq!(parse_plan("1, "), Err(PlanError::Number(NumberError::Syntax)));
    assert_eq!(parse_plan(""), Err(PlanError::Number(NumberError::Syntax)));
    assert_eq!(parse_plan("1, 0:2, x"), Err(PlanError::Time(TimeError::WeekZero)));
}

#[test]
fn node_set_plan_adds_all_or_nothing() {
    let r = root();
    let mut n = NodeConfigData::new(40);
    assert_eq!(set(&mut n, &r, "plan", "1, 2:2"), Ok(()));
    assert_eq!(set(&mut n, &r, "plan", "3, oops"), Err(AttributeError::Plan(PlanError::Number(NumberError::Syntax))));
    assert_eq!(set(&mut n, &r, "plan", "2/1:5"), Ok(()));
    assert_eq!(n.plan, vec![plan(0, 4), plan(20, 8), plan(20, 20)]);
    assert_eq!(set(&mut n, &r, "default-plan", "0.5"), Ok(()));
    assert_eq!(
        set(&mut n, &r, "default-plan", "9:"),
        Err(AttributeError::DefaultPlan(PlanError::Number(NumberError::Syntax)))
    );
    assert_eq!(n.default_plan, vec![plan(0, 2)]);
    assert_eq!(n.set_plan("1"), Ok(()));
    assert_eq!(n.set_default_plan("1"), Ok(()));
    assert_eq!((n.plan.len(), n.default_plan.len()), (4, 2));
}

#[test]
fn node_get_plan_takes_the_last_entry_that_holds() {
    let mut r = root();
    r.set_weeks(104);
    let mut n = NodeConfigData::new(40);
    n.set_plan("1, 3:2, 2:3pcy, 3/2:4pcm").unwrap();
    n.set_default_plan("3:10").unwrap();
    let alice = Some("alice".to_string());
    assert_eq!(n.get_plan(&r, &alice, 0), Some(4));
    assert_eq!(n.get_plan(&r, &alice, 19), Some(4));
    // From week 2 on: a share of 12 quarters a year, of the 40 quarters of alice.
    assert_eq!(n.get_plan(&r, &alice, 20), Some(1));
    assert_eq!(n.get_plan(&r, &alice, 40), Some(1));
    // From the second day of week 3 on: 16 quarters a month.
    assert_eq!(n.get_plan(&r, &alice, 44), Some(8));
    assert_eq!(n.get_plan(&r, &None, 44), Some(384));
    assert_eq!(n.get_plan(&r, &Some("outsource".to_string()), 20), Some(24));
    assert_eq!(n.get_default_plan(&r, &alice, 39), None);
    assert_eq!(n.get_default_plan(&r, &alice, 40), Some(40));
    assert_eq!(NodeConfigData::new(40).get_plan(&r, &alice, 0), None);
}

#[test]
fn node_set_derived_plan_keeps_both() {
    let mut n = NodeConfigData::new(40);
    assert_eq!(n.set_derived_plan(Some(3), None), Ok(()));
    assert_eq!((n.initial_plan, n.now_plan), (Some(3), None));
}

#[test]
fn node_done_part_reads_start_and_days() {
    let d = parse_done_part("1/2:1.5", 2).unwrap();
    assert_eq!((d.start.to_u32(), d.start.duration(), d.time), (4, 4, 6));
    let d = parse_done_part("2:5", 2).unwrap();
    assert_eq!((d.start.to_u32(), d.start.duration(), d.time), (20, 20, 20));
    let d = DoneEntry::new(ChartTime::from_u32(7), 3);
    assert_eq!((d.start.to_u32(), d.time), (7, 3));
}

#[test]
fn node_done_part_says_what_is_wrong() {
    assert_eq!(parse_done_part("5", 2).unwrap_err(), DoneError::Syntax);
    assert_eq!(parse_done_part("", 2).unwrap_err(), DoneError::Syntax);
    assert_eq!(parse_done_part("0:5", 2).unwrap_err(), DoneError::Time(TimeError::WeekZero));
    assert_eq!(parse_done_part("1/1 :5", 2).unwrap_err(), DoneError::Time(TimeError::Syntax));
    assert_eq!(parse_done_part("1: 5", 2).unwrap_err(), DoneError::Number(NumberError::Syntax));
    assert_eq!(parse_done_part("1:5pcy", 2).unwrap_err(), DoneError::Number(NumberError::Syntax));
    assert_eq!(parse_done_part("1:0", 2).unwrap_err(), DoneError::Zero);
    assert_eq!(parse_done_part("1:0.1", 2).unwrap_err(), DoneError::Zero);
    assert_eq!(parse_done_part("2:5.25", 2).unwrap_err(), DoneError::OutsideChart);
    assert_eq!(parse_done_part("3:1", 2).unwrap_err(), DoneError::OutsideChart);
    assert_eq!(parse_done_part("1:1", 0).unwrap_err(), DoneError::OutsideChart);
    assert!(parse_done_part("2/5/4:0.25", 2).is_ok());
    assert_eq!(
        parse_done_part("214748365/4:1", u32::MAX).unwrap_err(),
        DoneError::OutsideChart
    );
}

#[test]
fn node_done_is_a_list_added_all_or_nothing() {
    let r = root();
    assert_eq!(parse_done("1:1, 2/1:0.5", 2).unwrap().len(), 2);
    assert_eq!(parse_done("1:1, 2/1", 2).unwrap_err(), DoneError::Syntax);
    let mut n = NodeConfigData::new(40);
    assert_eq!(set(&mut n, &r, "done", "1:1, 1/3:2"), Ok(()));
    assert_eq!(set(&mut n, &r, "done", "1:1, 3:1"), Err(AttributeError::Done(DoneError::OutsideChart)));
    assert_eq!(n.add_done(&r, "2/2/2:0.75"), Ok(()));
    assert_eq!(n.add_done(&r, "2/2/2:"), Err(DoneError::Number(NumberError::Syntax)));
    assert_eq!(n.set_done(&r, "2:1"), Ok(()));
    let all: Vec<(u32, u32)> = n.done.iter().map(|d| (d.start.to_u32(), d.time)).collect();
    assert_eq!(all, vec![(0, 4), (8, 8), (25, 3), (20, 4)]);
}

#[test]
fn node_earliest_start_only_rises() {
    let r = root();
    let mut n = NodeConfigData::new(40);
    assert_eq!(set(&mut n, &r, "earliest-start", "1/3"), Ok(()));
    assert_eq!(n.earliest_start, 8);
    assert_eq!(set(&mut n, &r, "earliest-start", "1/2"), Ok(()));
    assert_eq!(n.earliest_start, 8);
    assert_eq!(set(&mut n, &r, "earliest-start", "2"), Ok(()));
    assert_eq!(n.earliest_start, 20);
    assert_eq!(set(&mut n, &r, "earliest-start", "3/1/1"), Ok(()));
    assert_eq!(n.earliest_start, 40);
    assert_eq!(set(&mut n, &r, "earliest-start", "3/1/2"), Err(AttributeError::StartAfterEnd));
    assert_eq!(
        set(&mut n, &r, "earliest-start", "soon"),
        Err(AttributeError::EarliestStart(TimeError::Syntax))
    );
    assert_eq!(n.set_earliest_start("1"), Ok(()));
    assert_eq!(n.earliest_start, 40);
}

#[test]
fn node_latest_end_only_falls() {
    let r = root();
    let mut n = NodeConfigData::new(40);
    assert_eq!(set(&mut n, &r, "latest-end", "2"), Ok(()));
    assert_eq!(n.latest_end, 39);
    assert_eq!(set(&mut n, &r, "latest-end", "2/1"), Ok(()));
    assert_eq!(n.latest_end, 23);
    assert_eq!(set(&mut n, &r, "latest-end", "2/2"), Ok(()));
    assert_eq!(n.latest_end, 23);
    assert_eq!(set(&mut n, &r, "earliest-start", "1/2"), Ok(()));
    assert_eq!(set(&mut n, &r, "latest-end", "1/1/4"), Err(AttributeError::StartAfterEnd));
    assert_eq!(set(&mut n, &r, "latest-end", "1/2/1"), Ok(()));
    assert_eq!((n.earliest_start, n.latest_end), (4, 4));
    assert_eq!(set(&mut n, &r, "latest-end", ""), Err(AttributeError::LatestEnd(TimeError::Syntax)));
    assert_eq!(n.set_latest_end("9"), Ok(()));
}

#[test]
fn node_transfer_done_books_past_and_future_apart() {
    let mut r = root();
    r.set_now(20);
    let mut n = NodeConfigData::new(40);
    n.set_dev(&r, &"alice".to_string()).unwrap();
    n.set_done(&r, "1/1:1.5, 2/5:0.5, 1/5/4:0.25").unwrap();
    assert_eq!(n.transfer_past_done(&mut r), Ok(()));
    assert_eq!(set_cells(&n.cells), vec![0, 1, 2, 3, 4, 5, 19]);
    assert_eq!(n.transfer_future_done_unmanaged(&mut r), Ok(()));
    assert_eq!(n.cells.count(), 7);
    assert_eq!(n.transfer_future_done_managed(&mut r), Ok(()));
    assert_eq!(set_cells(&n.cells), vec![0, 1, 2, 3, 4, 5, 19, 36, 37]);
    assert_eq!(r.developers[0].data.cells.count(), 31);
    assert!(!n.resource_transferred);
    n.set_managed(false);
    assert_eq!(n.transfer_future_done_unmanaged(&mut r), Ok(()));
    assert_eq!(n.cells.count(), 11);
    assert_eq!(
        n.transfer_future_done_unmanaged(&mut r),
        Err(ScheduleError::DoneUnallocated { quarters: 2, start: 36 })
    );
    assert_eq!(n.transfer_future_done_managed(&mut r), Ok(()));
    assert_eq!(
        n.transfer_done(&mut r, true),
        Err(ScheduleError::DoneUnallocated { quarters: 6, start: 0 })
    );
}

#[test]
fn node_transfer_done_needs_a_developer_with_a_row() {
    let mut r = root();
    let mut n = NodeConfigData::new(40);
    n.set_done(&r, "1:1").unwrap();
    assert_eq!(n.transfer_done(&mut r, false), Ok(()));
    n.set_dev(&r, &"outsource".to_string()).unwrap();
    assert_eq!(n.transfer_done(&mut r, false), Ok(()));
    assert_eq!(n.cells.count(), 0);
    n.set_dev(&r, &"alice".to_string()).unwrap();
    let mut short = NodeConfigData::new(2);
    short.dev = n.dev.clone();
    short.done.push(DoneEntry::new(ChartTime::from_str("1/1").unwrap(), 4));
    assert_eq!(short.transfer_done(&mut r, false), Err(ScheduleError::RowTooShort));
    assert_eq!(set_cells(&short.cells), vec![0, 1]);
    assert_eq!(r.developers[0].data.cells.count(), 38);
}

#[test]
fn node_future_resource_follows_the_strategy() {
    for (strategy, cells, latched) in [
        (ResourcingStrategy::FrontLoad, vec![10, 11, 12, 13], true),
        (ResourcingStrategy::BackLoad, vec![36, 37, 38, 39], true),
        (ResourcingStrategy::SmearRemaining, vec![10, 17, 25, 32], true),
        (ResourcingStrategy::ProdSFR, vec![], false),
        (ResourcingStrategy::ProdSFR_part2, vec![36, 37, 38, 39], true),
        (ResourcingStrategy::Management, vec![], false),
    ] {
        let mut r = root();
        r.set_now(10);
        let mut n = NodeConfigData::new(40);
        n.set_dev(&r, &"alice".to_string()).unwrap();
        n.set_derived_plan(Some(4), Some(4)).unwrap();
        assert_eq!(n.transfer_future_resource(&mut r, Some(strategy)), Ok(()));
        assert_eq!(set_cells(&n.cells), cells);
        assert_eq!(n.resource_transferred, latched);
        assert_eq!(r.developers[0].data.cells.count() + n.cells.count(), 40);
    }
}

#[test]
fn node_future_resource_takes_what_is_left_of_the_plan() {
    let mut r = root();
    r.set_now(10);
    let mut n = NodeConfigData::new(40);
    n.set_dev(&r, &"bob".to_string()).unwrap();
    n.set_resourcing(&r, ResourcingStrategy::FrontLoad).unwrap();
    n.set_derived_plan(None, Some(25)).unwrap();
    n.cells.set_range(&period(0, 2)).unwrap();
    assert_eq!(
        n.transfer_future_remaining_resource(&mut r),
        Err(ScheduleError::Unallocated { quarters: 2 })
    );
    assert_eq!(n.cells.count(), 23);
    assert_eq!(r.developers[1].data.cells.count(), 0);
    assert_eq!(r.developers[1].data.unallocated, 2);
    assert!(n.resource_transferred);
    assert_eq!(n.transfer_future_remaining_resource(&mut r), Ok(()));
    assert_eq!(r.developers[1].data.unallocated, 2);
}

#[test]
fn node_future_resource_does_nothing_without_plan_or_developer() {
    let mut r = root();
    let mut n = NodeConfigData::new(40);
    assert_eq!(n.transfer_future_resource(&mut r, Some(ResourcingStrategy::FrontLoad)), Ok(()));
    n.set_derived_plan(Some(4), Some(4)).unwrap();
    assert_eq!(n.transfer_future_resource(&mut r, Some(ResourcingStrategy::FrontLoad)), Ok(()));
    n.set_dev(&r, &"alice".to_string()).unwrap();
    n.set_derived_plan(Some(4), None).unwrap();
    assert_eq!(n.transfer_future_resource(&mut r, Some(ResourcingStrategy::FrontLoad)), Ok(()));
    assert_eq!(n.cells.count(), 0);
    assert!(!n.resource_transferred);
    n.set_derived_plan(Some(4), Some(4)).unwrap();
    assert_eq!(n.transfer_future_resource(&mut r, None), Err(ScheduleError::NoStrategy));
}

#[test]
fn node_phases_pick_their_strategies() {
    let mut r = root();
    let mut n = NodeConfigData::new(40);
    n.set_dev(&r, &"alice".to_string()).unwrap();
    n.set_derived_plan(Some(4), Some(4)).unwrap();
    n.set_resourcing(&r, ResourcingStrategy::BackLoad).unwrap();
    assert_eq!(n.transfer_future_smear(&mut r), Ok(()));
    assert_eq!(n.transfer_future_frontload(&mut r), Ok(()));
    assert_eq!(n.transfer_future_unmanaged_resource(&mut r), Ok(()));
    assert_eq!(n.transfer_future_management_resource(&mut r), Ok(()));
    assert_eq!(n.cells.count(), 0);
    assert_eq!(n.transfer_future_backload(&mut r), Ok(()));
    assert_eq!(set_cells(&n.cells), vec![36, 37, 38, 39]);
    let mut m = NodeConfigData::new(40);
    m.set_dev(&r, &"alice".to_string()).unwrap();
    m.set_derived_plan(Some(4), Some(4)).unwrap();
    m.set_resourcing(&r, ResourcingStrategy::FrontLoad).unwrap();
    m.set_managed(false);
    assert_eq!(m.transfer_future_unmanaged_resource(&mut r), Ok(()));
    assert_eq!(set_cells(&m.cells), vec![0, 1, 2, 3]);
}

#[test]
fn node_pro_rata_plan_is_what_was_done_and_the_share_to_come() {
    let mut r = root();
    r.set_weeks(4);
    r.add_developer("carol", &period(20, 79)).unwrap();
    let mut n = NodeConfigData::new(80);
    n.set_dev(&r, &"carol".to_string()).unwrap();
    n.cells.set_range(&period(20, 24)).unwrap();
    n.cells.set(50).unwrap();
    assert_eq!(n.pro_rata_plan_at_date(0, 30, &r), 30);
    assert_eq!(n.pro_rata_plan_at_date(20, 30, &r), 30);
    assert_eq!(n.pro_rata_plan_at_date(40, 30, &r), 5 + 20);
    assert_eq!(n.pro_rata_plan_at_date(41, 30, &r), 5 + 20);
    assert_eq!(n.pro_rata_plan_at_date(79, 30, &r), 6 + 1);
    assert_eq!(n.pro_rata_plan_at_date(60, 0, &r), 6);
    n.dev = None;
    assert_eq!(n.pro_rata_plan_at_date(40, 30, &r), 5 + 15);
}
