use resource_chart::chartdate::{ChartDate, DateError};
use resource_chart::chartperiod::{ChartPeriod, PeriodError};
use resource_chart::chartrow::{ChartRow, RowError};
use resource_chart::charttime::{ChartTime, TimeError};
use resource_chart::file::ConfigLines;
use resource_chart::root::{
    BorderType, ConfigError, DeveloperData, DeveloperError, LabelData, LabelError,
    ManagementError, RootConfigData,
};

fn period(first: u32, last: u32) -> ChartPeriod {
    ChartPeriod::new(first, last).unwrap()
}

fn set_cells(row: &ChartRow) -> Vec<u32> {
    (0..row.get_num_cells()).filter(|c| row.is_set(*c)).collect()
}

fn root(weeks: u32, now: u32) -> RootConfigData {
    let mut r = RootConfigData::new();
    r.set_weeks(weeks);
    r.set_now(now);
    r
}

fn section(text: &str) -> (RootConfigData, Result<(), ConfigError>) {
    let lines: Vec<String> = text.lines().map(|l| l.to_string()).collect();
    let mut config = ConfigLines::from_lines(&lines).unwrap();
    let mut r = RootConfigData::new();
    let mut result = Ok(());
    while config.peek_line().is_some() && result.is_ok() {
        result = r.read_config(&mut config);
    }
    (r, result)
}

#[test]
fn root_new_is_empty() {
    let r = RootConfigData::new();
    assert_eq!(r.get_weeks(), 0);
    assert_eq!(r.get_now(), 0);
    assert_eq!(r.get_manager(), None);
    assert_eq!(r.get_start_date(), ChartDate::new());
    assert!(r.developers.is_empty());
    assert!(r.labels.is_empty());
    assert!(!r.is_chart_valid());
}

#[test]
fn root_setters_set() {
    let mut r = RootConfigData::new();
    r.set_weeks(7);
    r.set_now(45);
    r.set_manager("mgr");
    r.set_start_date(&ChartDate::from_str("4/5/17").unwrap());
    assert_eq!(r.get_weeks(), 7);
    assert_eq!(r.get_now(), 45);
    assert_eq!(r.get_now_week(), 3);
    assert_eq!(r.get_manager(), Some("mgr".to_string()));
    assert_eq!(r.get_start_date().to_string(), "4/5/17");
    assert!(r.is_chart_valid());
}

#[test]
fn root_chart_is_valid_where_today_lies_in_it() {
    assert!(root(1, 0).is_chart_valid());
    assert!(root(1, 19).is_chart_valid());
    assert!(!root(1, 20).is_chart_valid());
    assert!(!root(0, 0).is_chart_valid());
    assert!(root(214748364, 4294967279).is_chart_valid());
    assert!(!root(214748365, 0).is_chart_valid());
}

#[test]
fn root_valid_cells_lie_in_the_chart() {
    let r = root(2, 0);
    assert!(r.is_valid_cell(0));
    assert!(r.is_valid_cell(39));
    assert!(!r.is_valid_cell(40));
    assert!(!root(0, 0).is_valid_cell(0));
    assert!(root(u32::MAX, 0).is_valid_cell(u32::MAX));
}

#[test]
fn root_developer_data_has_its_period_free() {
    let d = DeveloperData::new(40, &period(5, 9)).unwrap();
    assert_eq!(set_cells(&d.cells), vec![5, 6, 7, 8, 9]);
    assert_eq!(d.period, period(5, 9));
    assert_eq!(d.unallocated, 0);
    assert_eq!(
        DeveloperData::new(40, &period(30, 40)).unwrap_err(),
        RowError::CellOutOfRange { cell: 40, width: 40 }
    );
    assert_eq!(
        DeveloperData::new(40, &period(50, 60)).unwrap_err(),
        RowError::CellOutOfRange { cell: 50, width: 40 }
    );
}

#[test]
fn root_add_developer_keeps_names_apart() {
    let mut r = root(2, 0);
    assert_eq!(r.add_developer("alice", &period(0, 39)), Ok(()));
    assert_eq!(r.add_developer("bob", &period(20, 39)), Ok(()));
    assert_eq!(r.add_developer("alice", &period(0, 19)), Err(DeveloperError::Redefined));
    assert_eq!(
        r.add_developer("carol", &period(20, 40)),
        Err(DeveloperError::Range(RowError::CellOutOfRange { cell: 40, width: 40 }))
    );
    assert_eq!(r.developers.len(), 2);
    assert_eq!(r.find_developer("alice"), Some(0));
    assert_eq!(r.find_developer("bob"), Some(1));
    assert_eq!(r.find_developer("carol"), None);
    assert_eq!(r.get_dev_period("bob"), Some(period(20, 39)));
    assert_eq!(r.get_dev_period("carol"), None);
    assert!(r.is_valid_developer("alice"));
    assert!(r.is_valid_developer("outsource"));
    assert!(!r.is_valid_developer("carol"));
    assert!(!r.is_valid_developer("Alice"));
    let mut long = root(214748365, 0);
    assert_eq!(long.add_developer("a", &period(0, 1)), Err(DeveloperError::ChartTooLong));
}

#[test]
fn root_dev_cells_can_be_changed_in_place() {
    let mut r = root(1, 0);
    r.add_developer("alice", &period(0, 3)).unwrap();
    r.get_dev_cells("alice").unwrap().unset(2).unwrap();
    assert_eq!(set_cells(&r.developers[0].data.cells), vec![0, 1, 3]);
    assert!(r.get_dev_cells("bob").is_none());
}

#[test]
fn root_resource_period_is_the_developers_time_in_the_chart() {
    let mut r = root(2, 0);
    r.add_developer("alice", &period(10, 29)).unwrap();
    assert_eq!(r.resource_period(&Some("alice".to_string())), Some(period(10, 29)));
    assert_eq!(r.resource_period(&Some("outsource".to_string())), Some(period(0, 39)));
    assert_eq!(r.resource_period(&None), Some(period(0, 39)));
    assert_eq!(r.get_plan_dev_duration(&Some("alice".to_string())), 20);
    assert_eq!(r.get_plan_dev_duration(&None), 40);
    r.set_weeks(1);
    assert_eq!(r.resource_period(&Some("alice".to_string())), Some(period(10, 19)));
    assert_eq!(r.chart_period(), period(0, 19));
    r.developers[0].data.period = period(20, 29);
    assert_eq!(r.resource_period(&Some("alice".to_string())), None);
    assert_eq!(r.get_plan_dev_duration(&Some("alice".to_string())), 0);
}

#[test]
fn root_record_unallocated_adds_up() {
    let mut r = root(1, 0);
    r.add_developer("alice", &period(0, 3)).unwrap();
    r.record_unallocated(0, 3);
    r.record_unallocated(0, 4);
    assert_eq!(r.developers[0].data.unallocated, 7);
    r.record_unallocated(0, u32::MAX);
    assert_eq!(r.developers[0].data.unallocated, u32::MAX);
}

#[test]
fn root_label_reads_time_and_text() {
    let l = LabelData::new("2/3: Release  now").unwrap();
    assert_eq!(l.when, 28);
    assert_eq!(l.text, "Release  now");
    let l = LabelData::new("3:x").unwrap();
    assert_eq!((l.when, l.text.as_str()), (40, "x"));
    let l = LabelData::new("1/1/2:").unwrap();
    assert_eq!((l.when, l.text.as_str()), (1, ""));
    let l = LabelData::new("4: a: b").unwrap();
    assert_eq!((l.when, l.text.as_str()), (60, "a: b"));
}

#[test]
fn root_label_refuses_other_shapes() {
    assert_eq!(LabelData::new("Release").unwrap_err(), LabelError::Syntax);
    assert_eq!(LabelData::new("").unwrap_err(), LabelError::Syntax);
    assert_eq!(LabelData::new(": x").unwrap_err(), LabelError::Syntax);
    assert_eq!(LabelData::new("1/1/1/1: x").unwrap_err(), LabelError::Syntax);
    assert_eq!(LabelData::new("0: x").unwrap_err(), LabelError::Time(TimeError::WeekZero));
    assert_eq!(LabelData::new("1/9: x").unwrap_err(), LabelError::Time(TimeError::Syntax));
}

#[test]
fn root_label_from_groups_needs_three_groups() {
    let g = |v: Vec<Option<&str>>| Some(v.into_iter().map(|t| t.map(|s| s.to_string())).collect());
    assert_eq!(LabelData::from_groups(None).unwrap_err(), LabelError::Syntax);
    assert_eq!(LabelData::from_groups(g(vec![Some("2: x"), Some("2")])).unwrap_err(), LabelError::Syntax);
    assert_eq!(
        LabelData::from_groups(g(vec![Some("2: x"), None, Some("x")])).unwrap_err(),
        LabelError::Syntax
    );
    let l = LabelData::from_groups(g(vec![Some("2: x"), Some("2"), Some("x")])).unwrap();
    assert_eq!((l.when, l.text.as_str()), (20, "x"));
}

#[test]
fn root_get_label_finds_the_first_in_the_span() {
    let mut r = root(4, 0);
    r.add_label("2/3: second").unwrap();
    r.add_label("2/1: first").unwrap();
    r.add_label("3/5/4: third").unwrap();
    assert_eq!(r.add_label("nothing"), Err(LabelError::Syntax));
    assert_eq!(r.labels.len(), 3);
    assert_eq!(r.get_label(&ChartTime::from_str("2").unwrap()), Some("second".to_string()));
    assert_eq!(r.get_label(&ChartTime::from_str("2/1").unwrap()), Some("first".to_string()));
    assert_eq!(r.get_label(&ChartTime::from_str("2/2").unwrap()), None);
    assert_eq!(r.get_label(&ChartTime::from_str("3").unwrap()), Some("third".to_string()));
    assert_eq!(r.get_label(&ChartTime::from_str("3/5/3").unwrap()), None);
    assert_eq!(r.get_label(&ChartTime::from_str("1").unwrap()), None);
}

#[test]
fn root_weekly_label_and_border() {
    let mut r = root(6, 45);
    r.add_label("1/2: start of it").unwrap();
    r.add_label("3/1: hidden by now").unwrap();
    r.add_label("4/1: release").unwrap();
    r.add_label("5/1:").unwrap();
    assert_eq!(r.weekly_label(1), Some("start of it".to_string()));
    assert_eq!(r.weekly_label(2), None);
    assert_eq!(r.weekly_label(3), Some("Now".to_string()));
    assert_eq!(r.weekly_label(4), Some("release".to_string()));
    assert_eq!(r.weekly_label(5), Some("".to_string()));
    assert_eq!(r.weekly_label(0), None);
    assert_eq!(r.weekly_label(u32::MAX), None);
    assert_eq!(r.weekly_left_border(1), BorderType::Start);
    assert_eq!(r.weekly_left_border(2), BorderType::Plain);
    assert_eq!(r.weekly_left_border(3), BorderType::Now);
    assert_eq!(r.weekly_left_border(4), BorderType::Label);
    assert_eq!(r.weekly_left_border(5), BorderType::Plain);
    assert_eq!(r.weekly_left_border(0), BorderType::Plain);
    assert_eq!(root(2, 0).weekly_left_border(1), BorderType::Now);
}

#[test]
fn root_reads_the_global_section() {
    let (r, result) = section(
        "[global]\n - weeks: 12\n - now: 3/2\n - manager: mgr\n - label: 4: ship\n - start-date: 6/3/17\n - weeks: +13\n",
    );
    assert_eq!(result, Ok(()));
    assert_eq!(r.get_weeks(), 13);
    assert_eq!(r.get_now(), 44);
    assert_eq!(r.get_manager(), Some("mgr".to_string()));
    assert_eq!(r.get_start_date().to_string(), "6/3/17");
    assert_eq!(r.labels.len(), 1);
    assert_eq!((r.labels[0].when, r.labels[0].text.as_str()), (60, "ship"));
}

#[test]
fn root_global_section_says_what_is_wrong() {
    assert_eq!(section("[global]\n - weeks: many\n").1, Err(ConfigError::Weeks));
    assert_eq!(section("[global]\n - weeks: -1\n").1, Err(ConfigError::Weeks));
    assert_eq!(section("[global]\n - weeks: 4294967296\n").1, Err(ConfigError::Weeks));
    assert_eq!(section("[global]\n - weeks:\n").1, Err(ConfigError::Weeks));
    assert_eq!(section("[global]\n - now: 0\n").1, Err(ConfigError::Now(TimeError::WeekZero)));
    assert_eq!(
        section("[global]\n - label: soon\n").1,
        Err(ConfigError::Label(LabelError::Syntax))
    );
    assert_eq!(
        section("[global]\n - start-date: 30/2/17\n").1,
        Err(ConfigError::StartDate(DateError::NoSuchDate))
    );
    assert_eq!(section("[global]\n - colour: red\n").1, Err(ConfigError::UnknownGlobal));
    let (r, result) = section("[global]\n - weeks: 3\n - now: x\n - weeks: 5\n");
    assert_eq!(result, Err(ConfigError::Now(TimeError::Syntax)));
    assert_eq!(r.get_weeks(), 3);
}

#[test]
fn root_reads_the_devs_section() {
    let (r, result) = section("[global]\n - weeks: 2\n - manager: outsource\n[devs]\n - alice: 1..2\n - bob: 1/3..2/1\n");
    assert_eq!(result, Ok(()));
    assert_eq!(r.developers.len(), 2);
    assert_eq!(r.developers[0].name, "alice");
    assert_eq!(r.developers[1].name, "bob");
    assert_eq!(r.developers[1].data.period, period(8, 23));
    assert_eq!(set_cells(&r.developers[1].data.cells), (8..=23).collect::<Vec<u32>>());
    assert_eq!(r.developers[0].data.cells.count(), 40);
}

#[test]
fn root_devs_section_says_what_is_wrong() {
    assert_eq!(
        section("[global]\n - weeks: 2\n[devs]\n - alice: 1-2\n").1,
        Err(ConfigError::DeveloperPeriod(PeriodError::Syntax))
    );
    assert_eq!(
        section("[global]\n - weeks: 2\n[devs]\n - alice: 2..1\n").1,
        Err(ConfigError::DeveloperPeriod(PeriodError::Inverted))
    );
    assert_eq!(
        section("[global]\n - weeks: 2\n[devs]\n - alice: 1..2\n - alice: 1..1\n").1,
        Err(ConfigError::Developer(DeveloperError::Redefined))
    );
    assert_eq!(
        section("[global]\n - weeks: 2\n[devs]\n - alice: 1..3\n").1,
        Err(ConfigError::Developer(DeveloperError::Range(RowError::CellOutOfRange {
            cell: 40,
            width: 40
        })))
    );
    assert_eq!(
        section("[devs]\n - alice: 1..1\n").1,
        Err(ConfigError::Developer(DeveloperError::Range(RowError::CellOutOfRange {
            cell: 0,
            width: 0
        })))
    );
    assert_eq!(
        section("[global]\n - weeks: 2\n - manager: mgr\n[devs]\n - alice: 1..2\n").1,
        Err(ConfigError::ManagerUnknown)
    );
    assert_eq!(section("[global]\n - weeks: 2\n - manager: alice\n[devs]\n - alice: 1..2\n").1, Ok(()));
}

#[test]
fn root_read_config_needs_a_section() {
    assert_eq!(section("task\n").1, Err(ConfigError::NotASection));
    assert_eq!(section("[Global]\n").1, Err(ConfigError::NotASection));
    let mut config = ConfigLines::new();
    assert_eq!(RootConfigData::new().read_config(&mut config), Err(ConfigError::NotASection));
    let lines = vec![" - weeks: 1".to_string()];
    let mut config = ConfigLines::from_lines(&lines).unwrap();
    assert_eq!(RootConfigData::new().read_config(&mut config), Err(ConfigError::NotASection));
    assert_eq!(config.peek_line(), None);
}

#[test]
fn root_management_takes_a_fifth_from_the_manager() {
    let mut r = root(2, 5);
    r.set_manager("mgr");
    r.add_developer("mgr", &period(0, 39)).unwrap();
    r.add_developer("a", &period(0, 39)).unwrap();
    r.add_developer("b", &period(10, 24)).unwrap();
    let mut row = ChartRow::new(40);
    assert_eq!(r.transfer_management_resource(&mut row), Ok(()));
    // Week 1, from today on: 15 quarters of a and 10 of b make 5 for the
    // manager, taken from the start of the week. Week 2: 20 and 5 make 5.
    assert_eq!(set_cells(&row), vec![0, 1, 2, 3, 4, 20, 21, 22, 23, 24]);
    assert_eq!(r.developers[0].data.cells.count(), 30);
    assert_eq!(r.developers[1].data.cells.count(), 40);
    assert_eq!(r.manager_index(), Some(0));
}

#[test]
fn root_management_rounds_each_week_up() {
    let mut r = root(2, 0);
    r.set_manager("mgr");
    r.add_developer("a", &period(0, 20)).unwrap();
    r.add_developer("mgr", &period(0, 39)).unwrap();
    let mut row = ChartRow::new(40);
    assert_eq!(r.transfer_management_resource(&mut row), Ok(()));
    assert_eq!(set_cells(&row), vec![0, 1, 2, 3, 20]);
}

#[test]
fn root_management_asks_nothing_of_a_week_in_which_the_manager_is_away() {
    let mut r = root(2, 10);
    r.set_manager("mgr");
    r.add_developer("mgr", &period(10, 38)).unwrap();
    r.add_developer("a", &period(0, 39)).unwrap();
    r.add_developer("b", &period(0, 14)).unwrap();
    let mut row = ChartRow::new(40);
    assert_eq!(r.transfer_management_resource(&mut row), Ok(()));
    // From today on the manager is free all of week 1, where a has 10
    // quarters and b has 5; in week 2 the manager is away for a quarter.
    assert_eq!(set_cells(&row), vec![10, 11, 12]);
    assert_eq!(r.developers[0].data.cells.count(), 26);
}

#[test]
fn root_management_reports_the_shortfall() {
    let mut r = root(2, 0);
    r.set_manager("mgr");
    r.add_developer("mgr", &period(0, 21)).unwrap();
    for name in ["a", "b", "c", "d", "e", "f"] {
        r.add_developer(name, &period(0, 39)).unwrap();
    }
    let mut row = ChartRow::new(40);
    row.set_range(&period(0, 3)).unwrap();
    row.set(20).unwrap();
    // Week 1 asks for 24 and finds 16; week 2 asks for nothing, as the
    // manager is away for most of it.
    assert_eq!(
        r.transfer_management_resource(&mut row),
        Err(ManagementError::Unallocated { quarters: 8 })
    );
    assert_eq!(row.count(), 21);
    assert_eq!(set_cells(&r.developers[0].data.cells), vec![0, 1, 2, 3, 20, 21]);
}

#[test]
fn root_management_without_a_manager_or_with_a_short_row() {
    let mut r = root(1, 0);
    r.add_developer("a", &period(0, 19)).unwrap();
    let mut row = ChartRow::new(20);
    assert_eq!(r.transfer_management_resource(&mut row), Ok(()));
    assert_eq!(row.count(), 0);
    assert_eq!(r.manager_index(), None);
    r.add_developer("", &period(0, 19)).unwrap();
    assert_eq!(r.manager_index(), None);
    assert_eq!(r.transfer_management_resource(&mut row), Ok(()));
    assert_eq!(row.count(), 0);
    assert_eq!(r.developers[1].data.cells.count(), 20);
    r.set_manager("nobody");
    assert_eq!(r.manager_index(), None);
    assert_eq!(r.transfer_management_resource(&mut row), Ok(()));
    r.set_manager("");
    assert_eq!(r.manager_index(), Some(1));
    r.set_manager("a");
    let mut short = ChartRow::new(19);
    assert_eq!(r.transfer_management_resource(&mut short), Err(ManagementError::RowTooShort));
    assert_eq!(r.developers[0].data.cells.count(), 20);
}
