use resource_chart::file::ConfigLines;
use resource_chart::messages::{
    describe_attribute, describe_build, describe_config, describe_schedule, days_string,
    generate_error_html,
};
use resource_chart::nodes::{BuildError, BuildErrorKind, ConfigNode, ConfigTree};
use resource_chart::root::RootConfigData;
use resource_chart::scheduler::{describe_phase, schedule, Phase, PhaseError};
use resource_chart::web::{
    format_quarters, generate_chart, generate_error_page, TemplateContext, TemplateRow,
};

fn scheduled(text: &str) -> ConfigTree {
    let lines: Vec<String> = text.lines().map(|l| l.to_string()).collect();
    let mut config = ConfigLines::from_lines(&lines).unwrap();
    let mut tree = ConfigNode::new_from_config(&mut config).unwrap();
    schedule(&mut tree).unwrap();
    tree
}

fn pair(a: &str, b: &str) -> (String, String) {
    (a.to_string(), b.to_string())
}

const BLANK: &str = "&nbsp;&nbsp;&nbsp;";

#[test]
fn web_quarters_are_shown_as_days() {
    assert_eq!(format_quarters(0), "");
    assert_eq!(format_quarters(1), "0.25");
    assert_eq!(format_quarters(2), "0.5&nbsp;");
    assert_eq!(format_quarters(3), "0.75");
    assert_eq!(format_quarters(4), "1&nbsp;&nbsp;&nbsp;");
    assert_eq!(format_quarters(41), "10.25");
    assert_eq!(format_quarters(-2), "-0.5&nbsp;");
    assert_eq!(format_quarters(-8), "-2&nbsp;&nbsp;&nbsp;");
    assert_eq!(format_quarters(-7), "-1.75");
    assert_eq!(format_quarters(i64::MIN), "-2305843009213693952&nbsp;&nbsp;&nbsp;");
    assert_eq!(format_quarters(i64::MAX), "2305843009213693951.75");
}

#[test]
fn web_new_row_is_indented_with_hard_spaces() {
    let row = TemplateRow::new(0, 7, "top task");
    assert_eq!(row.what, "&nbsp;top&nbsp;task");
    assert_eq!(row.line_num, 7);
    assert_eq!((row.who.as_str(), row.done.as_str(), row.left.as_str()), ("", " ", " "));
    assert_eq!((row.plan.as_str(), row.gain.as_str()), (" ", " "));
    assert!(!row.even && row.notes.is_empty() && row.cells.is_empty());
    assert_eq!(row.notes_html, "");
    assert_eq!(TemplateRow::new(1, 0, "a").what, "&nbsp;&nbsp;&nbsp;a");
    assert_eq!(TemplateRow::new(2, 0, " b ").what, "&nbsp;".repeat(7) + "b&nbsp;");
}

#[test]
fn web_row_setters_format() {
    let mut root = RootConfigData::new();
    root.set_weeks(3);
    root.set_now(20);
    let mut row = TemplateRow::new(0, 3, "t");
    row.set_who("alice");
    row.set_done(6);
    row.set_plan(8);
    row.set_gain(-4);
    row.set_left(2);
    row.add_cell(&root, 0);
    row.add_cell(&root, 5);
    row.add_cell(&root, 20);
    assert_eq!(row.who, "alice");
    assert_eq!(row.done, "1.5&nbsp;");
    assert_eq!(row.plan, "2&nbsp;&nbsp;&nbsp;");
    assert_eq!(row.gain, "-1&nbsp;&nbsp;&nbsp;");
    assert_eq!(row.left, "0.5&nbsp;");
    assert_eq!(
        row.cells,
        vec![pair("grid border", ""), pair("grid start", "1.25"), pair("grid", "5&nbsp;&nbsp;&nbsp;")]
    );
}

#[test]
fn web_row_notes_become_lines() {
    let mut row = TemplateRow::new(0, 12, "t");
    row.prepare_html();
    assert_eq!(row.notes_html, "");
    row.add_note("first");
    row.add_note("second");
    row.prepare_html();
    assert_eq!(row.notes_html, "Node at line 12<br>first<br>second");
    row.prepare_html();
    assert_eq!(row.notes_html, "Node at line 12<br>first<br>second");
}

#[test]
fn web_context_has_headers_and_labels() {
    let mut root = RootConfigData::new();
    root.set_weeks(6);
    root.set_now(45);
    root.add_label("1/2: kick-off").unwrap();
    root.add_label("5: ship").unwrap();
    let context = TemplateContext::new(&root);
    assert_eq!((context.chart_width, context.chart_height), (9999, 2000));
    assert!(context.rows.is_empty() && context.resource_rows.is_empty());
    assert_eq!(
        context.cell_headers,
        vec![
            pair("grid border", "1"),
            pair("grid", "2"),
            pair("grid start", "3"),
            pair("grid", "4"),
            pair("grid label", "5"),
            pair("grid", "6"),
        ]
    );
    assert_eq!(
        context.cell_labels,
        vec![
            (2, "grid border".to_string(), "kick-off".to_string()),
            (2, "grid start".to_string(), "Now".to_string()),
            (2, "grid label".to_string(), "ship".to_string()),
        ]
    );
    assert_eq!(TemplateContext::cell_border_style(&root, 3), "grid start");
}

#[test]
fn web_context_of_a_chart_without_weeks_or_labels() {
    let context = TemplateContext::new(&RootConfigData::new());
    assert!(context.cell_headers.is_empty() && context.cell_labels.is_empty());
    let mut root = RootConfigData::new();
    root.set_weeks(3);
    let context = TemplateContext::new(&root);
    assert_eq!(context.cell_labels, vec![(3, "grid start".to_string(), "Now".to_string())]);
}

#[test]
fn web_rows_alternate() {
    let mut context = TemplateContext::new(&RootConfigData::new());
    for name in ["a", "b", "c"] {
        context.add_row(TemplateRow::new(0, 0, name));
        context.add_resource_row(TemplateRow::new(0, 0, name));
    }
    let even: Vec<bool> = context.rows.iter().map(|r| r.even).collect();
    assert_eq!(even, vec![false, true, false]);
    let even: Vec<bool> = context.resource_rows.iter().map(|r| r.even).collect();
    assert_eq!(even, vec![false, true, false]);
}

#[test]
fn web_chart_has_a_row_for_each_developer_and_task() {
    let tree = scheduled(
        "[global]\n - weeks: 2\n - now: 1/3\n[devs]\n - alice: 1..2\n - bob: 2..2\nproject\n alice\n  - resource: frontload\n  - plan: 2, 1/2:1.5\n  - done: 1/1:1\n  - note: watch this\n idle\n",
    );
    let chart = generate_chart(&tree);
    assert_eq!(chart.resource_rows.len(), 2);
    let alice = &chart.resource_rows[0];
    assert_eq!(alice.what, "&nbsp;alice");
    assert_eq!(
        alice.cells,
        vec![pair("grid start", "3.5&nbsp;"), pair("grid", &format!("5{}", BLANK))]
    );
    assert_eq!(alice.left, "8.5&nbsp;");
    let bob = &chart.resource_rows[1];
    assert_eq!(bob.cells, vec![pair("grid start", ""), pair("grid", &format!("5{}", BLANK))]);
    assert_eq!(bob.left, format!("5{}", BLANK));
    assert!(bob.even && !alice.even);

    assert_eq!(chart.rows.len(), 3);
    let project = &chart.rows[0];
    assert_eq!(project.what, "&nbsp;&nbsp;&nbsp;project");
    assert_eq!((project.who.as_str(), project.plan.as_str(), project.done.as_str()), ("", " ", ""));
    assert_eq!(project.line_num, 7);
    let task = &chart.rows[1];
    assert_eq!(task.what, format!("{}alice", "&nbsp;".repeat(6)));
    assert_eq!(task.who, "alice");
    assert_eq!(task.cells, vec![pair("grid start", "1.5&nbsp;"), pair("grid", "")]);
    assert_eq!(task.done, format!("1{}", BLANK));
    assert_eq!(task.plan, "1.5&nbsp;");
    assert_eq!(task.gain, "0.5&nbsp;");
    assert_eq!(task.left, "0.5&nbsp;");
    assert_eq!(task.notes, vec!["watch this"]);
    assert_eq!(task.notes_html, "Node at line 8<br>watch this");
    assert!(task.even);
    let idle = &chart.rows[2];
    assert_eq!((idle.left.as_str(), idle.gain.as_str(), idle.notes_html.as_str()), (" ", " ", ""));
}

#[test]
fn web_chart_notes_an_overspent_task() {
    let tree = scheduled(
        "[global]\n - weeks: 1\n - now: 1/2\n[devs]\n - alice: 1..1\nT\n - dev: alice\n - resource: frontload\n - plan: 0.5\n - done: 1/1:1\n",
    );
    let chart = generate_chart(&tree);
    let row = &chart.rows[0];
    assert_eq!(row.notes, vec!["Overspent by 0.5"]);
    assert_eq!(row.left, "-0.5&nbsp;");
    assert_eq!(row.gain, "");
    assert_eq!(row.notes_html, "Node at line 6<br>Overspent by 0.5");
}

#[test]
fn web_chart_shows_a_pro_rata_plan_as_it_stands() {
    let tree = scheduled(
        "[global]\n - weeks: 4\n - now: 3\n[devs]\n - alice: 1..4\nT\n - dev: alice\n - resource: smearprorata\n - plan: 5\n - done: 1:1\n",
    );
    let chart = generate_chart(&tree);
    let row = &chart.rows[0];
    // A day was done in the first half, and half of the five days is the
    // share of the second half.
    assert_eq!(row.done, format!("1{}", BLANK));
    assert_eq!(row.plan, "3.5&nbsp;");
    assert_eq!(row.gain, "1.5&nbsp;");
    assert_eq!(row.left, "2.5&nbsp;");
    assert!(row.notes.is_empty());
}

#[test]
fn web_error_page_puts_error_first() {
    assert_eq!(generate_error_page("it broke").error, "Error: it broke");
    assert_eq!(generate_error_html(""), "Error: ");
}

#[test]
fn messages_name_causes() {
    assert_eq!(days_string(0), "0");
    assert_eq!(days_string(9), "2.25");
    assert_eq!(days_string(18446744073709551615), "4611686018427387903.75");
    assert_eq!(
        describe_build(BuildError {
            line_num: 12,
            kind: BuildErrorKind::Config(resource_chart::root::ConfigError::Developer(
                resource_chart::root::DeveloperError::Range(
                    resource_chart::chartrow::RowError::CellOutOfRange { cell: 40, width: 40 }
                )
            ))
        }),
        "Failed to read node containing root config<br>caused by: Error adding developer in [devs] node<br>caused by: Developer time range not valid<br>caused by: Cell 40 is outside the chart, whose width is 40 (node at line 12)"
    );
    assert_eq!(
        describe_attribute(resource_chart::data::AttributeError::Plan(
            resource_chart::data::PlanError::Time(resource_chart::charttime::TimeError::WeekZero)
        )),
        "Failed to set plan<br>caused by: Failed to parse chart time from plan<br>caused by: Week cannot be 0 in a chart time"
    );
    assert_eq!(
        describe_config(resource_chart::root::ConfigError::Weeks),
        "Error parsing \"weeks\" from [global] node"
    );
    assert_eq!(
        describe_schedule(resource_chart::data::ScheduleError::DeveloperUnavailable { quarters: 7 }),
        "Failed to write 1.75 days because the developer is not available"
    );
    assert_eq!(
        describe_phase(
            Phase::TransferPastDone,
            PhaseError::Schedule(resource_chart::data::ScheduleError::RowTooShort)
        ),
        "Error: Failed to transfer done resource<br>caused by: The task's row is shorter than the chart"
    );
    assert_eq!(
        describe_phase(
            Phase::DeriveDev,
            PhaseError::Attribute(resource_chart::data::AttributeError::UnknownDeveloper)
        ),
        "Error: Failed to derive developer<br>caused by: Failed to set dev<br>caused by: Developer not known"
    );
}
