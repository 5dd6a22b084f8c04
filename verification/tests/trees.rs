use resource_chart::data::{AttributeError, DoneError};
use resource_chart::file::ConfigLines;
use resource_chart::nodes::{BuildError, BuildErrorKind, ConfigNode, ConfigTree};
use resource_chart::root::{ConfigError, DeveloperError};
use resource_chart::text::NumberError;

fn build(text: &str) -> Result<ConfigTree, BuildError> {
    let lines: Vec<String> = text.lines().map(|l| l.to_string()).collect();
    let mut config = ConfigLines::from_lines(&lines).unwrap();
    ConfigNode::new_from_config(&mut config)
}

fn shape(tree: &ConfigTree) -> Vec<(String, u32, Option<usize>)> {
    tree.nodes.iter().map(|n| (n.name.clone(), n.level, n.parent)).collect()
}

fn entry(name: &str, level: u32, parent: Option<usize>) -> (String, u32, Option<usize>) {
    (name.to_string(), level, parent)
}

const PLAN: &str = "[global]\n - weeks: 3\n - now: 2\n\n[devs]\n - alice: 1..3\n\nproject\n - note: all of it\n  design\n   - dev: alice\n    sketch\n    inspect\n  build\n      parts\n     glue\nother\n [global]\n  last\n";

#[test]
fn tree_nodes_go_under_the_nearest_node_indented_less() {
    let tree = build(PLAN).unwrap();
    assert_eq!(
        shape(&tree),
        vec![
            entry("project", 1, None),
            entry("design", 2, Some(0)),
            entry("sketch", 3, Some(1)),
            entry("inspect", 3, Some(1)),
            entry("build", 2, Some(0)),
            entry("parts", 3, Some(4)),
            entry("glue", 3, Some(4)),
            entry("other", 1, None),
            entry("[global]", 2, Some(7)),
            entry("last", 3, Some(8)),
        ]
    );
    assert_eq!(tree.nodes[1].line_num, 10);
    assert_eq!(tree.nodes[1].indent, 3);
    assert_eq!(tree.nodes[9].line_num, 19);
}

#[test]
fn tree_sections_fill_the_chart() {
    let tree = build(PLAN).unwrap();
    assert_eq!(tree.root_data.get_weeks(), 3);
    assert_eq!(tree.root_data.get_now(), 20);
    assert_eq!(tree.root_data.developers.len(), 1);
    assert_eq!(tree.root_data.developers[0].data.cells.count(), 60);
}

#[test]
fn tree_attributes_go_to_the_node_before_them() {
    let tree = build(PLAN).unwrap();
    assert_eq!(tree.nodes[0].node_data.notes, vec!["all of it"]);
    assert_eq!(tree.nodes[1].node_data.dev, Some("alice".to_string()));
    assert_eq!(tree.nodes[2].node_data.dev, None);
    assert!(tree.nodes.iter().all(|n| n.node_data.cells.get_num_cells() == 60));
}

#[test]
fn tree_rows_are_as_long_as_the_chart_when_the_node_is_read() {
    let tree = build("early\n[global]\n - weeks: 2\nlate\n").unwrap();
    assert_eq!(tree.nodes[0].node_data.cells.get_num_cells(), 0);
    assert_eq!(tree.nodes[1].node_data.cells.get_num_cells(), 40);
}

#[test]
fn tree_of_nothing_is_empty() {
    let tree = build("").unwrap();
    assert!(tree.nodes.is_empty());
    assert_eq!(tree.root_data.get_weeks(), 0);
    let tree = build("# only a comment\n").unwrap();
    assert!(tree.nodes.is_empty());
}

#[test]
fn tree_walks() {
    let tree = build(PLAN).unwrap();
    assert_eq!(tree.parent(0), None);
    assert_eq!(tree.parent(3), Some(1));
    assert_eq!(tree.ancestors(3), vec![3, 1, 0]);
    assert_eq!(tree.ancestors(0), vec![0]);
    assert_eq!(tree.ancestors(9), vec![9, 8, 7]);
    assert_eq!(tree.children(None), vec![0, 7]);
    assert_eq!(tree.children(Some(0)), vec![1, 4]);
    assert_eq!(tree.children(Some(4)), vec![5, 6]);
    assert_eq!(tree.children(Some(2)), Vec::<usize>::new());
    assert_eq!(tree.descendants(0), vec![0, 1, 2, 3, 4, 5, 6]);
    assert_eq!(tree.descendants(1), vec![1, 2, 3]);
    assert_eq!(tree.descendants(6), vec![6]);
    assert_eq!(tree.descendants(7), vec![7, 8, 9]);
    assert_eq!(tree.attach(1), None);
    assert_eq!(tree.attach(2), Some(7));
    assert_eq!(tree.attach(3), Some(8));
    assert_eq!(tree.attach(9), Some(9));
}

#[test]
fn tree_finds_what_nodes_inherit() {
    let tree = build(
        "[global]\n - weeks: 2\n[devs]\n - alice: 1..2\n - bob: 1..2\ntop\n - resource: backload\n - default-plan: 3, 2:4\n alice\n  - default-plan: 2:1\n  task\n   deep\n    - plan: 2:0.5\n    - resource: smearremaining\n  bob\n loose\n",
    )
    .unwrap();
    let names: Vec<&str> = tree.nodes.iter().map(|n| n.name.as_str()).collect();
    assert_eq!(names, vec!["top", "alice", "task", "deep", "bob", "loose"]);
    assert_eq!(tree.find_dev(0), None);
    assert_eq!(tree.find_dev(1), Some("alice".to_string()));
    assert_eq!(tree.find_dev(3), Some("alice".to_string()));
    assert_eq!(tree.find_dev(4), Some("bob".to_string()));
    assert_eq!(tree.find_dev(5), None);
    assert_eq!(tree.find_resourcing(5), Some(resource_chart::data::ResourcingStrategy::BackLoad));
    assert_eq!(
        tree.find_resourcing(3),
        Some(resource_chart::data::ResourcingStrategy::SmearRemaining)
    );
    assert_eq!(tree.find_plan_at_time(0, 0), None);
    assert_eq!(tree.find_plan_at_time(1, 0), Some(12));
    // Before the developers are handed down, a task without one finds no
    // default plan.
    assert_eq!(tree.find_plan_at_time(2, 0), None);
    assert_eq!(tree.find_plan_at_time(3, 0), None);
    assert_eq!(tree.find_plan_at_time(3, 20), Some(2));
    let mut tree = tree;
    resource_chart::scheduler::call_on_children(resource_chart::scheduler::Phase::DeriveDev, &mut tree);
    assert_eq!(tree.find_plan_at_time(2, 0), Some(12));
    assert_eq!(tree.find_plan_at_time(2, 20), Some(4));
    assert_eq!(tree.find_plan_at_time(3, 0), Some(12));
    assert_eq!(tree.find_plan_at_time(3, 20), Some(2));
    assert_eq!(tree.find_plan_at_time(4, 39), Some(4));
    assert_eq!(tree.find_plan_at_time(5, 39), None);
}

#[test]
fn tree_says_what_is_wrong_and_where() {
    assert_eq!(
        build(" - dev: alice\n").unwrap_err(),
        BuildError { line_num: 0, kind: BuildErrorKind::AttributeOnRoot }
    );
    assert_eq!(
        build("[global]\n - weeks: 2\na\n\n b\n  - done: 1:x\n").unwrap_err(),
        BuildError {
            line_num: 5,
            kind: BuildErrorKind::Attribute(AttributeError::Done(DoneError::Number(
                NumberError::Syntax
            )))
        }
    );
    assert_eq!(
        build("a\n - colour: red\n").unwrap_err(),
        BuildError { line_num: 1, kind: BuildErrorKind::Attribute(AttributeError::Unknown) }
    );
    assert_eq!(
        build("a\n[devs]\n - alice: 1..2\n - alice: 1..2\n").unwrap_err(),
        BuildError {
            line_num: 2,
            kind: BuildErrorKind::Config(ConfigError::Developer(DeveloperError::Range(
                resource_chart::chartrow::RowError::CellOutOfRange { cell: 0, width: 0 }
            )))
        }
    );
    assert_eq!(
        build("[global]\n - weeks: 214748365\na\n").unwrap_err(),
        BuildError { line_num: 3, kind: BuildErrorKind::ChartTooLong }
    );
    assert_eq!(
        build("[global]\n - weeks: 1\n - manager: m\n[devs]\n").unwrap_err(),
        BuildError { line_num: 4, kind: BuildErrorKind::Config(ConfigError::ManagerUnknown) }
    );
}

#[test]
fn tree_read_line_goes_line_by_line() {
    let lines: Vec<String> = "a\n - note: x\n".lines().map(|l| l.to_string()).collect();
    let mut config = ConfigLines::from_lines(&lines).unwrap();
    let mut tree = build("").unwrap();
    assert_eq!(tree.read_line(&mut config), Ok(true));
    assert_eq!(tree.nodes.len(), 1);
    assert!(tree.nodes[0].node_data.notes.is_empty());
    assert_eq!(tree.read_line(&mut config), Ok(true));
    assert_eq!(tree.nodes[0].node_data.notes, vec!["x"]);
    assert_eq!(tree.read_line(&mut config), Ok(false));
}

#[test]
fn tree_node_new_and_add_attribute() {
    let tree = build("[global]\n - weeks: 1\n").unwrap();
    let mut node = ConfigNode::new("n", 2, 5, 9, Some(3), 20);
    assert_eq!((node.name.as_str(), node.level, node.indent, node.line_num, node.parent), ("n", 2, 5, 9, Some(3)));
    assert_eq!(node.node_data.cells.get_num_cells(), 20);
    assert_eq!(node.add_attribute(&tree.root_data, &"budget".to_string(), &"1".to_string()), Ok(()));
    assert_eq!(node.node_data.budget, Some(4));
}

#[test]
fn tree_reading_leaves_the_reader_where_it_ended() {
    let read = |text: &str| {
        let lines: Vec<String> = text.lines().map(|l| l.to_string()).collect();
        let mut config = ConfigLines::from_lines(&lines).unwrap();
        let result = ConfigNode::new_from_config(&mut config).map(|t| t.nodes.len());
        let mut left = 0;
        while config.get_line().is_some() {
            left += 1;
        }
        (result.is_ok(), left)
    };
    assert_eq!(read("a\n - note: x\nb\n"), (true, 0));
    assert_eq!(read(""), (true, 0));
    // Stopped by the second of four lines.
    assert_eq!(read("a\n - colour: red\n - note: x\nb\n"), (false, 2));
    // Stopped by the second attribute of the section.
    assert_eq!(read("[global]\n - weeks: 2\n - now: 0\n - weeks: 3\na\n"), (false, 2));
    // Stopped after the whole section, whose manager is not known.
    assert_eq!(
        read("[global]\n - weeks: 1\n - manager: m\n[devs]\n - a: 1..1\n - c: 1..1\nb\n d\n"),
        (false, 2)
    );
}
