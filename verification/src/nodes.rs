//! The tree of tasks, and how it is read from the lines of a plan file.
//!
//! The root of the tree is the chart itself. The tasks stand in the order of
//! their lines, which is the order in which a walk of the tree that goes
//! down before it goes on meets them; each knows the task above it.

use vstd::prelude::*;
use vstd::string::*;
use crate::data::{
    new_node, with_named_attribute, AttributeError, NodeConfigData, NodeView,
};
use crate::file::{ConfigLines, Line, LineView};
use crate::root::{new_root, read_section, ConfigError, RootConfigData, RootView};
use crate::text::same_text;

verus! {

/// A task in the tree: its name, the line that named it, one more than the
/// bytes of white space before the name, how deep it lies (1 for a task
/// right under the root), the task above it (`None` for the root), and what
/// it holds.
#[derive(Debug)]
pub struct ConfigNode {
    pub name: String,
    pub line_num: u32,
    pub indent: u32,
    pub level: u32,
    pub parent: Option<usize>,
    pub node_data: NodeConfigData,
}

/// The chart and its tasks.
#[derive(Debug)]
pub struct ConfigTree {
    pub root_data: RootConfigData,
    pub nodes: Vec<ConfigNode>,
}

/// A task in the tree as plain values.
#[verifier::ext_equal]
pub struct ConfigNodeView {
    pub name: Seq<char>,
    pub line_num: u32,
    pub indent: u32,
    pub level: u32,
    pub parent: Option<int>,
    pub data: NodeView,
}

/// The chart and its tasks as plain values.
#[verifier::ext_equal]
pub struct TreeView {
    pub root: RootView,
    pub nodes: Seq<ConfigNodeView>,
}

impl View for ConfigNode {
    type V = ConfigNodeView;

    open spec fn view(&self) -> ConfigNodeView {
        ConfigNodeView {
            name: self.name@,
            line_num: self.line_num,
            indent: self.indent,
            level: self.level,
            parent: match self.parent {
                Some(p) => Some(p as int),
                None => None,
            },
            data: self.node_data@,
        }
    }
}

impl View for ConfigTree {
    type V = TreeView;

    open spec fn view(&self) -> TreeView {
        TreeView {
            root: self.root_data@,
            nodes: Seq::new(self.nodes@.len(), |i: int| self.nodes@[i]@),
        }
    }
}

/// Why a plan file does not make a tree.
#[derive(Debug, Clone, Copy, PartialEq, Eq, Structural)]
pub enum BuildErrorKind {
    /// An attribute stands before the first task.
    AttributeOnRoot,
    /// A task cannot take an attribute.
    Attribute(AttributeError),
    /// The chart-wide settings cannot be read.
    Config(ConfigError),
    /// The chart has more weeks than a `u32` can count quarters for.
    ChartTooLong,
    /// The tasks are nested deeper than a `u32` can count.
    TooDeep,
}

/// What is wrong with a plan file, and the line of the node at which it shows.
#[derive(Debug, Clone, Copy, PartialEq, Eq, Structural)]
pub struct BuildError {
    pub line_num: u32,
    pub kind: BuildErrorKind,
}

/// Whether task `a` is task `of`, or lies above it.
pub open spec fn above_or_self(nodes: Seq<ConfigNodeView>, a: int, of: int) -> bool
    decreases of,
{
    a == of || (0 <= of < nodes.len() && match nodes[of].parent {
        Some(p) => 0 <= p < of && above_or_self(nodes, a, p),
        None => false,
    })
}

/// The tasks from `i` up to the root, `i` first.
pub open spec fn ancestry(nodes: Seq<ConfigNodeView>, i: int) -> Seq<int>
    decreases i,
{
    if 0 <= i < nodes.len() {
        match nodes[i].parent {
            Some(p) => if 0 <= p < i {
                seq![i] + ancestry(nodes, p)
            } else {
                seq![i]
            },
            None => seq![i],
        }
    } else {
        Seq::empty()
    }
}

/// Among the first `upto` tasks, those right under `parent`, in order.
pub open spec fn children_of(nodes: Seq<ConfigNodeView>, parent: Option<int>, upto: int) -> Seq<int>
    decreases upto,
{
    if upto <= 0 {
        Seq::empty()
    } else if nodes[upto - 1].parent == parent {
        children_of(nodes, parent, upto - 1).push(upto - 1)
    } else {
        children_of(nodes, parent, upto - 1)
    }
}

/// The first task after `i`, at or after `j`, that does not lie deeper than
/// `i`: where the tasks below `i` end.
pub open spec fn subtree_end(nodes: Seq<ConfigNodeView>, i: int, j: int) -> int
    decreases nodes.len() - j,
{
    if j < 0 || j >= nodes.len() {
        nodes.len() as int
    } else if nodes[j].level <= nodes[i].level {
        j
    } else {
        subtree_end(nodes, i, j + 1)
    }
}

/// The task under which a line with the given indent goes: the first of
/// `from` and the tasks above it that is indented less. `None` is the root.
pub open spec fn attach_point(nodes: Seq<ConfigNodeView>, from: Option<int>, indent: u32) -> Option<
    int,
>
    decreases
            (match from {
                Some(j) => j + 1,
                None => 0,
            }),
{
    match from {
        None => None,
        Some(j) => if j < 0 || j >= nodes.len() {
            None
        } else if nodes[j].indent < indent {
            Some(j)
        } else {
            match nodes[j].parent {
                Some(p) => if 0 <= p < j {
                    attach_point(nodes, Some(p), indent)
                } else {
                    None
                },
                None => None,
            }
        },
    }
}

/// The last task, if there is one.
pub open spec fn last_node(nodes: Seq<ConfigNodeView>) -> Option<int> {
    if nodes.len() == 0 {
        None
    } else {
        Some(nodes.len() - 1)
    }
}

/// How deep a task under `parent` lies.
pub open spec fn level_under(nodes: Seq<ConfigNodeView>, parent: Option<int>) -> int {
    match parent {
        Some(p) => nodes[p].level + 1,
        None => 1,
    }
}

/// The tree after the line `at` has been read into it, the line to read
/// next, and what is wrong, if anything is.
///
/// An attribute goes to the last task. A node goes under the nearest task
/// before it that is indented less, and up the tree from there; `[global]`
/// and `[devs]` right under the root are no tasks, but sections of
/// chart-wide settings, which are read with the attributes below them. A
/// task's row is as long as the chart is when its line is read.
pub open spec fn line_read(state: TreeView, lines: Seq<LineView>, at: int) -> (
    TreeView,
    int,
    Option<BuildError>,
) {
    match lines[at] {
        LineView::Attribute { key, value } => if state.nodes.len() == 0 {
            (
                state,
                at + 1,
                Some(BuildError { line_num: 0, kind: BuildErrorKind::AttributeOnRoot }),
            )
        } else {
            let last = state.nodes.last();
            match with_named_attribute(
                last.data,
                state.root.developers,
                20 * state.root.weeks,
                key,
                value,
            ) {
                Ok(v) => (
                    TreeView {
                        nodes: state.nodes.update(
                            state.nodes.len() - 1,
                            ConfigNodeView { data: v, ..last },
                        ),
                        ..state
                    },
                    at + 1,
                    None,
                ),
                Err(e) => (
                    state,
                    at + 1,
                    Some(BuildError { line_num: last.line_num, kind: BuildErrorKind::Attribute(e) }),
                ),
            }
        },
        LineView::Node { line_num, indent, name } => {
            let parent = attach_point(state.nodes, last_node(state.nodes), indent);
            if parent is None && (name == "[global]"@ || name == "[devs]"@) {
                let section = read_section(state.root, lines, at);
                (
                    TreeView { root: section.0, ..state },
                    section.1,
                    match section.2 {
                        Some(e) => Some(BuildError { line_num, kind: BuildErrorKind::Config(e) }),
                        None => None,
                    },
                )
            } else if 20 * state.root.weeks > u32::MAX {
                (
                    state,
                    at + 1,
                    Some(BuildError { line_num, kind: BuildErrorKind::ChartTooLong }),
                )
            } else if level_under(state.nodes, parent) > u32::MAX {
                (state, at + 1, Some(BuildError { line_num, kind: BuildErrorKind::TooDeep }))
            } else {
                (
                    TreeView {
                        nodes: state.nodes.push(
                            ConfigNodeView {
                                name,
                                line_num,
                                indent,
                                level: level_under(state.nodes, parent) as u32,
                                parent,
                                data: new_node((20 * state.root.weeks) as u32),
                            },
                        ),
                        ..state
                    },
                    at + 1,
                    None,
                )
            }
        },
    }
}

/// The tree after the lines from `at` on have been read into it, one after
/// the other; the line before which the reading ended; and what stopped the
/// reading, if anything did. Reading that is stopped ends after the line or
/// section that stopped it.
pub open spec fn built(state: TreeView, lines: Seq<LineView>, at: int) -> (
    TreeView,
    int,
    Option<BuildError>,
)
    decreases lines.len() - at,
{
    if at < 0 || at >= lines.len() {
        (state, at, None)
    } else {
        let step = line_read(state, lines, at);
        if step.2 is Some || step.1 <= at || step.1 > lines.len() {
            step
        } else {
            built(step.0, lines, step.1)
        }
    }
}

/// Each task lies under an earlier one that is indented less, one level
/// deeper than it, or right under the root at level 1; and that task is the
/// one before it or lies above the one before it, so that the order of the
/// tasks is that of a walk which goes down before it goes on.
pub open spec fn tree_shaped(nodes: Seq<ConfigNodeView>) -> bool {
    forall|i: int| 0 <= i < nodes.len() ==> #[trigger] shaped_at(nodes, i)
}

/// What `tree_shaped` asks of task `i`.
pub open spec fn shaped_at(nodes: Seq<ConfigNodeView>, i: int) -> bool {
    match nodes[i].parent {
        Some(p) => 0 <= p < i && nodes[i].level == nodes[p].level + 1 && nodes[p].indent
            < nodes[i].indent && above_or_self(nodes, p, i - 1),
        None => nodes[i].level == 1,
    }
}

impl ConfigNode {
    /// A task without attributes.
    pub fn new(
        name: &str,
        level: u32,
        indent: u32,
        line_num: u32,
        parent: Option<usize>,
        num_cells: u32,
    ) -> (r: ConfigNode)
        ensures
            r@ == (ConfigNodeView {
                name: name@,
                line_num,
                indent,
                level,
                parent: match parent {
                    Some(p) => Some(p as int),
                    None => None,
                },
                data: new_node(num_cells),
            }),
            r.node_data.wf(),
    {
        ConfigNode {
            name: String::from_str(name),
            line_num,
            indent,
            level,
            parent,
            node_data: NodeConfigData::new(num_cells),
        }
    }

    /// Gives the task an attribute.
    pub fn add_attribute(
        &mut self,
        root: &RootConfigData,
        key: &String,
        value: &String,
    ) -> (r: Result<(), AttributeError>)
        requires
            old(self).node_data.wf(),
        ensures
            final(self).node_data.wf(),
            match with_named_attribute(
                old(self)@.data,
                root@.developers,
                root.quarters(),
                key@,
                value@,
            ) {
                Ok(v) => r is Ok && final(self)@ == (ConfigNodeView { data: v, ..old(self)@ }),
                Err(e) => r == Err::<(), AttributeError>(e) && final(self)@ == old(self)@,
            },
    {
        self.node_data.add_attribute(root, key, value)
    }

    /// Reads the lines of a plan file into a tree, from where the reader
    /// stands on. Afterwards the reader stands at the end of the lines, or
    /// after the line or section that stopped the reading.
    pub fn new_from_config(config: &mut ConfigLines) -> (r: Result<ConfigTree, BuildError>)
        ensures
            final(config).lines() == old(config).lines(),
            final(config).position() == built(
                TreeView { root: new_root(), nodes: Seq::empty() },
                old(config).lines(),
                old(config).position() as int,
            ).1,
            match built(
                TreeView { root: new_root(), nodes: Seq::empty() },
                old(config).lines(),
                old(config).position() as int,
            ).2 {
                None => r matches Ok(tree) && tree@ == built(
                    TreeView { root: new_root(), nodes: Seq::empty() },
                    old(config).lines(),
                    old(config).position() as int,
                ).0 && tree.wf(),
                Some(e) => r == Err::<ConfigTree, BuildError>(e),
            },
    {
        let mut tree = ConfigTree { root_data: RootConfigData::new(), nodes: Vec::new() };
        let ghost start = TreeView { root: new_root(), nodes: Seq::empty() };
        assert(tree@ =~= start);
        loop
            invariant
                start == (TreeView { root: new_root(), nodes: Seq::empty() }),
                config.lines() == old(config).lines(),
                tree.wf(),
                built(start, old(config).lines(), old(config).position() as int) == built(
                    tree@,
                    config.lines(),
                    config.position() as int,
                ),
            decreases config.remaining().len(),
        {
            match tree.read_line(config) {
                Ok(true) => {},
                Ok(false) => {
                    return Ok(tree);
                },
                Err(e) => {
                    return Err(e);
                },
            }
        }
    }
}

impl ConfigTree {
    /// The tree has the shape of `tree_shaped`, and each task is well-formed.
    pub open spec fn wf(&self) -> bool {
        &&& tree_shaped(self@.nodes)
        &&& forall|i: int| 0 <= i < self.nodes@.len() ==> (#[trigger] self.nodes@[i]).node_data.wf()
    }

    /// Reads the next line into the tree. Tells whether there was one.
    pub fn read_line(&mut self, config: &mut ConfigLines) -> (r: Result<bool, BuildError>)
        requires
            old(self).wf(),
        ensures
            final(config).lines() == old(config).lines(),
            final(self).wf(),
            old(config).remaining().len() == 0 ==> r == Ok::<bool, BuildError>(false)
                && final(self)@ == old(self)@
                && final(config).position() == old(config).position(),
            old(config).remaining().len() > 0 ==> {
                let step = line_read(
                    old(self)@,
                    old(config).lines(),
                    old(config).position() as int,
                );
                &&& final(self)@ == step.0
                &&& final(config).position() == step.1
                &&& old(config).position() < step.1 <= old(config).lines().len()
                &&& match step.2 {
                    None => r == Ok::<bool, BuildError>(true),
                    Some(e) => r == Err::<bool, BuildError>(e),
                }
            },
    {
        let ghost at = config.position() as int;
        match config.peek_line() {
            None => Ok(false),
            Some(Line::Attribute(a)) => {
                let _ = config.get_line();
                match self.take_attribute(&a.key, &a.value) {
                    Ok(()) => Ok(true),
                    Err(e) => Err(e),
                }
            },
            Some(Line::Node(node)) => {
                let parent = self.attach(node.indent);
                if parent.is_none() && (same_text(node.name.as_str(), "[global]") || same_text(
                    node.name.as_str(),
                    "[devs]",
                )) {
                    let ghost before = self@;
                    proof {
                        crate::root::lemma_read_section_advances(before.root, config.lines(), at);
                        crate::root::lemma_read_section_stops(before.root, config.lines(), at);
                    }
                    let r = self.root_data.read_config(config);
                    assert(self@.nodes =~= before.nodes);
                    assert(self@ =~= (TreeView { root: self.root_data@, ..before }));
                    match r {
                        Ok(()) => Ok(true),
                        Err(e) => Err(
                            BuildError { line_num: node.line_num, kind: BuildErrorKind::Config(e) },
                        ),
                    }
                } else {
                    let _ = config.get_line();
                    match self.take_node(&node.name, node.line_num, node.indent, parent) {
                        Ok(()) => Ok(true),
                        Err(e) => Err(e),
                    }
                }
            },
        }
    }

    /// Gives the last task an attribute.
    fn take_attribute(&mut self, key: &String, value: &String) -> (r: Result<(), BuildError>)
        requires
            old(self).wf(),
        ensures
            final(self).wf(),
            if old(self)@.nodes.len() == 0 {
                r == Err::<(), BuildError>(
                    BuildError { line_num: 0, kind: BuildErrorKind::AttributeOnRoot },
                ) && final(self)@ == old(self)@
            } else {
                let last = old(self)@.nodes.last();
                match with_named_attribute(
                    last.data,
                    old(self)@.root.developers,
                    20 * old(self)@.root.weeks,
                    key@,
                    value@,
                ) {
                    Ok(v) => r is Ok && final(self)@ == (TreeView {
                        nodes: old(self)@.nodes.update(
                            old(self)@.nodes.len() - 1,
                            ConfigNodeView { data: v, ..last },
                        ),
                        ..old(self)@
                    }),
                    Err(e) => r == Err::<(), BuildError>(
                        BuildError { line_num: last.line_num, kind: BuildErrorKind::Attribute(e) },
                    ) && final(self)@ == old(self)@,
                }
            },
    {
        let n = self.nodes.len();
        if n == 0 {
            return Err(BuildError { line_num: 0, kind: BuildErrorKind::AttributeOnRoot });
        }
        let ghost before = self@;
        let line_num = self.nodes[n - 1].line_num;
        let r = self.nodes[n - 1].add_attribute(&self.root_data, key, value);
        proof {
            assert(self@.nodes =~= before.nodes.update(n - 1, self.nodes@[n - 1]@));
            lemma_shape_ignores_data(before.nodes, self@.nodes);
        }
        match r {
            Ok(()) => Ok(()),
            Err(e) => {
                assert(self@ =~= before);
                Err(BuildError { line_num, kind: BuildErrorKind::Attribute(e) })
            },
        }
    }

    /// Adds a task under `parent`.
    fn take_node(
        &mut self,
        name: &String,
        line_num: u32,
        indent: u32,
        parent: Option<usize>,
    ) -> (r: Result<(), BuildError>)
        requires
            old(self).wf(),
            match parent {
                Some(p) => p < old(self).nodes@.len() && old(self).nodes@[p as int].indent < indent
                    && above_or_self(old(self)@.nodes, p as int, old(self).nodes@.len() - 1),
                None => true,
            },
        ensures
            final(self).wf(),
            ({
                let state = old(self)@;
                let above = match parent {
                    Some(p) => Some(p as int),
                    None => None,
                };
                if 20 * state.root.weeks > u32::MAX {
                    r == Err::<(), BuildError>(
                        BuildError { line_num, kind: BuildErrorKind::ChartTooLong },
                    ) && final(self)@ == state
                } else if level_under(state.nodes, above) > u32::MAX {
                    r == Err::<(), BuildError>(
                        BuildError { line_num, kind: BuildErrorKind::TooDeep },
                    ) && final(self)@ == state
                } else {
                    r is Ok && final(self)@ == (TreeView {
                        nodes: state.nodes.push(
                            ConfigNodeView {
                                name: name@,
                                line_num,
                                indent,
                                level: level_under(state.nodes, above) as u32,
                                parent: above,
                                data: new_node((20 * state.root.weeks) as u32),
                            },
                        ),
                        ..state
                    })
                }
            }),
    {
        let ghost before = self@;
        if self.root_data.get_weeks() > u32::MAX / 20 {
            return Err(BuildError { line_num, kind: BuildErrorKind::ChartTooLong });
        }
        let level: u32 = match parent {
            Some(p) => {
                if self.nodes[p].level == u32::MAX {
                    return Err(BuildError { line_num, kind: BuildErrorKind::TooDeep });
                }
                self.nodes[p].level + 1
            },
            None => 1,
        };
        let added = ConfigNode::new(
            name.as_str(),
            level,
            indent,
            line_num,
            parent,
            20 * self.root_data.get_weeks(),
        );
        self.nodes.push(added);
        proof {
            assert(self@.nodes =~= before.nodes.push(added@));
            lemma_shape_grows(before.nodes, added@);
        }
        Ok(())
    }

    /// Whether task `above` is task `of` or lies above it, in a tree whose
    /// tasks up to `of` have the shape of a tree.
    fn is_above_or_self(&self, above: usize, of: usize) -> (r: bool)
        requires
            of < self.nodes@.len(),
            forall|k: int| 0 <= k <= of ==> #[trigger] shaped_at(self@.nodes, k),
        ensures
            r == above_or_self(self@.nodes, above as int, of as int),
    {
        let mut j: usize = of;
        loop
            invariant
                j <= of,
                of < self.nodes@.len(),
                forall|k: int| 0 <= k <= of ==> #[trigger] shaped_at(self@.nodes, k),
                above_or_self(self@.nodes, above as int, of as int) == above_or_self(
                    self@.nodes,
                    above as int,
                    j as int,
                ),
            decreases j,
        {
            if j == above {
                return true;
            }
            assert(shaped_at(self@.nodes, j as int));
            assert(self@.nodes[j as int] == self.nodes@[j as int]@);
            match self.nodes[j].parent {
                Some(p) => {
                    j = p;
                },
                None => {
                    return false;
                },
            }
        }
    }

    /// Whether the tree is well-formed: see `wf`.
    pub fn is_well_formed(&self) -> (r: bool)
        ensures
            r == self.wf(),
    {
        let n = self.nodes.len();
        let mut i: usize = 0;
        while i < n
            invariant
                i <= n,
                n == self.nodes@.len(),
                forall|k: int| 0 <= k < i ==> #[trigger] shaped_at(self@.nodes, k),
                forall|k: int| 0 <= k < i ==> (#[trigger] self.nodes@[k]).node_data.wf(),
            decreases n - i,
        {
            let node = &self.nodes[i];
            assert(self@.nodes[i as int] == self.nodes@[i as int]@);
            let shaped = match node.parent {
                Some(p) => {
                    if p < i {
                        assert(self@.nodes[p as int] == self.nodes@[p as int]@);
                        self.nodes[p].level < u32::MAX && node.level == self.nodes[p].level + 1
                            && self.nodes[p].indent < node.indent && self.is_above_or_self(
                            p,
                            i - 1,
                        )
                    } else {
                        false
                    }
                },
                None => node.level == 1,
            };
            if !shaped || !node.node_data.is_well_formed() {
                assert(!shaped_at(self@.nodes, i as int) || !self.nodes@[i as int].node_data.wf());
                return false;
            }
            i = i + 1;
        }
        true
    }

    /// The task above task `i`; `None` for a task right under the root.
    pub fn parent(&self, i: usize) -> (r: Option<usize>)
        requires
            self.wf(),
            i < self.nodes@.len(),
        ensures
            r == self.nodes@[i as int].parent,
            r matches Some(p) ==> p < i,
    {
        assert(shaped_at(self@.nodes, i as int));
        self.nodes[i].parent
    }

    /// Task `i` and the tasks above it, up to the one right under the root.
    pub fn ancestors(&self, i: usize) -> (r: Vec<usize>)
        requires
            self.wf(),
            i < self.nodes@.len(),
        ensures
            r@.len() == ancestry(self@.nodes, i as int).len(),
            forall|k: int| 0 <= k < r@.len() ==> r@[k] == ancestry(self@.nodes, i as int)[k],
    {
        let mut out: Vec<usize> = Vec::new();
        let mut j: usize = i;
        let ghost whole = ancestry(self@.nodes, i as int);
        loop
            invariant
                self.wf(),
                j < self.nodes@.len(),
                whole == ancestry(self@.nodes, i as int),
                whole == Seq::new(out@.len(), |k: int| out@[k] as int) + ancestry(
                    self@.nodes,
                    j as int,
                ),
            decreases j,
        {
            assert(shaped_at(self@.nodes, j as int));
            let ghost so_far = Seq::new(out@.len(), |k: int| out@[k] as int);
            out.push(j);
            assert(Seq::new(out@.len(), |k: int| out@[k] as int) =~= so_far.push(j as int));
            match self.nodes[j].parent {
                Some(p) => {
                    assert(so_far + (seq![j as int] + ancestry(self@.nodes, p as int))
                        =~= so_far.push(j as int) + ancestry(self@.nodes, p as int));
                    j = p;
                },
                None => {
                    assert(so_far + seq![j as int] =~= so_far.push(j as int));
                    return out;
                },
            }
        }
    }

    /// The tasks right under `parent`, in order; those right under the
    /// root for `None`.
    pub fn children(&self, parent: Option<usize>) -> (r: Vec<usize>)
        ensures
            r@.len() == children_of(
                self@.nodes,
                match parent {
                    Some(p) => Some(p as int),
                    None => None,
                },
                self.nodes@.len() as int,
            ).len(),
            forall|k: int|
                0 <= k < r@.len() ==> r@[k] == children_of(
                    self@.nodes,
                    match parent {
                        Some(p) => Some(p as int),
                        None => None,
                    },
                    self.nodes@.len() as int,
                )[k],
    {
        let ghost above = match parent {
            Some(p) => Some(p as int),
            None => None,
        };
        let mut out: Vec<usize> = Vec::new();
        let mut j: usize = 0;
        while j < self.nodes.len()
            invariant
                j <= self.nodes@.len(),
                above == match parent {
                    Some(p) => Some(p as int),
                    None => None,
                },
                children_of(self@.nodes, above, j as int) == Seq::new(
                    out@.len(),
                    |k: int| out@[k] as int,
                ),
            decreases self.nodes@.len() - j,
        {
            let ghost so_far = Seq::new(out@.len(), |k: int| out@[k] as int);
            let same = match (self.nodes[j].parent, parent) {
                (Some(a), Some(b)) => a == b,
                (None, None) => true,
                _ => false,
            };
            if same {
                out.push(j);
                assert(Seq::new(out@.len(), |k: int| out@[k] as int) =~= so_far.push(j as int));
            }
            j = j + 1;
        }
        out
    }

    /// Task `i` and the tasks after it that lie deeper than it, up to the
    /// first that does not: the tasks below `i`, in the order of a walk.
    pub fn descendants(&self, i: usize) -> (r: Vec<usize>)
        requires
            i < self.nodes@.len(),
        ensures
            r@.len() == subtree_end(self@.nodes, i as int, i + 1) - i,
            forall|k: int| 0 <= k < r@.len() ==> r@[k] == i + k,
            self.wf() ==> forall|j: int|
                0 <= j < self.nodes@.len() ==> (#[trigger] above_or_self(
                    self@.nodes,
                    i as int,
                    j,
                ) <==> i <= j < i + r@.len()),
    {
        proof {
            if self.wf() {
                assert forall|j: int| 0 <= j < self.nodes@.len() implies (#[trigger] above_or_self(
                    self@.nodes,
                    i as int,
                    j,
                ) <==> i <= j < subtree_end(self@.nodes, i as int, i + 1)) by {
                    if j >= i {
                        lemma_descendants_follow(self@.nodes, i as int, j);
                    } else if above_or_self(self@.nodes, i as int, j) {
                        lemma_above_before(self@.nodes, i as int, j);
                    }
                }
            }
        }
        let n = self.nodes.len();
        let mut out: Vec<usize> = Vec::new();
        out.push(i);
        let mut j: usize = i + 1;
        while j < self.nodes.len() && self.nodes[j].level > self.nodes[i].level
            invariant
                i < j <= self.nodes@.len(),
                out@.len() == j - i,
                forall|k: int| 0 <= k < out@.len() ==> out@[k] == i + k,
                subtree_end(self@.nodes, i as int, i + 1) == subtree_end(
                    self@.nodes,
                    i as int,
                    j as int,
                ),
            decreases self.nodes@.len() - j,
        {
            out.push(j);
            j = j + 1;
        }
        out
    }

    /// The task under which a line with the given indent goes: see `attach_point`.
    pub fn attach(&self, indent: u32) -> (r: Option<usize>)
        requires
            self.wf(),
        ensures
            match r {
                Some(p) => attach_point(self@.nodes, last_node(self@.nodes), indent) == Some(
                    p as int,
                ) && p < self.nodes@.len() && self.nodes@[p as int].indent < indent
                    && above_or_self(self@.nodes, p as int, self.nodes@.len() - 1),
                None => attach_point(self@.nodes, last_node(self@.nodes), indent) is None,
            },
    {
        let n = self.nodes.len();
        if n == 0 {
            return None;
        }
        let mut j: usize = n - 1;
        loop
            invariant
                self.wf(),
                n == self.nodes@.len(),
                j < n,
                attach_point(self@.nodes, last_node(self@.nodes), indent) == attach_point(
                    self@.nodes,
                    Some(j as int),
                    indent,
                ),
                above_or_self(self@.nodes, j as int, n - 1),
            decreases j,
        {
            if self.nodes[j].indent < indent {
                return Some(j);
            }
            assert(self@.nodes[j as int] == self.nodes@[j as int]@);
            assert(shaped_at(self@.nodes, j as int));
            match self.nodes[j].parent {
                Some(p) => {
                    proof {
                        lemma_above_step(self@.nodes, p as int, j as int, n - 1);
                    }
                    j = p;
                },
                None => {
                    return None;
                },
            }
        }
    }
}

/// A task that lies above a task above another lies above that one too.
pub proof fn lemma_above_step(nodes: Seq<ConfigNodeView>, p: int, j: int, of: int)
    requires
        0 <= j <= of < nodes.len(),
        nodes[j].parent == Some(p),
        0 <= p < j,
        above_or_self(nodes, j, of),
    ensures
        above_or_self(nodes, p, of),
    decreases of,
{
    if j == of {
        assert(above_or_self(nodes, p, p));
    } else {
        let q = nodes[of].parent->0;
        lemma_above_before(nodes, j, q);
        lemma_above_step(nodes, p, j, q);
    }
}

/// A task that lies above another comes before it.
pub proof fn lemma_above_before(nodes: Seq<ConfigNodeView>, a: int, of: int)
    requires
        above_or_self(nodes, a, of),
    ensures
        a <= of,
    decreases of,
{
    if a != of {
        lemma_above_before(nodes, a, nodes[of].parent->0);
    }
}

/// A task that lies above another lies less deep than it.
pub proof fn lemma_above_is_higher(nodes: Seq<ConfigNodeView>, a: int, b: int)
    requires
        tree_shaped(nodes),
        0 <= b < nodes.len(),
        above_or_self(nodes, a, b),
        a != b,
    ensures
        0 <= a < b,
        nodes[a].level < nodes[b].level,
    decreases b,
{
    assert(shaped_at(nodes, b));
    let p = nodes[b].parent->0;
    if a != p {
        lemma_above_is_higher(nodes, a, p);
    }
}

/// What lies above a task that lies above another lies above that one too.
pub proof fn lemma_above_transitive(nodes: Seq<ConfigNodeView>, a: int, b: int, c: int)
    requires
        above_or_self(nodes, a, b),
        above_or_self(nodes, b, c),
    ensures
        above_or_self(nodes, a, c),
    decreases c,
{
    if b != c && a != c {
        lemma_above_transitive(nodes, a, b, nodes[c].parent->0);
    }
}

/// Of two tasks that lie above the same task, one lies above the other.
pub proof fn lemma_above_in_line(nodes: Seq<ConfigNodeView>, a: int, b: int, x: int)
    requires
        above_or_self(nodes, a, x),
        above_or_self(nodes, b, x),
    ensures
        above_or_self(nodes, a, b) || above_or_self(nodes, b, a),
    decreases x,
{
    if a != x && b != x {
        lemma_above_in_line(nodes, a, b, nodes[x].parent->0);
    }
}

/// Where the tasks below `i` end, counted from `from` on: the tasks before
/// that lie deeper than `i`, and the task there does not.
pub proof fn lemma_subtree_end(nodes: Seq<ConfigNodeView>, i: int, from: int)
    requires
        0 <= from <= nodes.len(),
    ensures
        from <= subtree_end(nodes, i, from) <= nodes.len(),
        forall|k: int|
            from <= k < subtree_end(nodes, i, from) ==> (#[trigger] nodes[k]).level
                > nodes[i].level,
        subtree_end(nodes, i, from) < nodes.len() ==> nodes[subtree_end(nodes, i, from)].level
            <= nodes[i].level,
    decreases nodes.len() - from,
{
    if from < nodes.len() && nodes[from].level > nodes[i].level {
        lemma_subtree_end(nodes, i, from + 1);
    }
}

/// In a tree, the tasks that lie below a task are those that follow it up
/// to the first that does not lie deeper than it.
pub proof fn lemma_descendants_follow(nodes: Seq<ConfigNodeView>, i: int, j: int)
    requires
        tree_shaped(nodes),
        0 <= i <= j < nodes.len(),
    ensures
        above_or_self(nodes, i, j) <==> j < subtree_end(nodes, i, i + 1),
    decreases j,
{
    let end = subtree_end(nodes, i, i + 1);
    lemma_subtree_end(nodes, i, i + 1);
    if j > i {
        assert(shaped_at(nodes, j));
        assert(shaped_at(nodes, i));
        lemma_descendants_follow(nodes, i, j - 1);
        match nodes[j].parent {
            None => {},
            Some(p) => {
                if j < end {
                    assert(nodes[j].level > nodes[i].level);
                    lemma_above_in_line(nodes, i, p, j - 1);
                    if above_or_self(nodes, p, i) && p != i {
                        lemma_above_is_higher(nodes, p, i);
                    }
                } else if above_or_self(nodes, i, p) {
                    if i != p {
                        lemma_above_is_higher(nodes, i, p);
                    }
                    if j > end {
                        lemma_above_transitive(nodes, i, p, j - 1);
                    }
                }
            },
        }
    }
}

/// Whether one task lies above another does not depend on what the tasks hold.
pub proof fn lemma_above_ignores_data(
    a: Seq<ConfigNodeView>,
    b: Seq<ConfigNodeView>,
    x: int,
    of: int,
)
    requires
        a.len() == b.len(),
        forall|i: int| 0 <= i < a.len() ==> a[i].parent == b[i].parent,
    ensures
        above_or_self(a, x, of) == above_or_self(b, x, of),
    decreases of,
{
    if x != of && 0 <= of < a.len() {
        match a[of].parent {
            Some(p) => {
                if 0 <= p < of {
                    lemma_above_ignores_data(a, b, x, p);
                }
            },
            None => {},
        }
    }
}

/// The shape of a tree does not depend on what the tasks hold.
pub proof fn lemma_shape_ignores_data(a: Seq<ConfigNodeView>, b: Seq<ConfigNodeView>)
    requires
        tree_shaped(a),
        a.len() == b.len(),
        forall|i: int|
            0 <= i < a.len() ==> a[i].parent == b[i].parent && a[i].level == b[i].level
                && a[i].indent == b[i].indent,
    ensures
        tree_shaped(b),
{
    assert forall|i: int| 0 <= i < b.len() implies #[trigger] shaped_at(b, i) by {
        assert(shaped_at(a, i));
        assert(a[i].parent == b[i].parent);
        match a[i].parent {
            Some(p) => {
                lemma_above_ignores_data(a, b, p, i - 1);
            },
            None => {},
        }
    }
}

/// Whether one task lies above another is the same in a tree with one more task.
pub proof fn lemma_above_in_longer(nodes: Seq<ConfigNodeView>, added: ConfigNodeView, x: int, of: int)
    requires
        0 <= of < nodes.len(),
    ensures
        above_or_self(nodes, x, of) == above_or_self(nodes.push(added), x, of),
    decreases of,
{
    if x != of {
        match nodes[of].parent {
            Some(p) => {
                if 0 <= p < of {
                    lemma_above_in_longer(nodes, added, x, p);
                }
            },
            None => {},
        }
    }
}

/// A tree with one more task at its end, put under the last task or a task
/// above it, one level deeper and indented more, or under the root, has the
/// shape of a tree.
pub proof fn lemma_shape_grows(nodes: Seq<ConfigNodeView>, added: ConfigNodeView)
    requires
        tree_shaped(nodes),
        match added.parent {
            Some(p) => 0 <= p < nodes.len() && added.level == nodes[p].level + 1 && nodes[p].indent
                < added.indent && above_or_self(nodes, p, nodes.len() - 1),
            None => added.level == 1,
        },
    ensures
        tree_shaped(nodes.push(added)),
{
    let longer = nodes.push(added);
    assert forall|i: int| 0 <= i < longer.len() implies #[trigger] shaped_at(longer, i) by {
        if i < nodes.len() {
            assert(shaped_at(nodes, i));
            assert(longer[i] == nodes[i]);
            match nodes[i].parent {
                Some(p) => {
                    if i >= 1 {
                        lemma_above_in_longer(nodes, added, p, i - 1);
                    }
                },
                None => {},
            }
        } else {
            match added.parent {
                Some(p) => {
                    lemma_above_in_longer(nodes, added, p, nodes.len() - 1);
                },
                None => {},
            }
        }
    }
}

} // verus!
