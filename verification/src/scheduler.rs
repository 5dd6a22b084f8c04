//! The passes that give the tasks their cells.
//!
//! Each pass goes over the tasks in the order of the tree. First what the
//! tasks inherit is settled: developer, plan, resourcing. Then the cells
//! move, in an order that keeps the policies from taking each other's
//! cells: work done before plans, tasks in the manager's care before the
//! manager's time is priced, smeared plans before front- and back-loaded
//! ones. A task that cannot be served gets a note, and the pass goes on.

use vstd::prelude::*;
use vstd::string::*;
use crate::data::{
    done_transferred, future_transferred, management_transferred, plan_for, text_of,
    AttributeError, NodeConfigData, ResourcingStrategy, ScheduleError,
};
use crate::messages::{
    attribute_text, describe_attribute, describe_schedule, error_html, generate_error_html,
    schedule_text,
};
use crate::nodes::{lemma_shape_ignores_data, shaped_at, ConfigNode, ConfigTree};
use crate::root::{RootConfigData, OUTSOURCE};

verus! {

/// The passes, in the order in which they run.
#[derive(Debug, Clone, Copy, PartialEq, Eq, Structural)]
pub enum Phase {
    /// Each task gets the developer of the nearest task above it that has one.
    DeriveDev,
    /// Each task gets its plan at the start of the chart and as of today.
    DerivePlan,
    /// Each task gets the resourcing of the nearest task above it that has one.
    DeriveResourcing,
    TransferPastDone,
    TransferFutureDoneManaged,
    TransferFutureDoneUnmanaged,
    TransferFutureManagementResource,
    TransferFutureUnmanagedResource,
    TransferFutureSmear,
    TransferFutureFrontload,
    TransferFutureBackload,
}

/// Why a pass could not serve a task.
#[derive(Debug, Clone, Copy, PartialEq, Eq, Structural)]
pub enum PhaseError {
    Attribute(AttributeError),
    Schedule(ScheduleError),
}

/// Why a chart cannot be scheduled.
#[derive(Debug, Clone, Copy, PartialEq, Eq, Structural)]
pub enum ChartProblem {
    /// The chart has no weeks.
    NoWeeks,
    /// The chart has more weeks than a `u32` can count quarters for.
    TooManyWeeks,
    /// Today lies after the end of the chart.
    NowOutsideChart,
    /// A label stands after the end of the chart.
    LabelOutsideChart,
}

/// Why a chart cannot be scheduled, in words.
pub open spec fn problem_text(p: ChartProblem) -> Seq<char> {
    match p {
        ChartProblem::NoWeeks => "The chart has no weeks"@,
        ChartProblem::TooManyWeeks => "The chart has too many weeks"@,
        ChartProblem::NowOutsideChart => "Now lies after the end of the chart"@,
        ChartProblem::LabelOutsideChart => "A label lies after the end of the chart"@,
    }
}

pub fn describe_problem(p: ChartProblem) -> (r: String)
    ensures
        r@ == problem_text(p),
{
    match p {
        ChartProblem::NoWeeks => String::from_str("The chart has no weeks"),
        ChartProblem::TooManyWeeks => String::from_str("The chart has too many weeks"),
        ChartProblem::NowOutsideChart => String::from_str("Now lies after the end of the chart"),
        ChartProblem::LabelOutsideChart => String::from_str(
            "A label lies after the end of the chart",
        ),
    }
}

/// What a pass is about, as the first line of a note.
pub open spec fn phase_text(phase: Phase) -> Seq<char> {
    match phase {
        Phase::DeriveDev => "Failed to derive developer"@,
        Phase::DerivePlan => "Failed to set plan"@,
        Phase::DeriveResourcing => "Failed to derive resourcing"@,
        Phase::TransferPastDone
        | Phase::TransferFutureDoneManaged
        | Phase::TransferFutureDoneUnmanaged => "Failed to transfer done resource"@,
        _ => "Failed to transfer future resource"@,
    }
}

/// The note that a task gets where a pass could not serve it.
pub open spec fn phase_note(phase: Phase, e: PhaseError) -> Seq<char> {
    error_html(
        phase_text(phase) + "<br>caused by: "@ + match e {
            PhaseError::Attribute(a) => attribute_text(a),
            PhaseError::Schedule(s) => schedule_text(s),
        },
    )
}

pub fn describe_phase(phase: Phase, e: PhaseError) -> (r: String)
    ensures
        r@ == phase_note(phase, e),
{
    let mut s = match phase {
        Phase::DeriveDev => String::from_str("Failed to derive developer"),
        Phase::DerivePlan => String::from_str("Failed to set plan"),
        Phase::DeriveResourcing => String::from_str("Failed to derive resourcing"),
        Phase::TransferPastDone
        | Phase::TransferFutureDoneManaged
        | Phase::TransferFutureDoneUnmanaged => String::from_str(
            "Failed to transfer done resource",
        ),
        _ => String::from_str("Failed to transfer future resource"),
    };
    s.append("<br>caused by: ");
    match e {
        PhaseError::Attribute(a) => {
            s.append(describe_attribute(a).as_str());
        },
        PhaseError::Schedule(x) => {
            s.append(describe_schedule(x).as_str());
        },
    }
    generate_error_html(s.as_str())
}

/// The answer of a pass as the answer of a transfer.
pub open spec fn schedule_answer(r: Result<(), PhaseError>) -> Result<(), ScheduleError> {
    match r {
        Err(PhaseError::Schedule(e)) => Err(e),
        _ => Ok(()),
    }
}

impl ConfigTree {
    /// The developer of the nearest of task `i` and the tasks above it that
    /// has one.
    pub open spec fn nearest_dev(&self, i: int) -> Option<Seq<char>>
        decreases i,
    {
        if 0 <= i < self.nodes@.len() {
            let node = self.nodes@[i];
            match node.node_data.effective_dev(&self.root_data, node.name@) {
                Some(d) => Some(d),
                None => match node.parent {
                    Some(p) => if p < i {
                        self.nearest_dev(p as int)
                    } else {
                        None
                    },
                    None => None,
                },
            }
        } else {
            None
        }
    }

    /// The resourcing of the nearest of task `i` and the tasks above it that
    /// has one.
    pub open spec fn nearest_resourcing(&self, i: int) -> Option<ResourcingStrategy>
        decreases i,
    {
        if 0 <= i < self.nodes@.len() {
            let node = self.nodes@[i];
            match node.node_data.resourcing {
                Some(s) => Some(s),
                None => match node.parent {
                    Some(p) => if p < i {
                        self.nearest_resourcing(p as int)
                    } else {
                        None
                    },
                    None => None,
                },
            }
        } else {
            None
        }
    }

    /// The plan that the nearest task above task `i` with a default plan for
    /// the quarter `when` gives to work of `dev`.
    pub open spec fn default_plan_above(&self, i: int, dev: Seq<char>, when: int) -> Option<u32>
        decreases i,
    {
        if 0 <= i < self.nodes@.len() {
            match self.nodes@[i].parent {
                Some(p) => if p < i {
                    match plan_for(
                        self.nodes@[p as int].node_data.default_plan@,
                        when,
                        self.root_data.duration_of(Some(dev)),
                    ) {
                        Some(v) => Some(v),
                        None => self.default_plan_above(p as int, dev, when),
                    }
                } else {
                    None
                },
                None => None,
            }
        } else {
            None
        }
    }

    /// The plan of task `i` for the quarter `when`: its own, else, where it
    /// has a developer, the default plan of the nearest task above it.
    pub open spec fn plan_found(&self, i: int, when: int) -> Option<u32> {
        let node = self.nodes@[i];
        let dev = node.node_data.effective_dev(&self.root_data, node.name@);
        match plan_for(node.node_data.plan@, when, self.root_data.duration_of(dev)) {
            Some(v) => Some(v),
            None => match dev {
                Some(d) => self.default_plan_above(i, d, when),
                None => None,
            },
        }
    }

    /// See `plan_found`.
    pub fn find_plan_at_time(&self, i: usize, when: u32) -> (r: Option<u32>)
        requires
            self.wf(),
            self.root_data.chart_valid(),
            i < self.nodes@.len(),
        ensures
            r == self.plan_found(i as int, when as int),
    {
        let dev = self.nodes[i].node_data.get_dev(&self.root_data, self.nodes[i].name.as_str());
        match self.nodes[i].node_data.get_plan(&self.root_data, &dev, when) {
            Some(p) => {
                return Some(p);
            },
            None => {},
        }
        if dev.is_none() {
            return None;
        }
        let mut j: usize = i;
        loop
            invariant
                self.wf(),
                self.root_data.chart_valid(),
                j < self.nodes@.len(),
                i < self.nodes@.len(),
                dev is Some,
                text_of(dev) == self.nodes@[i as int].node_data.effective_dev(
                    &self.root_data,
                    self.nodes@[i as int].name@,
                ),
                plan_for(
                    self.nodes@[i as int].node_data.plan@,
                    when as int,
                    self.root_data.duration_of(text_of(dev)),
                ) is None,
                self.default_plan_above(i as int, dev->0@, when as int) == self.default_plan_above(
                    j as int,
                    dev->0@,
                    when as int,
                ),
            decreases j,
        {
            assert(shaped_at(self@.nodes, j as int));
            match self.nodes[j].parent {
                Some(p) => {
                    match self.nodes[p].node_data.get_default_plan(&self.root_data, &dev, when) {
                        Some(v) => {
                            return Some(v);
                        },
                        None => {},
                    }
                    j = p;
                },
                None => {
                    return None;
                },
            }
        }
    }

    /// See `nearest_dev`.
    pub fn find_dev(&self, i: usize) -> (r: Option<String>)
        requires
            self.wf(),
            i < self.nodes@.len(),
        ensures
            text_of(r) == self.nearest_dev(i as int),
    {
        let mut j: usize = i;
        loop
            invariant
                self.wf(),
                j < self.nodes@.len(),
                self.nearest_dev(i as int) == self.nearest_dev(j as int),
            decreases j,
        {
            assert(shaped_at(self@.nodes, j as int));
            match self.nodes[j].node_data.get_dev(&self.root_data, self.nodes[j].name.as_str()) {
                Some(d) => {
                    return Some(d);
                },
                None => {},
            }
            match self.nodes[j].parent {
                Some(p) => {
                    j = p;
                },
                None => {
                    return None;
                },
            }
        }
    }

    /// See `nearest_resourcing`.
    pub fn find_resourcing(&self, i: usize) -> (r: Option<ResourcingStrategy>)
        requires
            self.wf(),
            i < self.nodes@.len(),
        ensures
            r == self.nearest_resourcing(i as int),
    {
        let mut j: usize = i;
        loop
            invariant
                self.wf(),
                j < self.nodes@.len(),
                self.nearest_resourcing(i as int) == self.nearest_resourcing(j as int),
            decreases j,
        {
            assert(shaped_at(self@.nodes, j as int));
            match self.nodes[j].node_data.resourcing {
                Some(s) => {
                    return Some(s);
                },
                None => {},
            }
            match self.nodes[j].parent {
                Some(p) => {
                    j = p;
                },
                None => {
                    return None;
                },
            }
        }
    }
}

/// Whether only task `i` of a tree and the chart changed, and of the task
/// only what it holds.
pub open spec fn only_task_changed(before: &ConfigTree, after: &ConfigTree, i: int) -> bool {
    &&& after.nodes@.len() == before.nodes@.len()
    &&& forall|j: int|
        0 <= j < before.nodes@.len() && j != i ==> after.nodes@[j] == before.nodes@[j]
    &&& after.nodes@[i] == (ConfigNode {
        node_data: after.nodes@[i].node_data,
        ..before.nodes@[i]
    })
}

/// Whether a tree changed as a pass has to change it at task `i`, and the
/// pass answered as it has to.
pub open spec fn phase_applied(
    before: &ConfigTree,
    after: &ConfigTree,
    phase: Phase,
    i: int,
    r: Result<(), PhaseError>,
) -> bool {
    let a = &before.nodes@[i].node_data;
    let b = &after.nodes@[i].node_data;
    let ra = &before.root_data;
    let rb = &after.root_data;
    &&& only_task_changed(before, after, i)
    &&& match phase {
        Phase::DeriveDev => *rb == *ra && match before.nearest_dev(i) {
            None => r is Ok && *b == *a,
            Some(d) => if d == OUTSOURCE@ || ra.developer_index(d) is Some {
                r is Ok && text_of(b.dev) == Some(d) && *b == (NodeConfigData { dev: b.dev, ..*a })
            } else {
                r == Err::<(), PhaseError>(
                    PhaseError::Attribute(AttributeError::UnknownDeveloper),
                ) && *b == *a
            },
        },
        Phase::DerivePlan => *rb == *ra && r is Ok && *b == (NodeConfigData {
            initial_plan: before.plan_found(i, 0),
            now_plan: before.plan_found(i, ra.now as int),
            ..*a
        }),
        Phase::DeriveResourcing => *rb == *ra && r is Ok && match before.nearest_resourcing(i) {
            Some(s) => *b == (NodeConfigData { resourcing: Some(s), ..*a }),
            None => *b == *a,
        },
        Phase::TransferPastDone => !(r is Err && r->Err_0 is Attribute) && done_transferred(
            a,
            b,
            ra,
            rb,
            true,
            schedule_answer(r),
        ),
        Phase::TransferFutureDoneManaged => !(r is Err && r->Err_0 is Attribute) && if a.managed {
            done_transferred(a, b, ra, rb, false, schedule_answer(r))
        } else {
            r is Ok && *b == *a && *rb == *ra
        },
        Phase::TransferFutureDoneUnmanaged => !(r is Err && r->Err_0 is Attribute)
            && if !a.managed {
            done_transferred(a, b, ra, rb, false, schedule_answer(r))
        } else {
            r is Ok && *b == *a && *rb == *ra
        },
        Phase::TransferFutureManagementResource => !(r is Err && r->Err_0 is Attribute)
            && management_transferred(a, b, ra, rb, schedule_answer(r)),
        Phase::TransferFutureUnmanagedResource => !(r is Err && r->Err_0 is Attribute)
            && if !a.managed {
            future_transferred(a, b, ra, rb, a.resourcing, schedule_answer(r))
        } else {
            r is Ok && *b == *a && *rb == *ra
        },
        Phase::TransferFutureSmear => !(r is Err && r->Err_0 is Attribute) && match a.resourcing {
            Some(ResourcingStrategy::SmearRemaining)
            | Some(ResourcingStrategy::SmearProRata)
            | Some(ResourcingStrategy::ProdSFR) => future_transferred(
                a,
                b,
                ra,
                rb,
                a.resourcing,
                schedule_answer(r),
            ),
            _ => r is Ok && *b == *a && *rb == *ra,
        },
        Phase::TransferFutureFrontload => !(r is Err && r->Err_0 is Attribute)
            && match a.resourcing {
            Some(ResourcingStrategy::FrontLoad) => future_transferred(
                a,
                b,
                ra,
                rb,
                a.resourcing,
                schedule_answer(r),
            ),
            _ => r is Ok && *b == *a && *rb == *ra,
        },
        Phase::TransferFutureBackload => !(r is Err && r->Err_0 is Attribute)
            && match a.resourcing {
            Some(ResourcingStrategy::BackLoad) => future_transferred(
                a,
                b,
                ra,
                rb,
                a.resourcing,
                schedule_answer(r),
            ),
            Some(ResourcingStrategy::ProdSFR) => future_transferred(
                a,
                b,
                ra,
                rb,
                Some(ResourcingStrategy::ProdSFR_part2),
                schedule_answer(r),
            ),
            _ => r is Ok && *b == *a && *rb == *ra,
        },
    }
}

/// Whether a task that a pass could not serve got its note, and nothing
/// else changed.
pub open spec fn noted(
    before: &ConfigTree,
    after: &ConfigTree,
    phase: Phase,
    i: int,
    r: Result<(), PhaseError>,
) -> bool {
    match r {
        Ok(()) => *after == *before,
        Err(e) => {
            let a = &before.nodes@[i].node_data;
            let b = &after.nodes@[i].node_data;
            &&& after.root_data == before.root_data
            &&& only_task_changed(before, after, i)
            &&& *b == (NodeConfigData { notes: b.notes, ..*a })
            &&& b.notes@.len() == a.notes@.len() + 1
            &&& b.notes@.drop_last() == a.notes@
            &&& b.notes@.last()@ == phase_note(phase, e)
        },
    }
}

/// Whether a tree changed as a pass has to change it when it comes to task
/// `i`: the pass serves the task, or leaves a note on it.
pub open spec fn task_served(before: &ConfigTree, after: &ConfigTree, phase: Phase, i: int) -> bool {
    exists|mid: ConfigTree, r: Result<(), PhaseError>| #[trigger]
        phase_applied(before, &mid, phase, i, r) && noted(&mid, after, phase, i, r)
}

/// Whether a tree changed as a pass has to change it over the first `upto`
/// tasks, one after the other.
pub open spec fn tasks_served(before: &ConfigTree, after: &ConfigTree, phase: Phase, upto: int) -> bool
    decreases upto,
{
    if upto <= 0 {
        *after == *before
    } else {
        let last = upto - 1;
        exists|mid: ConfigTree|
            tasks_served(before, &mid, phase, last) && #[trigger] task_served(
                &mid,
                after,
                phase,
                last,
            )
    }
}

/// The passes.
pub open spec fn all_phases() -> Seq<Phase> {
    seq![
        Phase::DeriveDev,
        Phase::DerivePlan,
        Phase::DeriveResourcing,
        Phase::TransferPastDone,
        Phase::TransferFutureDoneManaged,
        Phase::TransferFutureDoneUnmanaged,
        Phase::TransferFutureManagementResource,
        Phase::TransferFutureUnmanagedResource,
        Phase::TransferFutureSmear,
        Phase::TransferFutureFrontload,
        Phase::TransferFutureBackload,
    ]
}

/// Whether a tree changed as the first `upto` passes have to change it, one
/// after the other, each over all the tasks.
pub open spec fn phases_run(before: &ConfigTree, after: &ConfigTree, upto: int) -> bool
    decreases upto,
{
    if upto <= 0 {
        *after == *before
    } else {
        let last = upto - 1;
        exists|mid: ConfigTree|
            phases_run(before, &mid, last) && #[trigger] tasks_served(
                &mid,
                after,
                all_phases()[last],
                mid.nodes@.len() as int,
            )
    }
}

/// What the chart lacks to be scheduled.
pub open spec fn chart_problem(root: &RootConfigData) -> Option<ChartProblem> {
    if root.weeks == 0 {
        Some(ChartProblem::NoWeeks)
    } else if root.quarters() > u32::MAX {
        Some(ChartProblem::TooManyWeeks)
    } else if root.now >= root.quarters() {
        Some(ChartProblem::NowOutsideChart)
    } else if exists|i: int|
        0 <= i < root.labels@.len() && (#[trigger] root.labels@[i]).when >= root.quarters() {
        Some(ChartProblem::LabelOutsideChart)
    } else {
        None
    }
}

/// See `chart_problem`.
pub fn find_chart_problem(root: &RootConfigData) -> (r: Option<ChartProblem>)
    ensures
        r == chart_problem(root),
        r is None ==> root.chart_valid(),
{
    if root.get_weeks() == 0 {
        return Some(ChartProblem::NoWeeks);
    }
    if root.get_weeks() > u32::MAX / 20 {
        return Some(ChartProblem::TooManyWeeks);
    }
    if !root.is_chart_valid() {
        return Some(ChartProblem::NowOutsideChart);
    }
    let quarters: u32 = root.get_weeks() * 20;
    let mut i: usize = 0;
    while i < root.labels.len()
        invariant
            i <= root.labels@.len(),
            quarters == root.quarters(),
            root.weeks != 0,
            root.chart_valid(),
            forall|k: int| 0 <= k < i ==> (#[trigger] root.labels@[k]).when < quarters,
        decreases root.labels@.len() - i,
    {
        if root.labels[i].when >= quarters {
            assert(root.labels@[i as int].when >= root.quarters());
            return Some(ChartProblem::LabelOutsideChart);
        }
        i = i + 1;
    }
    None
}

/// The passes that lay out plans from today on.
pub open spec fn lays_out_plans(phase: Phase) -> bool {
    phase is TransferFutureManagementResource || phase is TransferFutureUnmanagedResource
        || phase is TransferFutureSmear || phase is TransferFutureFrontload
        || phase is TransferFutureBackload
}

/// A pass that lays out plans leaves a task whose plan is laid out alone: it
/// answers that all is well, and neither the tree nor the chart changes.
pub proof fn lemma_laid_out_plan_is_left_alone(
    before: &ConfigTree,
    after: &ConfigTree,
    phase: Phase,
    i: int,
    r: Result<(), PhaseError>,
)
    requires
        0 <= i < before.nodes@.len(),
        lays_out_plans(phase),
        before.nodes@[i].node_data.resource_transferred,
        phase_applied(before, after, phase, i, r),
    ensures
        r is Ok,
        after.root_data == before.root_data,
        after.nodes@ == before.nodes@,
{
    assert(after.nodes@[i] == before.nodes@[i]);
    assert(after.nodes@ =~= before.nodes@);
}

/// A pass leaves the shape of the tree and the well-formedness of the tasks
/// as they are.
pub proof fn lemma_phase_keeps_wf(
    before: &ConfigTree,
    after: &ConfigTree,
    phase: Phase,
    i: int,
    r: Result<(), PhaseError>,
)
    requires
        before.wf(),
        0 <= i < before.nodes@.len(),
        phase_applied(before, after, phase, i, r),
        after.nodes@[i].node_data.wf() || !(phase is TransferPastDone
            || phase is TransferFutureDoneManaged || phase is TransferFutureDoneUnmanaged),
    ensures
        after.wf(),
{
    assert(before.nodes@[i].node_data.wf());
    lemma_only_task_keeps_shape(before, after, i);
    assert forall|j: int| 0 <= j < after.nodes@.len() implies (
    #[trigger] after.nodes@[j]).node_data.wf() by {
        if j != i {
            assert(before.nodes@[j].node_data.wf());
        }
    }
}

/// A change to what one task holds leaves the shape of the tree as it is.
pub proof fn lemma_only_task_keeps_shape(before: &ConfigTree, after: &ConfigTree, i: int)
    requires
        crate::nodes::tree_shaped(before@.nodes),
        0 <= i < before.nodes@.len(),
        only_task_changed(before, after, i),
    ensures
        crate::nodes::tree_shaped(after@.nodes),
{
    assert forall|j: int| 0 <= j < before.nodes@.len() implies before@.nodes[j].parent
        == after@.nodes[j].parent && before@.nodes[j].level == after@.nodes[j].level
        && before@.nodes[j].indent == after@.nodes[j].indent by {
        if j != i {
            assert(after.nodes@[j] == before.nodes@[j]);
        }
    }
    lemma_shape_ignores_data(before@.nodes, after@.nodes);
}

/// Lets one pass serve one task.
pub fn run_on_node(tree: &mut ConfigTree, phase: Phase, i: usize) -> (r: Result<(), PhaseError>)
    requires
        old(tree).wf(),
        old(tree).root_data.chart_valid(),
        i < old(tree).nodes@.len(),
    ensures
        final(tree).wf(),
        final(tree).root_data.chart_valid(),
        phase_applied(old(tree), final(tree), phase, i as int, r),
{
    let ghost before = *tree;
    assert(tree.nodes@[i as int].node_data.wf());
    let r = match phase {
        Phase::DeriveDev => {
            match tree.find_dev(i) {
                Some(d) => match tree.nodes[i].node_data.set_dev(&tree.root_data, &d) {
                    Ok(()) => Ok(()),
                    Err(e) => Err(PhaseError::Attribute(e)),
                },
                None => Ok(()),
            }
        },
        Phase::DerivePlan => {
            let initial = tree.find_plan_at_time(i, 0);
            let now = tree.find_plan_at_time(i, tree.root_data.get_now());
            let _ = tree.nodes[i].node_data.set_derived_plan(initial, now);
            Ok(())
        },
        Phase::DeriveResourcing => {
            match tree.find_resourcing(i) {
                Some(s) => {
                    let _ = tree.nodes[i].node_data.set_resourcing(&tree.root_data, s);
                },
                None => {},
            }
            Ok(())
        },
        Phase::TransferPastDone => wrap(
            tree.nodes[i].node_data.transfer_past_done(&mut tree.root_data),
        ),
        Phase::TransferFutureDoneManaged => wrap(
            tree.nodes[i].node_data.transfer_future_done_managed(&mut tree.root_data),
        ),
        Phase::TransferFutureDoneUnmanaged => wrap(
            tree.nodes[i].node_data.transfer_future_done_unmanaged(&mut tree.root_data),
        ),
        Phase::TransferFutureManagementResource => wrap(
            tree.nodes[i].node_data.transfer_future_management_resource(&mut tree.root_data),
        ),
        Phase::TransferFutureUnmanagedResource => wrap(
            tree.nodes[i].node_data.transfer_future_unmanaged_resource(&mut tree.root_data),
        ),
        Phase::TransferFutureSmear => wrap(
            tree.nodes[i].node_data.transfer_future_smear(&mut tree.root_data),
        ),
        Phase::TransferFutureFrontload => wrap(
            tree.nodes[i].node_data.transfer_future_frontload(&mut tree.root_data),
        ),
        Phase::TransferFutureBackload => wrap(
            tree.nodes[i].node_data.transfer_future_backload(&mut tree.root_data),
        ),
    };
    proof {
        assert(phase_applied(&before, tree, phase, i as int, r));
        lemma_phase_keeps_wf(&before, tree, phase, i as int, r);
    }
    r
}

/// The answer of a transfer as the answer of a pass.
fn wrap(r: Result<(), ScheduleError>) -> (out: Result<(), PhaseError>)
    ensures
        schedule_answer(out) == r,
        !(out is Err && out->Err_0 is Attribute),
{
    match r {
        Ok(u) => {
            assert(u == ());
            Ok(())
        },
        Err(e) => Err(PhaseError::Schedule(e)),
    }
}

/// Lets one pass serve all the tasks, in the order of the tree. A task that
/// cannot be served gets a note, and the pass goes on.
pub fn call_on_children(phase: Phase, tree: &mut ConfigTree)
    requires
        old(tree).wf(),
        old(tree).root_data.chart_valid(),
    ensures
        final(tree).wf(),
        final(tree).root_data.chart_valid(),
        final(tree).nodes@.len() == old(tree).nodes@.len(),
        tasks_served(old(tree), final(tree), phase, old(tree).nodes@.len() as int),
{
    let n = tree.nodes.len();
    let mut i: usize = 0;
    while i < n
        invariant
            i <= n,
            n == tree.nodes@.len(),
            n == old(tree).nodes@.len(),
            tree.wf(),
            tree.root_data.chart_valid(),
            tasks_served(old(tree), tree, phase, i as int),
        decreases n - i,
    {
        let ghost before = *tree;
        assert(tasks_served(old(tree), &before, phase, i as int));
        let r = run_on_node(tree, phase, i);
        let ghost mid = *tree;
        match r {
            Ok(()) => {},
            Err(e) => {
                let text = describe_phase(phase, e);
                let _ = tree.nodes[i].node_data.add_note(text.as_str());
                proof {
                    lemma_only_task_keeps_shape(&mid, tree, i as int);
                    assert forall|j: int| 0 <= j < tree.nodes@.len() implies (
                    #[trigger] tree.nodes@[j]).node_data.wf() by {
                        assert(mid.nodes@[j].node_data.wf());
                    }
                }
            },
        }
        proof {
            assert(noted(&mid, tree, phase, i as int, r));
            assert(task_served(&before, tree, phase, i as int));
            let next = i + 1;
            assert(tasks_served(old(tree), &before, phase, next - 1));
            assert(task_served(&before, tree, phase, next - 1));
            assert(tasks_served(old(tree), tree, phase, next));
        }
        i = i + 1;
    }
}

/// Gives the tasks their cells: all the passes, in their order.
///
/// A chart without weeks, with more weeks than can be counted, or with
/// today or a label after its end is refused, and the tree stays as it is.
pub fn schedule(tree: &mut ConfigTree) -> (r: Result<(), ChartProblem>)
    requires
        old(tree).wf(),
    ensures
        final(tree).wf(),
        match chart_problem(&old(tree).root_data) {
            Some(p) => r == Err::<(), ChartProblem>(p) && *final(tree) == *old(tree),
            None => r is Ok && phases_run(old(tree), final(tree), all_phases().len() as int),
        },
{
    match find_chart_problem(&tree.root_data) {
        Some(p) => {
            return Err(p);
        },
        None => {},
    }
    let phases = [
        Phase::DeriveDev,
        Phase::DerivePlan,
        Phase::DeriveResourcing,
        Phase::TransferPastDone,
        Phase::TransferFutureDoneManaged,
        Phase::TransferFutureDoneUnmanaged,
        Phase::TransferFutureManagementResource,
        Phase::TransferFutureUnmanagedResource,
        Phase::TransferFutureSmear,
        Phase::TransferFutureFrontload,
        Phase::TransferFutureBackload,
    ];
    assert(phases@ =~= all_phases());
    let mut k: usize = 0;
    while k < 11
        invariant
            k <= 11,
            phases@ == all_phases(),
            tree.wf(),
            tree.root_data.chart_valid(),
            phases_run(old(tree), tree, k as int),
        decreases 11 - k,
    {
        let ghost mid = *tree;
        assert(phases_run(old(tree), &mid, k as int));
        call_on_children(phases[k], tree);
        proof {
            let next = k + 1;
            assert(phases_run(old(tree), &mid, next - 1));
            assert(tasks_served(
                &mid,
                tree,
                all_phases()[next - 1],
                mid.nodes@.len() as int,
            ));
            assert(phases_run(old(tree), tree, next));
        }
        k = k + 1;
    }
    Ok(())
}

} // verus!
