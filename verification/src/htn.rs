use vstd::prelude::*;

use crate::blackboard::{Blackboard, BoardView};
use crate::condition::{all_hold, conds_view, is_met, lemma_conds_view, Condition, VCondition};
use crate::effect::{effects_result, effects_view, try_apply_effects, Effect, VEffect};
use crate::text::Order;
use crate::value::{models, total, ArithmeticOp, FloatOps, FloatSem, Value};

verus! {

/// A node of a hierarchical task network.
///
/// A selector plans the first of its tasks whose preconditions hold; a sequence
/// plans all its tasks in turn, each on the blackboard the previous one left;
/// an action plans itself and applies its effects.
#[derive(Debug, PartialEq)]
pub enum Task {
    Selector { preconditions: Vec<Condition>, tasks: Vec<Task> },
    Sequence { preconditions: Vec<Condition>, tasks: Vec<Task> },
    Action { preconditions: Vec<Condition>, action: String, effects: Vec<Effect> },
}

/// The model of a `Task`.
pub enum VTask {
    Selector { pre: Seq<VCondition>, tasks: Seq<VTask> },
    Sequence { pre: Seq<VCondition>, tasks: Seq<VTask> },
    Action { pre: Seq<VCondition>, action: Seq<char>, effects: Seq<VEffect> },
}

pub open spec fn tasks_view(s: Seq<Task>) -> Seq<VTask>
    decreases s, 1int,
{
    if s.len() == 0 {
        Seq::empty()
    } else {
        tasks_view(s.drop_last()).push(task_view(s.last()))
    }
}

pub open spec fn task_view(t: Task) -> VTask
    decreases t, 0int,
{
    match t {
        Task::Selector { preconditions, tasks } => VTask::Selector {
            pre: conds_view(preconditions@),
            tasks: tasks_view(tasks@),
        },
        Task::Sequence { preconditions, tasks } => VTask::Sequence {
            pre: conds_view(preconditions@),
            tasks: tasks_view(tasks@),
        },
        Task::Action { preconditions, action, effects } => VTask::Action {
            pre: conds_view(preconditions@),
            action: action@,
            effects: effects_view(effects@),
        },
    }
}

impl View for Task {
    type V = VTask;

    open spec fn view(&self) -> VTask {
        task_view(*self)
    }
}

pub proof fn lemma_tasks_view(s: Seq<Task>)
    ensures
        tasks_view(s).len() == s.len(),
        forall|i: int| 0 <= i < s.len() ==> #[trigger] tasks_view(s)[i] == task_view(s[i]),
    decreases s.len(),
{
    if s.len() > 0 {
        lemma_tasks_view(s.drop_last());
        assert forall|i: int| 0 <= i < s.len() implies #[trigger] tasks_view(s)[i] == task_view(
            s[i],
        ) by {
            if i < s.len() - 1 {
                assert(tasks_view(s.drop_last())[i] == task_view(s.drop_last()[i]));
            }
        }
    }
}

/// The preconditions of a task.
pub open spec fn pre_of(t: VTask) -> Seq<VCondition> {
    match t {
        VTask::Selector { pre, .. } => pre,
        VTask::Sequence { pre, .. } => pre,
        VTask::Action { pre, .. } => pre,
    }
}

/// What decomposing a task gives: the plan (action names, in order) with the
/// blackboard it leaves; no plan; or a panic of an effect's arithmetic.
pub enum Planning {
    Planned(Seq<Seq<char>>, BoardView),
    Failed,
    Faulted,
}

/// `prefix` followed by the plan of `rest`, if `rest` is a plan.
pub open spec fn prepend(prefix: Seq<Seq<char>>, rest: Planning) -> Planning {
    match rest {
        Planning::Planned(p, d) => Planning::Planned(prefix + p, d),
        other => other,
    }
}

/// Decomposing a task on a blackboard. The task's own preconditions are not
/// tested here: its parent tests them.
pub open spec fn decompose_spec(t: VTask, data: BoardView, sem: FloatSem) -> Planning
    decreases t, 0int,
{
    match t {
        VTask::Selector { tasks, .. } => select_from(tasks, 0, data, sem),
        VTask::Sequence { tasks, .. } => sequence_from(tasks, 0, data, sem),
        VTask::Action { action, effects, .. } => match effects_result(effects, data, sem) {
            Some(d) => Planning::Planned(seq![action], d),
            None => Planning::Faulted,
        },
    }
}

/// The first task from index `i` on whose preconditions hold, decomposed; no
/// plan if there is none.
pub open spec fn select_from(ts: Seq<VTask>, i: int, data: BoardView, sem: FloatSem) -> Planning
    decreases ts, ts.len() - i,
{
    if i < 0 || i >= ts.len() {
        Planning::Failed
    } else if all_hold(pre_of(ts[i]), data, sem) {
        decompose_spec(ts[i], data, sem)
    } else {
        select_from(ts, i + 1, data, sem)
    }
}

/// The tasks from index `i` on, each tested and decomposed on the blackboard
/// the previous one left, their plans joined; no plan as soon as one's
/// preconditions fail or it has no plan.
pub open spec fn sequence_from(ts: Seq<VTask>, i: int, data: BoardView, sem: FloatSem) -> Planning
    decreases ts, ts.len() - i,
{
    if i < 0 || i >= ts.len() {
        Planning::Planned(Seq::empty(), data)
    } else if !all_hold(pre_of(ts[i]), data, sem) {
        Planning::Failed
    } else {
        match decompose_spec(ts[i], data, sem) {
            Planning::Planned(p, d) => prepend(p, sequence_from(ts, i + 1, d, sem)),
            other => other,
        }
    }
}

/// The plan of a task, if it has one.
pub open spec fn plan_spec(t: VTask, data: BoardView, sem: FloatSem) -> Option<Seq<Seq<char>>> {
    match decompose_spec(t, data, sem) {
        Planning::Planned(p, _) => Some(p),
        _ => None,
    }
}

/// Decomposing does not panic for any float semantics that `ops` computes.
pub open spec fn never_faults<C, A>(t: VTask, data: BoardView, ops: FloatOps<C, A>) -> bool where
    C: Fn(&Value, &Value) -> Option<Order>,
    A: Fn(ArithmeticOp, &Value, &Value) -> String,
 {
    forall|sem: FloatSem| #[trigger] models(ops, sem) ==> !(decompose_spec(t, data, sem) is Faulted)
}

pub open spec fn strings_view(v: Seq<String>) -> Seq<Seq<char>> {
    v.map_values(|s: String| s@)
}

/// Whether the task network holds an action of this name.
pub open spec fn names_action(t: VTask, a: Seq<char>) -> bool
    decreases t, 0int,
{
    match t {
        VTask::Selector { tasks, .. } => names_in(tasks, 0, a),
        VTask::Sequence { tasks, .. } => names_in(tasks, 0, a),
        VTask::Action { action, .. } => action == a,
    }
}

/// Whether one of the tasks from index `i` on holds an action of this name.
pub open spec fn names_in(ts: Seq<VTask>, i: int, a: Seq<char>) -> bool
    decreases ts, ts.len() - i,
{
    if i < 0 || i >= ts.len() {
        false
    } else {
        names_action(ts[i], a) || names_in(ts, i + 1, a)
    }
}

proof fn lemma_task_plan_named(t: VTask, data: BoardView, sem: FloatSem)
    ensures
        match decompose_spec(t, data, sem) {
            Planning::Planned(p, _) => forall|k: int| 0 <= k < p.len() ==> names_action(t, #[trigger] p[k]),
            _ => true,
        },
    decreases t, 0int,
{
    match t {
        VTask::Selector { tasks, .. } => lemma_select_named(tasks, 0, data, sem),
        VTask::Sequence { tasks, .. } => lemma_sequence_named(tasks, 0, data, sem),
        VTask::Action { .. } => {},
    }
}

proof fn lemma_select_named(ts: Seq<VTask>, i: int, data: BoardView, sem: FloatSem)
    ensures
        match select_from(ts, i, data, sem) {
            Planning::Planned(p, _) => forall|k: int| 0 <= k < p.len() ==> names_in(ts, i, #[trigger] p[k]),
            _ => true,
        },
    decreases ts, ts.len() - i,
{
    if 0 <= i < ts.len() {
        if all_hold(pre_of(ts[i]), data, sem) {
            lemma_task_plan_named(ts[i], data, sem);
        } else {
            lemma_select_named(ts, i + 1, data, sem);
        }
    }
}

proof fn lemma_sequence_named(ts: Seq<VTask>, i: int, data: BoardView, sem: FloatSem)
    ensures
        match sequence_from(ts, i, data, sem) {
            Planning::Planned(p, _) => forall|k: int| 0 <= k < p.len() ==> names_in(ts, i, #[trigger] p[k]),
            _ => true,
        },
    decreases ts, ts.len() - i,
{
    if 0 <= i < ts.len() && all_hold(pre_of(ts[i]), data, sem) {
        lemma_task_plan_named(ts[i], data, sem);
        match decompose_spec(ts[i], data, sem) {
            Planning::Planned(p1, d1) => {
                lemma_sequence_named(ts, i + 1, d1, sem);
                match sequence_from(ts, i + 1, d1, sem) {
                    Planning::Planned(p2, _) => {
                        assert forall|k: int| 0 <= k < p1.len() + p2.len() implies names_in(
                            ts,
                            i,
                            #[trigger] (p1 + p2)[k],
                        ) by {
                            if k < p1.len() {
                                assert((p1 + p2)[k] == p1[k]);
                            } else {
                                assert((p1 + p2)[k] == p2[k - p1.len()]);
                            }
                        }
                    },
                    _ => {},
                }
            },
            _ => {},
        }
    }
}

/// Every action that a plan names is an action of the task network.
pub proof fn law_plan_names_actions_of_the_network(t: VTask, data: BoardView, sem: FloatSem)
    ensures
        match decompose_spec(t, data, sem) {
            Planning::Planned(p, _) => forall|k: int| 0 <= k < p.len() ==> names_action(t, #[trigger] p[k]),
            _ => true,
        },
{
    lemma_task_plan_named(t, data, sem);
}

proof fn lemma_select_first_applicable(ts: Seq<VTask>, i: int, j: int, data: BoardView, sem: FloatSem)
    requires
        0 <= i <= j < ts.len(),
        all_hold(pre_of(ts[j]), data, sem),
        forall|k: int| i <= k < j ==> !all_hold(pre_of(#[trigger] ts[k]), data, sem),
    ensures
        select_from(ts, i, data, sem) == decompose_spec(ts[j], data, sem),
    decreases j - i,
{
    if i < j {
        lemma_select_first_applicable(ts, i + 1, j, data, sem);
    }
}

proof fn lemma_select_none_applicable(ts: Seq<VTask>, i: int, data: BoardView, sem: FloatSem)
    requires
        0 <= i <= ts.len(),
        forall|k: int| i <= k < ts.len() ==> !all_hold(pre_of(#[trigger] ts[k]), data, sem),
    ensures
        select_from(ts, i, data, sem) is Failed,
    decreases ts.len() - i,
{
    if i < ts.len() {
        lemma_select_none_applicable(ts, i + 1, data, sem);
    }
}

/// A selector plans as the first of its tasks whose preconditions hold, and
/// has no plan where none of them hold.
pub proof fn law_selector_plans_first_applicable(
    pre: Seq<VCondition>,
    tasks: Seq<VTask>,
    data: BoardView,
    sem: FloatSem,
    j: int,
)
    ensures
        0 <= j < tasks.len() && all_hold(pre_of(tasks[j]), data, sem) && (forall|k: int|
            0 <= k < j ==> !all_hold(pre_of(#[trigger] tasks[k]), data, sem)) ==> decompose_spec(
            VTask::Selector { pre, tasks },
            data,
            sem,
        ) == decompose_spec(tasks[j], data, sem),
        (forall|k: int| 0 <= k < tasks.len() ==> !all_hold(pre_of(#[trigger] tasks[k]), data, sem))
            ==> decompose_spec(VTask::Selector { pre, tasks }, data, sem) is Failed,
{
    if 0 <= j < tasks.len() && all_hold(pre_of(tasks[j]), data, sem) && (forall|k: int|
        0 <= k < j ==> !all_hold(pre_of(#[trigger] tasks[k]), data, sem)) {
        lemma_select_first_applicable(tasks, 0, j, data, sem);
    }
    if forall|k: int| 0 <= k < tasks.len() ==> !all_hold(pre_of(#[trigger] tasks[k]), data, sem) {
        lemma_select_none_applicable(tasks, 0, data, sem);
    }
}

/// A sequence whose first task's preconditions fail has no plan; with no
/// task, it plans nothing and leaves the blackboard as it was.
pub proof fn law_sequence_stops_at_unmet(ts: Seq<VTask>, data: BoardView, sem: FloatSem)
    ensures
        ts.len() > 0 && !all_hold(pre_of(ts[0]), data, sem) ==> sequence_from(ts, 0, data, sem) is Failed,
        sequence_from(Seq::empty(), 0, data, sem) == Planning::Planned(Seq::empty(), data),
{
}

/// An action plans its own name and applies its effects.
pub proof fn law_action_plans_itself(
    pre: Seq<VCondition>,
    action: Seq<char>,
    effects: Seq<VEffect>,
    data: BoardView,
    sem: FloatSem,
)
    ensures
        decompose_spec(VTask::Action { pre, action, effects }, data, sem) == match effects_result(
            effects,
            data,
            sem,
        ) {
            Some(d) => Planning::Planned(seq![action], d),
            None => Planning::Faulted,
        },
{
}

/// What decomposing gives, in executable form.
pub enum Outcome {
    Planned(Vec<String>, Blackboard),
    Failed,
    Faulted,
}

impl Outcome {
    pub open spec fn view(&self) -> Planning {
        match self {
            Outcome::Planned(p, d) => Planning::Planned(strings_view(p@), d@),
            Outcome::Failed => Planning::Failed,
            Outcome::Faulted => Planning::Faulted,
        }
    }

    pub open spec fn wf(&self) -> bool {
        match self {
            Outcome::Planned(_, d) => d.wf(),
            _ => true,
        }
    }
}

/// An effect's int arithmetic cannot be carried out: it overflows `i32` or
/// divides by zero, where Rust's integer operators panic.
#[derive(Debug, Clone, Copy, PartialEq, Eq)]
pub struct ArithmeticFault;

/// The preconditions of a task.
pub fn get_preconditions(task: &Task) -> (r: &Vec<Condition>)
    ensures
        conds_view(r@) == pre_of(task@),
{
    match task {
        Task::Selector { preconditions, .. } => preconditions,
        Task::Sequence { preconditions, .. } => preconditions,
        Task::Action { preconditions, .. } => preconditions,
    }
}

pub(crate) fn append_strings(plan: &mut Vec<String>, more: Vec<String>)
    ensures
        strings_view(final(plan)@) == strings_view(old(plan)@) + strings_view(more@),
{
    let mut i: usize = 0;
    let ghost start = plan@;
    while i < more.len()
        invariant
            i <= more@.len(),
            strings_view(plan@) == strings_view(start) + strings_view(more@.take(i as int)),
        decreases more@.len() - i,
    {
        let ghost prev = plan@;
        plan.push(more[i].clone());
        proof {
            assert(strings_view(plan@) =~= strings_view(prev).push(more@[i as int]@));
            assert(strings_view(more@.take(i + 1)) =~= strings_view(more@.take(i as int)).push(
                more@[i as int]@,
            ));
            assert(strings_view(plan@) =~= strings_view(start) + strings_view(more@.take(i + 1)));
        }
        i = i + 1;
    }
    assert(more@.take(i as int) =~= more@);
}

/// Decomposes `task` on `data`: the plan with the blackboard it leaves, no
/// plan, or the fault of an effect whose int arithmetic cannot be carried out.
pub fn decompose_outcome<C, A>(task: &Task, data: &Blackboard, ops: &FloatOps<C, A>) -> (r: Outcome) where
    C: Fn(&Value, &Value) -> Option<Order>,
    A: Fn(ArithmeticOp, &Value, &Value) -> String,

    requires
        total(*ops),
        data.wf(),
    ensures
        r.wf(),
        forall|sem: FloatSem| #[trigger] models(*ops, sem) ==> r.view() == decompose_spec(task@, data@, sem),
    decreases task,
{
    match task {
        Task::Selector { tasks, .. } => {
            proof {
                lemma_tasks_view(tasks@);
            }
            let ghost ts = tasks_view(tasks@);
            let mut i: usize = 0;
            while i < tasks.len()
                invariant
                    total(*ops),
                    data.wf(),
                    *task is Selector,
                    (*task)->Selector_tasks == *tasks,
                    ts == tasks_view(tasks@),
                    ts.len() == tasks@.len(),
                    forall|j: int| 0 <= j < tasks@.len() ==> #[trigger] ts[j] == task_view(tasks@[j]),
                    i <= tasks@.len(),
                    forall|sem: FloatSem| #[trigger]
                        models(*ops, sem) ==> select_from(ts, 0, data@, sem) == select_from(
                            ts,
                            i as int,
                            data@,
                            sem,
                        ),
                decreases tasks@.len() - i,
            {
                let child = &tasks[i];
                let met = is_met(get_preconditions(child), data, ops);
                if met {
                    proof {
                        assert(decreases_to!(*task => *tasks));
                        assert(decreases_to!(*tasks => tasks@));
                        assert(decreases_to!(tasks@ => tasks@[i as int]));
                    }
                    return decompose_outcome(child, data, ops);
                }
                i = i + 1;
            }
            Outcome::Failed
        },
        Task::Sequence { tasks, .. } => {
            proof {
                lemma_tasks_view(tasks@);
            }
            let ghost ts = tasks_view(tasks@);
            let mut plan: Vec<String> = Vec::new();
            let mut state = data.duplicate();
            let mut i: usize = 0;
            while i < tasks.len()
                invariant
                    total(*ops),
                    data.wf(),
                    state.wf(),
                    *task is Sequence,
                    (*task)->Sequence_tasks == *tasks,
                    ts == tasks_view(tasks@),
                    ts.len() == tasks@.len(),
                    forall|j: int| 0 <= j < tasks@.len() ==> #[trigger] ts[j] == task_view(tasks@[j]),
                    i <= tasks@.len(),
                    forall|sem: FloatSem| #[trigger]
                        models(*ops, sem) ==> sequence_from(ts, 0, data@, sem) == prepend(
                            strings_view(plan@),
                            sequence_from(ts, i as int, state@, sem),
                        ),
                decreases tasks@.len() - i,
            {
                let child = &tasks[i];
                let met = is_met(get_preconditions(child), &state, ops);
                if !met {
                    return Outcome::Failed;
                }
                proof {
                    assert(decreases_to!(*task => *tasks));
                    assert(decreases_to!(*tasks => tasks@));
                    assert(decreases_to!(tasks@ => tasks@[i as int]));
                }
                let sub = decompose_outcome(child, &state, ops);
                match sub {
                    Outcome::Planned(p, next) => {
                        let ghost before = plan@;
                        let ghost old_state = state@;
                        append_strings(&mut plan, p);
                        state = next;
                        proof {
                            assert forall|sem: FloatSem| #[trigger] models(*ops, sem) implies sequence_from(
                                ts,
                                0,
                                data@,
                                sem,
                            ) == prepend(strings_view(plan@), sequence_from(ts, i + 1, state@, sem)) by {
                                let rest = sequence_from(ts, i + 1, state@, sem);
                                match rest {
                                    Planning::Planned(q, d) => {
                                        assert(strings_view(plan@) + q =~= strings_view(before) + (
                                        strings_view(p@) + q));
                                    },
                                    _ => {},
                                }
                            }
                        }
                    },
                    Outcome::Failed => {
                        return Outcome::Failed;
                    },
                    Outcome::Faulted => {
                        return Outcome::Faulted;
                    },
                }
                i = i + 1;
            }
            proof {
                assert forall|sem: FloatSem| #[trigger] models(*ops, sem) implies sequence_from(
                    ts,
                    0,
                    data@,
                    sem,
                ) == Planning::Planned(strings_view(plan@), state@) by {
                    assert(strings_view(plan@) + Seq::empty() =~= strings_view(plan@));
                }
            }
            Outcome::Planned(plan, state)
        },
        Task::Action { action, effects, .. } => {
            let mut next = data.duplicate();
            let ok = try_apply_effects(effects.as_slice(), &mut next, ops);
            if ok {
                let mut plan: Vec<String> = Vec::new();
                plan.push(action.clone());
                proof {
                    assert(strings_view(plan@) =~= seq![action@]);
                }
                Outcome::Planned(plan, next)
            } else {
                Outcome::Faulted
            }
        },
    }
}

/// The plan for `task` on `data`, or the fault of an effect whose int
/// arithmetic cannot be carried out.
pub fn try_plan<C, A>(task: &Task, data: &Blackboard, ops: &FloatOps<C, A>) -> (r: Result<
    Option<Vec<String>>,
    ArithmeticFault,
>) where
    C: Fn(&Value, &Value) -> Option<Order>,
    A: Fn(ArithmeticOp, &Value, &Value) -> String,

    requires
        total(*ops),
        data.wf(),
    ensures
        forall|sem: FloatSem| #[trigger]
            models(*ops, sem) ==> match r {
                Ok(Some(p)) => plan_spec(task@, data@, sem) == Some(strings_view(p@)),
                Ok(None) => decompose_spec(task@, data@, sem) is Failed,
                Err(_) => decompose_spec(task@, data@, sem) is Faulted,
            },
{
    match decompose_outcome(task, data, ops) {
        Outcome::Planned(p, _) => Ok(Some(p)),
        Outcome::Failed => Ok(None),
        Outcome::Faulted => Err(ArithmeticFault),
    }
}

/// The plan for `task` on `data`: the action names to carry out, in order.
pub fn plan<C, A>(task: &Task, data: &Blackboard, ops: &FloatOps<C, A>) -> (r: Option<Vec<String>>) where
    C: Fn(&Value, &Value) -> Option<Order>,
    A: Fn(ArithmeticOp, &Value, &Value) -> String,

    requires
        total(*ops),
        data.wf(),
        never_faults(task@, data@, *ops),
    ensures
        forall|sem: FloatSem| #[trigger]
            models(*ops, sem) ==> match r {
                Some(p) => plan_spec(task@, data@, sem) == Some(strings_view(p@)),
                None => plan_spec(task@, data@, sem) is None,
            },
{
    match decompose_outcome(task, data, ops) {
        Outcome::Planned(p, _) => Some(p),
        _ => None,
    }
}

/// The plan for `task` on `data` together with the blackboard its effects
/// leave.
pub fn decompose<C, A>(task: &Task, data: &Blackboard, ops: &FloatOps<C, A>) -> (r: Option<(Vec<String>, Blackboard)>) where
    C: Fn(&Value, &Value) -> Option<Order>,
    A: Fn(ArithmeticOp, &Value, &Value) -> String,

    requires
        total(*ops),
        data.wf(),
        never_faults(task@, data@, *ops),
    ensures
        forall|sem: FloatSem| #[trigger]
            models(*ops, sem) ==> match r {
                Some((p, d)) => d.wf() && decompose_spec(task@, data@, sem) == Planning::Planned(
                    strings_view(p@),
                    d@,
                ),
                None => decompose_spec(task@, data@, sem) is Failed,
            },
{
    match decompose_outcome(task, data, ops) {
        Outcome::Planned(p, d) => Some((p, d)),
        _ => None,
    }
}

} // verus!
