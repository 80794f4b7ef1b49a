//! The decisions of an actor with a planning state: an event while planning
//! asks the task network for a plan, and the executing state starts the next
//! action of the plan when it is entered and stops the current one when it is
//! left.
//!
//! As in [`crate::actor`], the machine does no outside work itself: each
//! [`PlanningActor::step`] takes the answer to the previous command (or a new
//! event) and gives the next command.
use vstd::prelude::*;

use crate::actor::{
    same_plan, ActionUpdateStatus, ActorEvent, Command, CommandView, Reply, ReplyView,
};
use crate::htn::strings_view;

verus! {

/// The three states of the actor.
#[derive(Debug, Clone, Copy, PartialEq, Eq)]
pub enum Stage {
    Idle,
    Planning,
    Executing,
}

/// Where the machine stands inside the handling of an event.
#[derive(Debug, Clone, Copy, PartialEq, Eq)]
pub enum Step {
    /// Waiting for the next event.
    Ready,
    /// Asked the task network for a plan.
    Thinking,
    /// Asked to look up the action being started.
    LookingUp,
    /// Asked to enter the action being started.
    Entering,
    /// Asked to update the current action.
    Updating,
    /// Asked to exit the current action on leaving the executing state for
    /// the given one.
    Stopping(Stage),
}

/// The actor's state as mathematical values.
pub struct PlanningView {
    pub stage: Stage,
    pub step: Step,
    pub adopted: Seq<Seq<char>>,
    pub queue: Seq<Seq<char>>,
    pub current: Option<Seq<char>>,
}

/// The decision machine of an actor with a planning state.
pub struct PlanningActor {
    stage: Stage,
    step: Step,
    adopted: Vec<String>,
    queue: Vec<String>,
    current: Option<String>,
}

impl View for PlanningActor {
    type V = PlanningView;

    closed spec fn view(&self) -> PlanningView {
        PlanningView {
            stage: self.stage,
            step: self.step,
            adopted: strings_view(self.adopted@),
            queue: strings_view(self.queue@),
            current: match self.current {
                Some(c) => Some(c@),
                None => None,
            },
        }
    }
}

/// Whether the step waits for an answer of this kind.
pub open spec fn awaits(step: Step, r: ReplyView) -> bool {
    match (step, r) {
        (Step::Ready, ReplyView::Event(_)) => true,
        (Step::Thinking, ReplyView::Thought(_)) => true,
        (Step::LookingUp, ReplyView::Found(_)) => true,
        (Step::Entering, ReplyView::Entered(_)) => true,
        (Step::Updating, ReplyView::Updated(_)) => true,
        (Step::Stopping(_), ReplyView::Exited(_)) => true,
        _ => false,
    }
}

/// A step that works on the current action needs one.
pub open spec fn planning_wf(v: PlanningView) -> bool {
    match v.step {
        Step::Updating | Step::Stopping(_) => v.current is Some,
        _ => true,
    }
}

/// The event has been handled, in the given state.
pub open spec fn settle(v: PlanningView, stage: Stage) -> (PlanningView, CommandView) {
    (PlanningView { stage, step: Step::Ready, ..v }, CommandView::Done)
}

/// Entering the executing state starts the next action of the plan: it is
/// taken off the plan and looked up; with no action left, nothing starts.
pub open spec fn start_next(v: PlanningView) -> (PlanningView, CommandView) {
    let w = PlanningView { stage: Stage::Executing, ..v };
    if w.queue.len() == 0 {
        settle(w, Stage::Executing)
    } else {
        (
            PlanningView { step: Step::LookingUp, queue: w.queue.drop_first(), ..w },
            CommandView::Lookup(w.queue[0]),
        )
    }
}

/// Leaving the executing state for `target` stops the current action, if
/// there is one; entering it again starts the next action.
pub open spec fn leave_executing(v: PlanningView, target: Stage) -> (PlanningView, CommandView) {
    if v.current is Some {
        (PlanningView { step: Step::Stopping(target), ..v }, CommandView::Exit)
    } else {
        arrive(v, target)
    }
}

/// The state after the current action was stopped.
pub open spec fn arrive(v: PlanningView, target: Stage) -> (PlanningView, CommandView) {
    let w = PlanningView { current: None, ..v };
    if target == Stage::Executing {
        start_next(w)
    } else {
        settle(w, target)
    }
}

/// One step of the machine: the state after an answer, and the next command.
pub open spec fn planning_step(v: PlanningView, r: ReplyView) -> (PlanningView, CommandView) {
    match (v.step, r) {
        (Step::Ready, ReplyView::Event(e)) => match v.stage {
            Stage::Idle => match e {
                ActorEvent::Plan => settle(v, Stage::Planning),
                ActorEvent::Tick => settle(v, Stage::Idle),
            },
            Stage::Planning => (PlanningView { step: Step::Thinking, ..v }, CommandView::Think),
            Stage::Executing => match e {
                ActorEvent::Tick => if v.current is Some {
                    (PlanningView { step: Step::Updating, ..v }, CommandView::Update)
                } else {
                    leave_executing(v, Stage::Idle)
                },
                ActorEvent::Plan => leave_executing(v, Stage::Planning),
            },
        },
        (Step::Thinking, ReplyView::Thought(t)) => match t {
            None => settle(v, Stage::Idle),
            Some(p) => if p == v.adopted {
                settle(v, Stage::Idle)
            } else {
                start_next(PlanningView { adopted: p, queue: p, ..v })
            },
        },
        (Step::LookingUp, ReplyView::Found(found)) => if found {
            (PlanningView { step: Step::Entering, ..v }, CommandView::Enter)
        } else {
            settle(v, Stage::Executing)
        },
        (Step::Entering, ReplyView::Entered(_)) => settle(v, Stage::Executing),
        (Step::Updating, ReplyView::Updated(u)) => match u {
            Some(ActionUpdateStatus::OnGoing) => settle(v, Stage::Executing),
            Some(ActionUpdateStatus::Success) => if v.queue.len() > 0 {
                leave_executing(v, Stage::Executing)
            } else {
                leave_executing(v, Stage::Idle)
            },
            Some(ActionUpdateStatus::Failed) => leave_executing(v, Stage::Planning),
            None => leave_executing(v, Stage::Idle),
        },
        (Step::Stopping(target), ReplyView::Exited(_)) => arrive(v, target),
        _ => (v, CommandView::Done),
    }
}

/// Every step keeps the machine well formed, and it asks to update or exit an
/// action only while it has a current one.
pub proof fn law_planning_needs_current(v: PlanningView, r: ReplyView)
    requires
        planning_wf(v),
        awaits(v.step, r),
    ensures
        planning_wf(planning_step(v, r).0),
        (planning_step(v, r).1 is Update || planning_step(v, r).1 is Exit) ==> planning_step(
            v,
            r,
        ).0.current is Some,
{
}

/// Starting an action never makes it the current one: an actor that has no
/// current action never gets one, so every tick while executing ends in the
/// idle state.
pub proof fn law_start_sets_no_current(v: PlanningView, r: ReplyView)
    requires
        v.current is None,
        awaits(v.step, r),
    ensures
        planning_step(v, r).0.current is None,
        (v.step is Ready && v.stage is Executing && r == ReplyView::Event(ActorEvent::Tick))
            ==> planning_step(v, r) == settle(v, Stage::Idle),
{
}

/// A plan equal to the one the actor already follows sends it back to idle,
/// with nothing else changed.
pub proof fn law_planning_same_plan_idles(v: PlanningView)
    requires
        v.step is Thinking,
    ensures
        planning_step(v, ReplyView::Thought(Some(v.adopted))) == settle(v, Stage::Idle),
{
}

/// A failed action sends the actor back to planning once it is stopped.
pub proof fn law_failure_replans(v: PlanningView, exited: bool)
    requires
        v.step is Updating,
        v.current is Some,
    ensures
        planning_step(v, ReplyView::Updated(Some(ActionUpdateStatus::Failed))).1 is Exit,
        planning_step(
            planning_step(v, ReplyView::Updated(Some(ActionUpdateStatus::Failed))).0,
            ReplyView::Exited(exited),
        ) == settle(PlanningView { current: None, ..v }, Stage::Planning),
{
}

impl PlanningActor {
    pub closed spec fn wf(&self) -> bool {
        planning_wf(self@)
    }

    /// A fresh actor: idle, with no plan and no action.
    pub fn new() -> (m: Self)
        ensures
            m.wf(),
            m@ == (PlanningView {
                stage: Stage::Idle,
                step: Step::Ready,
                adopted: Seq::empty(),
                queue: Seq::empty(),
                current: None,
            }),
    {
        let m = PlanningActor {
            stage: Stage::Idle,
            step: Step::Ready,
            adopted: Vec::new(),
            queue: Vec::new(),
            current: None,
        };
        proof {
            assert(strings_view(m.adopted@) =~= Seq::empty());
            assert(strings_view(m.queue@) =~= Seq::empty());
        }
        m
    }

    pub fn stage(&self) -> (r: Stage)
        ensures
            r == self@.stage,
    {
        self.stage
    }

    pub fn step_kind(&self) -> (r: Step)
        ensures
            r == self@.step,
    {
        self.step
    }

    /// Whether the machine waits for an answer of this kind.
    pub fn awaits(&self, reply: &Reply) -> (r: bool)
        ensures
            r == awaits(self@.step, reply@),
    {
        match (self.step, reply) {
            (Step::Ready, Reply::Event(_)) => true,
            (Step::Thinking, Reply::Thought(_)) => true,
            (Step::LookingUp, Reply::Found(_)) => true,
            (Step::Entering, Reply::Entered(_)) => true,
            (Step::Updating, Reply::Updated(_)) => true,
            (Step::Stopping(_), Reply::Exited(_)) => true,
            _ => false,
        }
    }

    fn settle_exec(&mut self, stage: Stage) -> (c: Command)
        ensures
            (final(self)@, c@) == settle(old(self)@, stage),
    {
        self.stage = stage;
        self.step = Step::Ready;
        Command::Done
    }

    fn start_next_exec(&mut self) -> (c: Command)
        ensures
            (final(self)@, c@) == start_next(old(self)@),
    {
        self.stage = Stage::Executing;
        if self.queue.len() == 0 {
            self.settle_exec(Stage::Executing)
        } else {
            let ghost q = self.queue@;
            let name = self.queue.remove(0);
            proof {
                assert(strings_view(self.queue@) =~= strings_view(q).drop_first());
            }
            self.step = Step::LookingUp;
            Command::Lookup(name)
        }
    }

    fn arrive_exec(&mut self, target: Stage) -> (c: Command)
        ensures
            (final(self)@, c@) == arrive(old(self)@, target),
    {
        self.current = None;
        match target {
            Stage::Executing => self.start_next_exec(),
            _ => self.settle_exec(target),
        }
    }

    fn leave_exec(&mut self, target: Stage) -> (c: Command)
        ensures
            (final(self)@, c@) == leave_executing(old(self)@, target),
    {
        if self.current.is_some() {
            self.step = Step::Stopping(target);
            Command::Exit
        } else {
            self.arrive_exec(target)
        }
    }

    /// Take an answer and give the next command.
    pub fn step(&mut self, reply: Reply) -> (c: Command)
        requires
            old(self).wf(),
            awaits(old(self)@.step, reply@),
        ensures
            final(self).wf(),
            (final(self)@, c@) == planning_step(old(self)@, reply@),
    {
        match reply {
            Reply::Event(e) => match self.stage {
                Stage::Idle => match e {
                    ActorEvent::Plan => self.settle_exec(Stage::Planning),
                    ActorEvent::Tick => self.settle_exec(Stage::Idle),
                },
                Stage::Planning => {
                    self.step = Step::Thinking;
                    Command::Think
                },
                Stage::Executing => match e {
                    ActorEvent::Tick => if self.current.is_some() {
                        self.step = Step::Updating;
                        Command::Update
                    } else {
                        self.leave_exec(Stage::Idle)
                    },
                    ActorEvent::Plan => self.leave_exec(Stage::Planning),
                },
            },
            Reply::Thought(t) => match t {
                None => self.settle_exec(Stage::Idle),
                Some(p) => if same_plan(&p, &self.adopted) {
                    self.settle_exec(Stage::Idle)
                } else {
                    self.adopted = p.clone();
                    proof {
                        assert(strings_view(self.adopted@) =~= strings_view(p@));
                    }
                    self.queue = p;
                    self.start_next_exec()
                },
            },
            Reply::Found(found) => if found {
                self.step = Step::Entering;
                Command::Enter
            } else {
                self.settle_exec(Stage::Executing)
            },
            Reply::Entered(_) => self.settle_exec(Stage::Executing),
            Reply::Updated(u) => match u {
                Some(ActionUpdateStatus::OnGoing) => self.settle_exec(Stage::Executing),
                Some(ActionUpdateStatus::Success) => if self.queue.len() > 0 {
                    self.leave_exec(Stage::Executing)
                } else {
                    self.leave_exec(Stage::Idle)
                },
                Some(ActionUpdateStatus::Failed) => self.leave_exec(Stage::Planning),
                None => self.leave_exec(Stage::Idle),
            },
            Reply::Exited(_) => {
                let target = match self.step {
                    Step::Stopping(t) => t,
                    _ => Stage::Idle,
                };
                self.arrive_exec(target)
            },
        }
    }
}

/// One step of the actor that is handed its actions: it has no planning
/// state, and a failed action makes it idle.
pub open spec fn queue_step(v: PlanningView, r: ReplyView) -> (PlanningView, CommandView) {
    match (v.step, r) {
        (Step::Ready, ReplyView::Event(ActorEvent::Tick)) => match v.stage {
            Stage::Executing => if v.current is Some {
                (PlanningView { step: Step::Updating, ..v }, CommandView::Update)
            } else {
                leave_executing(v, Stage::Idle)
            },
            _ => settle(v, v.stage),
        },
        (Step::Updating, ReplyView::Updated(u)) => match u {
            Some(ActionUpdateStatus::OnGoing) => settle(v, Stage::Executing),
            Some(ActionUpdateStatus::Success) => if v.queue.len() > 0 {
                leave_executing(v, Stage::Executing)
            } else {
                leave_executing(v, Stage::Idle)
            },
            _ => leave_executing(v, Stage::Idle),
        },
        (Step::LookingUp, _) | (Step::Entering, _) | (Step::Stopping(_), _) => planning_step(v, r),
        _ => (v, CommandView::Done),
    }
}

/// New actions handed to the actor: an idle actor starts them where there
/// are any; an executing one stops its current action and starts the first
/// new one, or goes idle where none were handed.
pub open spec fn queue_set_actions(v: PlanningView, p: Seq<Seq<char>>) -> (
    PlanningView,
    CommandView,
) {
    match v.stage {
        Stage::Executing => {
            let w = PlanningView { queue: p, ..v };
            if p.len() == 0 {
                leave_executing(w, Stage::Idle)
            } else {
                leave_executing(w, Stage::Executing)
            }
        },
        _ => if p.len() == 0 {
            settle(v, v.stage)
        } else {
            start_next(PlanningView { queue: p, ..v })
        },
    }
}

/// Whether the actor that is handed its actions waits for an answer of this
/// kind: it takes no request to plan.
pub open spec fn queue_awaits(step: Step, r: ReplyView) -> bool {
    awaits(step, r) && r != ReplyView::Event(ActorEvent::Plan) && !(r is Thought)
}

/// Actions handed to an idle actor are started only where there are some.
pub proof fn law_queue_empty_actions_ignored(v: PlanningView)
    requires
        v.step is Ready,
        v.stage is Idle,
    ensures
        queue_set_actions(v, Seq::empty()) == settle(v, Stage::Idle),
{
}

/// The decision machine of an actor that is handed the actions to run.
pub struct QueueActor {
    inner: PlanningActor,
}

impl View for QueueActor {
    type V = PlanningView;

    closed spec fn view(&self) -> PlanningView {
        self.inner@
    }
}

impl QueueActor {
    pub closed spec fn wf(&self) -> bool {
        &&& self.inner.wf()
        &&& self@.stage != Stage::Planning
        &&& self@.step != Step::Stopping(Stage::Planning)
    }

    /// A fresh actor: idle, with no actions.
    pub fn new() -> (m: Self)
        ensures
            m.wf(),
            m@ == (PlanningView {
                stage: Stage::Idle,
                step: Step::Ready,
                adopted: Seq::empty(),
                queue: Seq::empty(),
                current: None,
            }),
    {
        QueueActor { inner: PlanningActor::new() }
    }

    pub fn stage(&self) -> (r: Stage)
        ensures
            r == self@.stage,
    {
        self.inner.stage()
    }

    pub fn step_kind(&self) -> (r: Step)
        ensures
            r == self@.step,
    {
        self.inner.step_kind()
    }

    /// Whether the machine waits for an answer of this kind.
    pub fn awaits(&self, reply: &Reply) -> (r: bool)
        ensures
            r == queue_awaits(self@.step, reply@),
    {
        let ok = self.inner.awaits(reply);
        match reply {
            Reply::Event(ActorEvent::Plan) => false,
            Reply::Thought(_) => false,
            _ => ok,
        }
    }

    /// Hands the actor new actions to run.
    pub fn set_actions(&mut self, actions: Vec<String>) -> (c: Command)
        requires
            old(self).wf(),
            old(self)@.step is Ready,
        ensures
            final(self).wf(),
            (final(self)@, c@) == queue_set_actions(old(self)@, strings_view(actions@)),
    {
        let ghost p = strings_view(actions@);
        let empty = actions.len() == 0;
        proof {
            assert(empty == (p.len() == 0));
        }
        match self.inner.stage {
            Stage::Executing => {
                self.inner.queue = actions;
                if empty {
                    self.inner.leave_exec(Stage::Idle)
                } else {
                    self.inner.leave_exec(Stage::Executing)
                }
            },
            _ => if empty {
                let stage = self.inner.stage;
                self.inner.settle_exec(stage)
            } else {
                self.inner.queue = actions;
                self.inner.start_next_exec()
            },
        }
    }

    /// Take an answer, or a tick, and give the next command.
    pub fn step(&mut self, reply: Reply) -> (c: Command)
        requires
            old(self).wf(),
            queue_awaits(old(self)@.step, reply@),
        ensures
            final(self).wf(),
            (final(self)@, c@) == queue_step(old(self)@, reply@),
    {
        match reply {
            Reply::Event(_) => match self.inner.stage {
                Stage::Executing => if self.inner.current.is_some() {
                    self.inner.step = Step::Updating;
                    Command::Update
                } else {
                    self.inner.leave_exec(Stage::Idle)
                },
                _ => {
                    let stage = self.inner.stage;
                    self.inner.settle_exec(stage)
                },
            },
            Reply::Updated(u) => match u {
                Some(ActionUpdateStatus::OnGoing) => self.inner.settle_exec(Stage::Executing),
                Some(ActionUpdateStatus::Success) => if self.inner.queue.len() > 0 {
                    self.inner.leave_exec(Stage::Executing)
                } else {
                    self.inner.leave_exec(Stage::Idle)
                },
                _ => self.inner.leave_exec(Stage::Idle),
            },
            other => self.inner.step(other),
        }
    }
}

} // verus!
