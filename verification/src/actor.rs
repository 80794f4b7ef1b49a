//! The decisions of an actor that asks a thinker for plans and runs their
//! actions one after another.
//!
//! The machine does no outside work itself. Each call of [`ActorMachine::step`]
//! takes the answer to the previous command (or a new event) and returns the
//! next command; the caller performs it (asks the thinker, looks an action up,
//! enters, updates or exits the current action) and hands the answer back.
use vstd::prelude::*;

use crate::htn::strings_view;

verus! {

/// The two states of the actor.
#[derive(Debug, Clone, Copy, PartialEq, Eq)]
pub enum Mode {
    Idle,
    Executing,
}

/// What drives the actor: a request to think again, or a frame tick.
#[derive(Debug, Clone, Copy, PartialEq, Eq)]
pub enum ActorEvent {
    Plan,
    Tick,
}

/// What an action reports when it is entered.
#[derive(Debug, Clone, Copy, PartialEq, Eq)]
pub enum ActionEnterStatus {
    Success,
    Failed,
}

/// What an action reports on each update.
#[derive(Debug, Clone, Copy, PartialEq, Eq)]
pub enum ActionUpdateStatus {
    Success,
    Failed,
    OnGoing,
}

/// Which event is being handled.
#[derive(Debug, Clone, Copy, PartialEq, Eq)]
pub enum Flow {
    Plan,
    Tick,
}

/// Where the machine stands inside the handling of an event.
#[derive(Debug, Clone, Copy, PartialEq, Eq)]
pub enum Phase {
    /// Waiting for the next event.
    Ready,
    /// Asked the thinker for a plan.
    Thinking,
    /// Asked to exit the current action before a new plan starts.
    ExitingForPlan,
    /// Asked to look the pending action up in the library.
    LookingUp(Flow),
    /// Asked to enter the current action.
    Entering(Flow),
    /// Asked to update the current action.
    Updating,
    /// Asked to exit the current action after it succeeded.
    ExitingAfterSuccess,
    /// Asked to exit the current action after it failed.
    ExitingAfterFailure,
}

/// An answer handed to the machine: a new event or the result of a command.
pub enum Reply {
    Event(ActorEvent),
    /// What the thinker proposed, if anything.
    Thought(Option<Vec<String>>),
    /// Whether the library holds the looked-up action.
    Found(bool),
    /// What entering gave; `None` where the actor's blackboard was missing.
    Entered(Option<ActionEnterStatus>),
    /// What updating gave; `None` where the actor's blackboard was missing.
    Updated(Option<ActionUpdateStatus>),
    /// Whether exiting ran (false where the actor's blackboard was missing).
    Exited(bool),
}

/// The work the machine asks for next.
#[derive(Debug, PartialEq, Eq)]
pub enum Command {
    Think,
    /// Look this action up and make it the current one.
    Lookup(String),
    Enter,
    Update,
    Exit,
    /// The event has been handled.
    Done,
}

/// The model of a `Reply`.
pub enum ReplyView {
    Event(ActorEvent),
    Thought(Option<Seq<Seq<char>>>),
    Found(bool),
    Entered(Option<ActionEnterStatus>),
    Updated(Option<ActionUpdateStatus>),
    Exited(bool),
}

/// The model of a `Command`.
pub enum CommandView {
    Think,
    Lookup(Seq<char>),
    Enter,
    Update,
    Exit,
    Done,
}

impl Reply {
    pub open spec fn view(&self) -> ReplyView {
        match self {
            Reply::Event(e) => ReplyView::Event(*e),
            Reply::Thought(t) => ReplyView::Thought(
                match t {
                    Some(p) => Some(strings_view(p@)),
                    None => None,
                },
            ),
            Reply::Found(b) => ReplyView::Found(*b),
            Reply::Entered(s) => ReplyView::Entered(*s),
            Reply::Updated(s) => ReplyView::Updated(*s),
            Reply::Exited(b) => ReplyView::Exited(*b),
        }
    }
}

impl Command {
    pub open spec fn view(&self) -> CommandView {
        match self {
            Command::Think => CommandView::Think,
            Command::Lookup(n) => CommandView::Lookup(n@),
            Command::Enter => CommandView::Enter,
            Command::Update => CommandView::Update,
            Command::Exit => CommandView::Exit,
            Command::Done => CommandView::Done,
        }
    }
}

/// The actor's state as mathematical values.
pub struct ActorView {
    pub mode: Mode,
    pub phase: Phase,
    /// The plan as the thinker last gave it.
    pub adopted: Seq<Seq<char>>,
    /// The actions of that plan that have not been started yet.
    pub queue: Seq<Seq<char>>,
    /// The action being run, if the library held it.
    pub current: Option<Seq<char>>,
    /// The action being looked up.
    pub pending: Seq<char>,
}

/// The decision machine of an actor.
pub struct ActorMachine {
    mode: Mode,
    phase: Phase,
    adopted: Vec<String>,
    queue: Vec<String>,
    current: Option<String>,
    pending: String,
}

impl View for ActorMachine {
    type V = ActorView;

    closed spec fn view(&self) -> ActorView {
        ActorView {
            mode: self.mode,
            phase: self.phase,
            adopted: strings_view(self.adopted@),
            queue: strings_view(self.queue@),
            current: match self.current {
                Some(c) => Some(c@),
                None => None,
            },
            pending: self.pending@,
        }
    }
}

/// Whether the phase waits for an answer of this kind.
pub open spec fn accepts_spec(phase: Phase, r: ReplyView) -> bool {
    match (phase, r) {
        (Phase::Ready, ReplyView::Event(_)) => true,
        (Phase::Thinking, ReplyView::Thought(_)) => true,
        (Phase::ExitingForPlan, ReplyView::Exited(_)) => true,
        (Phase::LookingUp(_), ReplyView::Found(_)) => true,
        (Phase::Entering(_), ReplyView::Entered(_)) => true,
        (Phase::Updating, ReplyView::Updated(_)) => true,
        (Phase::ExitingAfterSuccess, ReplyView::Exited(_)) => true,
        (Phase::ExitingAfterFailure, ReplyView::Exited(_)) => true,
        _ => false,
    }
}

/// A phase that works on the current action needs one.
pub open spec fn actor_wf(v: ActorView) -> bool {
    match v.phase {
        Phase::Ready | Phase::Thinking | Phase::LookingUp(_) => true,
        _ => v.current is Some,
    }
}

/// The end of an event: a handled plan event leaves the actor executing, a
/// failed one leaves its mode as it was; a tick that fails makes it idle.
pub open spec fn finish(v: ActorView, flow: Flow, ok: bool) -> (ActorView, CommandView) {
    let mode = if ok {
        Mode::Executing
    } else {
        match flow {
            Flow::Plan => v.mode,
            Flow::Tick => Mode::Idle,
        }
    };
    (ActorView { mode, phase: Phase::Ready, ..v }, CommandView::Done)
}

/// Take the next action of the plan, or fail where none is left.
pub open spec fn pop_next(v: ActorView, flow: Flow) -> (ActorView, CommandView) {
    if v.queue.len() == 0 {
        finish(v, flow, false)
    } else {
        (
            ActorView {
                phase: Phase::LookingUp(flow),
                pending: v.queue[0],
                queue: v.queue.drop_first(),
                ..v
            },
            CommandView::Lookup(v.queue[0]),
        )
    }
}

/// One step of the machine: the state after an answer, and the next command.
pub open spec fn step_spec(v: ActorView, r: ReplyView) -> (ActorView, CommandView) {
    match (v.phase, r) {
        (Phase::Ready, ReplyView::Event(ActorEvent::Plan)) => (
            ActorView { phase: Phase::Thinking, ..v },
            CommandView::Think,
        ),
        (Phase::Ready, ReplyView::Event(ActorEvent::Tick)) => match v.mode {
            Mode::Idle => (v, CommandView::Done),
            Mode::Executing => if v.current is Some {
                (ActorView { phase: Phase::Updating, ..v }, CommandView::Update)
            } else {
                finish(v, Flow::Tick, false)
            },
        },
        (Phase::Thinking, ReplyView::Thought(t)) => match t {
            None => finish(v, Flow::Plan, false),
            Some(p) => if p == v.adopted {
                finish(v, Flow::Plan, false)
            } else {
                let w = ActorView { adopted: p, queue: p, ..v };
                if w.current is Some {
                    (ActorView { phase: Phase::ExitingForPlan, ..w }, CommandView::Exit)
                } else {
                    pop_next(w, Flow::Plan)
                }
            },
        },
        (Phase::ExitingForPlan, ReplyView::Exited(_)) => pop_next(v, Flow::Plan),
        (Phase::LookingUp(flow), ReplyView::Found(found)) => if found {
            (
                ActorView { current: Some(v.pending), phase: Phase::Entering(flow), ..v },
                CommandView::Enter,
            )
        } else {
            finish(ActorView { current: None, ..v }, flow, false)
        },
        (Phase::Entering(flow), ReplyView::Entered(s)) => finish(
            v,
            flow,
            s == Some(ActionEnterStatus::Success),
        ),
        (Phase::Updating, ReplyView::Updated(u)) => match u {
            None => finish(v, Flow::Tick, false),
            Some(ActionUpdateStatus::Success) => (
                ActorView { phase: Phase::ExitingAfterSuccess, ..v },
                CommandView::Exit,
            ),
            Some(ActionUpdateStatus::Failed) => (
                ActorView { phase: Phase::ExitingAfterFailure, ..v },
                CommandView::Exit,
            ),
            Some(ActionUpdateStatus::OnGoing) => finish(v, Flow::Tick, true),
        },
        (Phase::ExitingAfterSuccess, ReplyView::Exited(ok)) => if ok {
            pop_next(v, Flow::Tick)
        } else {
            finish(v, Flow::Tick, false)
        },
        (Phase::ExitingAfterFailure, ReplyView::Exited(_)) => finish(v, Flow::Tick, false),
        _ => (v, CommandView::Done),
    }
}

/// How many more answers the phase can take before its event is handled.
pub open spec fn remaining(phase: Phase) -> nat {
    match phase {
        Phase::Ready => 0,
        Phase::Thinking => 4,
        Phase::ExitingForPlan => 3,
        Phase::LookingUp(_) => 2,
        Phase::Entering(_) => 1,
        Phase::Updating => 4,
        Phase::ExitingAfterSuccess => 3,
        Phase::ExitingAfterFailure => 1,
    }
}

/// Every step keeps the machine well formed, and the machine asks to enter,
/// update or exit an action only while it has a current action.
pub proof fn law_actions_need_a_current(v: ActorView, r: ReplyView)
    requires
        actor_wf(v),
        accepts_spec(v.phase, r),
    ensures
        actor_wf(step_spec(v, r).0),
        (step_spec(v, r).1 is Enter || step_spec(v, r).1 is Update || step_spec(v, r).1 is Exit)
            ==> step_spec(v, r).0.current is Some,
{
}

/// The handling of every event ends, after at most five answers: each answer
/// moves the machine closer to the end, and it is back at `Ready` exactly when
/// it says `Done`.
pub proof fn law_events_end(v: ActorView, r: ReplyView)
    requires
        accepts_spec(v.phase, r),
    ensures
        (step_spec(v, r).1 is Done) == (step_spec(v, r).0.phase is Ready),
        v.phase is Ready ==> remaining(step_spec(v, r).0.phase) <= 4,
        !(v.phase is Ready) ==> remaining(step_spec(v, r).0.phase) < remaining(v.phase),
{
}

/// A plan equal to the one the actor already follows changes nothing.
pub proof fn law_same_plan_ignored(v: ActorView)
    requires
        v.phase is Thinking,
    ensures
        step_spec(v, ReplyView::Thought(Some(v.adopted)))
            == (ActorView { phase: Phase::Ready, ..v }, CommandView::Done),
{
}

/// A different plan is adopted: it becomes the plan the actor follows.
pub proof fn law_new_plan_adopted(v: ActorView, p: Seq<Seq<char>>)
    requires
        v.phase is Thinking,
        p != v.adopted,
    ensures
        step_spec(v, ReplyView::Thought(Some(p))).0.adopted == p,
{
}

/// A tick does nothing to an idle actor.
pub proof fn law_idle_tick(v: ActorView)
    requires
        v.phase is Ready,
        v.mode is Idle,
    ensures
        step_spec(v, ReplyView::Event(ActorEvent::Tick)) == (v, CommandView::Done),
{
}

/// An action that fails is exited, and the actor then goes idle, whatever the
/// exit gave.
pub proof fn law_failure_idles(v: ActorView, exited: bool)
    requires
        v.phase is Updating,
    ensures
        step_spec(v, ReplyView::Updated(Some(ActionUpdateStatus::Failed))).1 is Exit,
        step_spec(
            step_spec(v, ReplyView::Updated(Some(ActionUpdateStatus::Failed))).0,
            ReplyView::Exited(exited),
        ).0.mode is Idle,
        step_spec(
            step_spec(v, ReplyView::Updated(Some(ActionUpdateStatus::Failed))).0,
            ReplyView::Exited(exited),
        ).1 is Done,
{
}

/// Whether two plans name the same actions in the same order.
pub(crate) fn same_plan(a: &Vec<String>, b: &Vec<String>) -> (r: bool)
    ensures
        r == (strings_view(a@) == strings_view(b@)),
{
    if a.len() != b.len() {
        proof {
            assert(strings_view(a@).len() != strings_view(b@).len());
        }
        return false;
    }
    let mut i: usize = 0;
    while i < a.len()
        invariant
            a.len() == b.len(),
            i <= a.len(),
            forall|j: int| 0 <= j < i ==> a@[j]@ == b@[j]@,
        decreases a.len() - i,
    {
        if a[i] != b[i] {
            proof {
                assert(strings_view(a@)[i as int] != strings_view(b@)[i as int]);
            }
            return false;
        }
        i += 1;
    }
    proof {
        assert(strings_view(a@) =~= strings_view(b@));
    }
    true
}

impl ActorMachine {
    pub closed spec fn wf(&self) -> bool {
        actor_wf(self@)
    }

    /// A fresh actor: idle, with no plan and no action.
    pub fn new() -> (m: Self)
        ensures
            m.wf(),
            m@ == (ActorView {
                mode: Mode::Idle,
                phase: Phase::Ready,
                adopted: Seq::empty(),
                queue: Seq::empty(),
                current: None,
                pending: Seq::empty(),
            }),
    {
        let m = ActorMachine {
            mode: Mode::Idle,
            phase: Phase::Ready,
            adopted: Vec::new(),
            queue: Vec::new(),
            current: None,
            pending: String::new(),
        };
        proof {
            assert(strings_view(m.adopted@) =~= Seq::empty());
            assert(strings_view(m.queue@) =~= Seq::empty());
        }
        m
    }

    pub fn mode(&self) -> (r: Mode)
        ensures
            r == self@.mode,
    {
        self.mode
    }

    pub fn phase(&self) -> (r: Phase)
        ensures
            r == self@.phase,
    {
        self.phase
    }

    /// Whether the machine waits for an answer of this kind.
    pub fn accepts(&self, reply: &Reply) -> (r: bool)
        ensures
            r == accepts_spec(self@.phase, reply@),
    {
        match (self.phase, reply) {
            (Phase::Ready, Reply::Event(_)) => true,
            (Phase::Thinking, Reply::Thought(_)) => true,
            (Phase::ExitingForPlan, Reply::Exited(_)) => true,
            (Phase::LookingUp(_), Reply::Found(_)) => true,
            (Phase::Entering(_), Reply::Entered(_)) => true,
            (Phase::Updating, Reply::Updated(_)) => true,
            (Phase::ExitingAfterSuccess, Reply::Exited(_)) => true,
            (Phase::ExitingAfterFailure, Reply::Exited(_)) => true,
            _ => false,
        }
    }

    fn finish_exec(&mut self, flow: Flow, ok: bool) -> (c: Command)
        ensures
            (final(self)@, c@) == finish(old(self)@, flow, ok),
    {
        if ok {
            self.mode = Mode::Executing;
        } else {
            match flow {
                Flow::Plan => {},
                Flow::Tick => {
                    self.mode = Mode::Idle;
                },
            }
        }
        self.phase = Phase::Ready;
        Command::Done
    }

    fn pop_next_exec(&mut self, flow: Flow) -> (c: Command)
        ensures
            (final(self)@, c@) == pop_next(old(self)@, flow),
    {
        if self.queue.len() == 0 {
            self.finish_exec(flow, false)
        } else {
            let ghost q = self.queue@;
            let name = self.queue.remove(0);
            proof {
                assert(strings_view(self.queue@) =~= strings_view(q).drop_first());
            }
            self.pending = name.clone();
            self.phase = Phase::LookingUp(flow);
            Command::Lookup(name)
        }
    }

    /// Take an answer and give the next command.
    pub fn step(&mut self, reply: Reply) -> (c: Command)
        requires
            old(self).wf(),
            accepts_spec(old(self)@.phase, reply@),
        ensures
            final(self).wf(),
            (final(self)@, c@) == step_spec(old(self)@, reply@),
    {
        match reply {
            Reply::Event(ActorEvent::Plan) => {
                self.phase = Phase::Thinking;
                Command::Think
            },
            Reply::Event(ActorEvent::Tick) => match self.mode {
                Mode::Idle => Command::Done,
                Mode::Executing => if self.current.is_some() {
                    self.phase = Phase::Updating;
                    Command::Update
                } else {
                    self.finish_exec(Flow::Tick, false)
                },
            },
            Reply::Thought(t) => match t {
                None => self.finish_exec(Flow::Plan, false),
                Some(p) => if same_plan(&p, &self.adopted) {
                    self.finish_exec(Flow::Plan, false)
                } else {
                    self.adopted = p.clone();
                    proof {
                        assert(strings_view(self.adopted@) =~= strings_view(p@));
                    }
                    self.queue = p;
                    if self.current.is_some() {
                        self.phase = Phase::ExitingForPlan;
                        Command::Exit
                    } else {
                        self.pop_next_exec(Flow::Plan)
                    }
                },
            },
            Reply::Found(found) => {
                let flow = match self.phase {
                    Phase::LookingUp(f) => f,
                    _ => Flow::Plan,
                };
                if found {
                    self.current = Some(self.pending.clone());
                    self.phase = Phase::Entering(flow);
                    Command::Enter
                } else {
                    self.current = None;
                    self.finish_exec(flow, false)
                }
            },
            Reply::Entered(s) => {
                let flow = match self.phase {
                    Phase::Entering(f) => f,
                    _ => Flow::Plan,
                };
                let ok = match s {
                    Some(ActionEnterStatus::Success) => true,
                    _ => false,
                };
                self.finish_exec(flow, ok)
            },
            Reply::Updated(u) => match u {
                None => self.finish_exec(Flow::Tick, false),
                Some(ActionUpdateStatus::Success) => {
                    self.phase = Phase::ExitingAfterSuccess;
                    Command::Exit
                },
                Some(ActionUpdateStatus::Failed) => {
                    self.phase = Phase::ExitingAfterFailure;
                    Command::Exit
                },
                Some(ActionUpdateStatus::OnGoing) => self.finish_exec(Flow::Tick, true),
            },
            Reply::Exited(ok) => match self.phase {
                Phase::ExitingForPlan => self.pop_next_exec(Flow::Plan),
                Phase::ExitingAfterSuccess => if ok {
                    self.pop_next_exec(Flow::Tick)
                } else {
                    self.finish_exec(Flow::Tick, false)
                },
                _ => self.finish_exec(Flow::Tick, false),
            },
        }
    }
}

} // verus!
