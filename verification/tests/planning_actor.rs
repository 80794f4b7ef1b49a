use pyro::actor::{ActionEnterStatus, ActionUpdateStatus, ActorEvent, Command, Reply};
use pyro::planning_actor::{PlanningActor, QueueActor, Stage, Step};

fn names(ns: &[&str]) -> Vec<String> {
    ns.iter().map(|n| n.to_string()).collect()
}

#[test]
fn plan_event_moves_idle_actor_to_planning() {
    let mut m = PlanningActor::new();
    assert_eq!(m.step(Reply::Event(ActorEvent::Plan)), Command::Done);
    assert_eq!(m.stage(), Stage::Planning);
    // The next event, whatever it is, asks for a plan.
    assert_eq!(m.step(Reply::Event(ActorEvent::Tick)), Command::Think);
    assert_eq!(m.step_kind(), Step::Thinking);
}

#[test]
fn new_plan_starts_first_action() {
    let mut m = PlanningActor::new();
    m.step(Reply::Event(ActorEvent::Plan));
    m.step(Reply::Event(ActorEvent::Tick));
    assert_eq!(
        m.step(Reply::Thought(Some(names(&["walk", "eat"])))),
        Command::Lookup("walk".to_string())
    );
    assert_eq!(m.step(Reply::Found(true)), Command::Enter);
    assert_eq!(m.step(Reply::Entered(Some(ActionEnterStatus::Success))), Command::Done);
    assert_eq!(m.stage(), Stage::Executing);
}

#[test]
fn tick_while_executing_without_current_action_goes_idle() {
    let mut m = PlanningActor::new();
    m.step(Reply::Event(ActorEvent::Plan));
    m.step(Reply::Event(ActorEvent::Tick));
    m.step(Reply::Thought(Some(names(&["walk"]))));
    m.step(Reply::Found(true));
    m.step(Reply::Entered(Some(ActionEnterStatus::Success)));
    // Starting an action does not make it the current one.
    assert_eq!(m.step(Reply::Event(ActorEvent::Tick)), Command::Done);
    assert_eq!(m.stage(), Stage::Idle);
}

#[test]
fn same_plan_sends_planning_actor_idle() {
    let mut m = PlanningActor::new();
    m.step(Reply::Event(ActorEvent::Plan));
    m.step(Reply::Event(ActorEvent::Tick));
    m.step(Reply::Thought(Some(names(&["walk"]))));
    m.step(Reply::Found(false));
    assert_eq!(m.stage(), Stage::Executing);
    assert_eq!(m.step(Reply::Event(ActorEvent::Plan)), Command::Done);
    assert_eq!(m.stage(), Stage::Planning);
    assert_eq!(m.step(Reply::Event(ActorEvent::Plan)), Command::Think);
    assert_eq!(m.step(Reply::Thought(Some(names(&["walk"])))), Command::Done);
    assert_eq!(m.stage(), Stage::Idle);
}

#[test]
fn no_plan_sends_planning_actor_idle() {
    let mut m = PlanningActor::new();
    m.step(Reply::Event(ActorEvent::Plan));
    m.step(Reply::Event(ActorEvent::Plan));
    assert_eq!(m.step(Reply::Thought(None)), Command::Done);
    assert_eq!(m.stage(), Stage::Idle);
}

#[test]
fn queue_actor_starts_handed_actions() {
    let mut m = QueueActor::new();
    assert_eq!(m.set_actions(Vec::new()), Command::Done);
    assert_eq!(m.stage(), Stage::Idle);
    assert_eq!(m.set_actions(names(&["a", "b"])), Command::Lookup("a".to_string()));
    assert_eq!(m.step(Reply::Found(true)), Command::Enter);
    assert_eq!(m.step(Reply::Entered(Some(ActionEnterStatus::Success))), Command::Done);
    assert_eq!(m.stage(), Stage::Executing);
    // New actions while executing start the first of them.
    assert_eq!(m.set_actions(names(&["c"])), Command::Lookup("c".to_string()));
    assert_eq!(m.step(Reply::Found(false)), Command::Done);
    assert_eq!(m.stage(), Stage::Executing);
    // No actions while executing: idle.
    assert_eq!(m.set_actions(Vec::new()), Command::Done);
    assert_eq!(m.stage(), Stage::Idle);
}

#[test]
fn queue_actor_ignores_ticks_when_idle() {
    let mut m = QueueActor::new();
    assert_eq!(m.step(Reply::Event(ActorEvent::Tick)), Command::Done);
    assert_eq!(m.stage(), Stage::Idle);
    assert!(!m.awaits(&Reply::Event(ActorEvent::Plan)));
    assert!(m.awaits(&Reply::Event(ActorEvent::Tick)));
    let _ = ActionUpdateStatus::OnGoing;
}
