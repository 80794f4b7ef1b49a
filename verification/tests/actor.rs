use pyro::actor::{
    ActionEnterStatus, ActionUpdateStatus, ActorEvent, ActorMachine, Command, Mode, Phase, Reply,
};

fn plan_of(names: &[&str]) -> Vec<String> {
    names.iter().map(|n| n.to_string()).collect()
}

/// Drives a plan event with a thinker that proposes `names`, a library that
/// holds every action and actions that enter successfully.
fn adopt(m: &mut ActorMachine, names: &[&str]) -> Vec<Command> {
    let mut seen = Vec::new();
    let mut c = m.step(Reply::Event(ActorEvent::Plan));
    loop {
        let reply = match &c {
            Command::Think => Reply::Thought(Some(plan_of(names))),
            Command::Exit => Reply::Exited(true),
            Command::Lookup(_) => Reply::Found(true),
            Command::Enter => Reply::Entered(Some(ActionEnterStatus::Success)),
            Command::Update => panic!("no update during a plan event"),
            Command::Done => break,
        };
        seen.push(c);
        c = m.step(reply);
    }
    seen
}

#[test]
fn new_actor_is_idle_and_ready() {
    let m = ActorMachine::new();
    assert_eq!(m.mode(), Mode::Idle);
    assert_eq!(m.phase(), Phase::Ready);
}

#[test]
fn tick_on_idle_actor_does_nothing() {
    let mut m = ActorMachine::new();
    assert_eq!(m.step(Reply::Event(ActorEvent::Tick)), Command::Done);
    assert_eq!(m.mode(), Mode::Idle);
    assert_eq!(m.phase(), Phase::Ready);
}

#[test]
fn new_plan_starts_its_first_action() {
    let mut m = ActorMachine::new();
    let seen = adopt(&mut m, &["walk", "eat"]);
    assert_eq!(
        seen,
        vec![Command::Think, Command::Lookup("walk".to_string()), Command::Enter]
    );
    assert_eq!(m.mode(), Mode::Executing);
    assert_eq!(m.phase(), Phase::Ready);
}

#[test]
fn same_plan_again_is_ignored() {
    let mut m = ActorMachine::new();
    adopt(&mut m, &["walk", "eat"]);
    assert_eq!(m.step(Reply::Event(ActorEvent::Plan)), Command::Think);
    assert_eq!(m.step(Reply::Thought(Some(plan_of(&["walk", "eat"])))), Command::Done);
    assert_eq!(m.mode(), Mode::Executing);
    // The plan was not restarted: after the first action succeeds, the second one comes.
    assert_eq!(m.step(Reply::Event(ActorEvent::Tick)), Command::Update);
    assert_eq!(m.step(Reply::Updated(Some(ActionUpdateStatus::Success))), Command::Exit);
    assert_eq!(m.step(Reply::Exited(true)), Command::Lookup("eat".to_string()));
}

#[test]
fn different_plan_exits_current_action_first() {
    let mut m = ActorMachine::new();
    adopt(&mut m, &["walk"]);
    let seen = adopt(&mut m, &["sleep"]);
    assert_eq!(
        seen,
        vec![
            Command::Think,
            Command::Exit,
            Command::Lookup("sleep".to_string()),
            Command::Enter
        ]
    );
    assert_eq!(m.mode(), Mode::Executing);
}

#[test]
fn no_thought_leaves_idle_actor_idle() {
    let mut m = ActorMachine::new();
    assert_eq!(m.step(Reply::Event(ActorEvent::Plan)), Command::Think);
    assert_eq!(m.step(Reply::Thought(None)), Command::Done);
    assert_eq!(m.mode(), Mode::Idle);
}

#[test]
fn empty_plan_is_not_started() {
    let mut m = ActorMachine::new();
    assert_eq!(m.step(Reply::Event(ActorEvent::Plan)), Command::Think);
    assert_eq!(m.step(Reply::Thought(Some(Vec::new()))), Command::Done);
    assert_eq!(m.mode(), Mode::Idle);
}

#[test]
fn missing_action_leaves_actor_idle() {
    let mut m = ActorMachine::new();
    m.step(Reply::Event(ActorEvent::Plan));
    assert_eq!(
        m.step(Reply::Thought(Some(plan_of(&["fly"])))),
        Command::Lookup("fly".to_string())
    );
    assert_eq!(m.step(Reply::Found(false)), Command::Done);
    assert_eq!(m.mode(), Mode::Idle);
    // With no current action, a tick does nothing more than stay idle.
    assert_eq!(m.step(Reply::Event(ActorEvent::Tick)), Command::Done);
}

#[test]
fn failed_entry_leaves_actor_idle() {
    let mut m = ActorMachine::new();
    m.step(Reply::Event(ActorEvent::Plan));
    m.step(Reply::Thought(Some(plan_of(&["walk"]))));
    assert_eq!(m.step(Reply::Found(true)), Command::Enter);
    assert_eq!(m.step(Reply::Entered(Some(ActionEnterStatus::Failed))), Command::Done);
    assert_eq!(m.mode(), Mode::Idle);
}

#[test]
fn ongoing_action_keeps_running() {
    let mut m = ActorMachine::new();
    adopt(&mut m, &["walk"]);
    assert_eq!(m.step(Reply::Event(ActorEvent::Tick)), Command::Update);
    assert_eq!(m.step(Reply::Updated(Some(ActionUpdateStatus::OnGoing))), Command::Done);
    assert_eq!(m.mode(), Mode::Executing);
}

#[test]
fn failed_action_is_exited_and_actor_goes_idle() {
    let mut m = ActorMachine::new();
    adopt(&mut m, &["walk", "eat"]);
    assert_eq!(m.step(Reply::Event(ActorEvent::Tick)), Command::Update);
    assert_eq!(m.step(Reply::Updated(Some(ActionUpdateStatus::Failed))), Command::Exit);
    assert_eq!(m.step(Reply::Exited(true)), Command::Done);
    assert_eq!(m.mode(), Mode::Idle);
}

#[test]
fn last_action_succeeding_leaves_actor_idle() {
    let mut m = ActorMachine::new();
    adopt(&mut m, &["walk"]);
    m.step(Reply::Event(ActorEvent::Tick));
    assert_eq!(m.step(Reply::Updated(Some(ActionUpdateStatus::Success))), Command::Exit);
    assert_eq!(m.step(Reply::Exited(true)), Command::Done);
    assert_eq!(m.mode(), Mode::Idle);
}

#[test]
fn missing_blackboard_on_update_leaves_actor_idle() {
    let mut m = ActorMachine::new();
    adopt(&mut m, &["walk"]);
    m.step(Reply::Event(ActorEvent::Tick));
    assert_eq!(m.step(Reply::Updated(None)), Command::Done);
    assert_eq!(m.mode(), Mode::Idle);
}

#[test]
fn accepts_only_the_awaited_answer() {
    let mut m = ActorMachine::new();
    assert!(m.accepts(&Reply::Event(ActorEvent::Plan)));
    assert!(!m.accepts(&Reply::Found(true)));
    m.step(Reply::Event(ActorEvent::Plan));
    assert!(m.accepts(&Reply::Thought(None)));
    assert!(!m.accepts(&Reply::Event(ActorEvent::Tick)));
}
