use pyro::fact_htn::{is_met, FactBoard, HtnPlanner, Node, Selector, Sequence, Task};

fn pairs(ps: &[(&str, bool)]) -> Vec<(String, bool)> {
    ps.iter().map(|(k, v)| (k.to_string(), *v)).collect()
}

fn board(ps: &[(&str, bool)]) -> FactBoard {
    let mut b = FactBoard::new();
    for (k, v) in ps {
        b.set(k.to_string(), *v);
    }
    b
}

fn task(pre: &[(&str, bool)], effects: &[(&str, bool)], op: &str) -> Node {
    Node::Task(Task {
        preconditions: pairs(pre),
        effects: pairs(effects),
        operator: op.to_string(),
    })
}

#[test]
fn board_set_and_get() {
    let mut b = board(&[("hungry", true)]);
    assert_eq!(b.get(&"hungry".to_string()), Some(true));
    b.set("hungry".to_string(), false);
    assert_eq!(b.get(&"hungry".to_string()), Some(false));
    assert_eq!(b.get(&"tired".to_string()), None);
}

#[test]
fn facts_meet_preconditions() {
    let b = board(&[("a", true), ("b", false)]);
    assert!(is_met(&pairs(&[("a", true), ("b", false)]), &b));
    assert!(is_met(&pairs(&[]), &b));
    assert!(!is_met(&pairs(&[("a", false)]), &b));
    // An unset fact fails, whatever value is asked for.
    assert!(!is_met(&pairs(&[("c", false)]), &b));
}

#[test]
fn task_plans_operator_and_sets_effects() {
    let t = Task {
        preconditions: pairs(&[]),
        effects: pairs(&[("fed", true), ("hungry", false)]),
        operator: "eat".to_string(),
    };
    let b = board(&[("hungry", true)]);
    let (ops, after) = t.decompose(&b);
    assert_eq!(ops, vec!["eat".to_string()]);
    assert_eq!(after.get(&"fed".to_string()), Some(true));
    assert_eq!(after.get(&"hungry".to_string()), Some(false));
    // The facts given are left as they were.
    assert_eq!(b.get(&"hungry".to_string()), Some(true));
}

#[test]
fn sequence_plans_tasks_in_turn() {
    let q = Sequence {
        preconditions: pairs(&[]),
        tasks: vec![
            task(&[("hungry", true)], &[("has_food", true)], "find_food"),
            task(&[("hungry", true)], &[("hungry", false)], "eat"),
        ],
    };
    let b = board(&[("hungry", true)]);
    let (ops, after) = q.decompose(&b);
    assert_eq!(ops, vec!["find_food".to_string(), "eat".to_string()]);
    // Each task plans on the facts the sequence started with, and the facts
    // that come out are those of the last task.
    assert_eq!(after.get(&"hungry".to_string()), Some(false));
    assert_eq!(after.get(&"has_food".to_string()), None);
}

#[test]
fn sequence_stops_at_unmet_task_with_what_it_gathered() {
    let q = Sequence {
        preconditions: pairs(&[]),
        tasks: vec![
            task(&[], &[("walked", true)], "walk"),
            task(&[("tired", true)], &[], "rest"),
            task(&[], &[], "never"),
        ],
    };
    let b = board(&[]);
    let (ops, after) = q.decompose(&b);
    assert_eq!(ops, vec!["walk".to_string()]);
    assert_eq!(after.get(&"walked".to_string()), None);
}

#[test]
fn selector_tries_first_sequence_only() {
    let s = Selector {
        preconditions: pairs(&[]),
        sequences: vec![
            Sequence { preconditions: pairs(&[("night", true)]), tasks: vec![task(&[], &[], "sleep")] },
            Sequence { preconditions: pairs(&[]), tasks: vec![task(&[], &[], "work")] },
        ],
    };
    let day = board(&[("night", false)]);
    let (ops, _) = s.decompose(&day);
    assert!(ops.is_empty());
    let night = board(&[("night", true)]);
    let (ops, _) = s.decompose(&night);
    assert_eq!(ops, vec!["sleep".to_string()]);
}

#[test]
fn selector_inside_sequence() {
    let inner = Node::Selector(Selector {
        preconditions: pairs(&[("awake", true)]),
        sequences: vec![Sequence {
            preconditions: pairs(&[]),
            tasks: vec![task(&[], &[("coffee", true)], "brew")],
        }],
    });
    let q = Sequence {
        preconditions: pairs(&[]),
        tasks: vec![task(&[], &[], "stretch"), inner],
    };
    let (ops, after) = q.decompose(&board(&[("awake", true)]));
    assert_eq!(ops, vec!["stretch".to_string(), "brew".to_string()]);
    assert_eq!(after.get(&"coffee".to_string()), Some(true));
}

#[test]
fn planner_keeps_last_nonempty_plan() {
    let s = Selector {
        preconditions: pairs(&[]),
        sequences: vec![Sequence {
            preconditions: pairs(&[("ready", true)]),
            tasks: vec![task(&[], &[], "go")],
        }],
    };
    let mut p = HtnPlanner::new();
    p.plan(&s, &board(&[("ready", true)]));
    assert_eq!(p.operators(), &vec!["go".to_string()]);
    p.plan(&s, &board(&[("ready", false)]));
    assert_eq!(p.operators(), &vec!["go".to_string()]);
}
