use pyro::blackboard::Blackboard;
use pyro::condition::{eval, is_met, Condition};
use pyro::effect::{apply_effects, Effect};
use pyro::htn::{decompose, plan, try_plan, ArithmeticFault, Task};
use pyro::text::Order;
use pyro::value::{ArithmeticOp, ComparisonOp, FloatOps, Value};

fn as_f32(v: &Value) -> f32 {
    match v {
        Value::Int(i) => *i as f32,
        Value::Float(s) => s.parse::<f32>().unwrap(),
        _ => f32::NAN,
    }
}

fn float_ops() -> FloatOps<
    impl Fn(&Value, &Value) -> Option<Order>,
    impl Fn(ArithmeticOp, &Value, &Value) -> String,
> {
    FloatOps {
        compare: |a: &Value, b: &Value| {
            as_f32(a).partial_cmp(&as_f32(b)).map(|o| match o {
                std::cmp::Ordering::Less => Order::Less,
                std::cmp::Ordering::Equal => Order::Equal,
                std::cmp::Ordering::Greater => Order::Greater,
            })
        },
        arith: |op: ArithmeticOp, a: &Value, b: &Value| {
            let (x, y) = (as_f32(a), as_f32(b));
            let r = match op {
                ArithmeticOp::Add => x + y,
                ArithmeticOp::Sub => x - y,
                ArithmeticOp::Mult => x * y,
                ArithmeticOp::Div => x / y,
                ArithmeticOp::Eq => y,
            };
            r.to_string()
        },
    }
}

fn cond_eq(key: &str, v: Value) -> Condition {
    Condition::compare(key, ComparisonOp::E, v)
}

fn board(entries: Vec<(&str, Value)>) -> Blackboard {
    let mut b = Blackboard::new();
    for (k, v) in entries {
        b.insert(k.to_string(), v);
    }
    b
}

fn action(name: &str, when: Vec<Condition>, effects: Vec<Effect>) -> Task {
    Task::Action {
        preconditions: when,
        action: name.to_string(),
        effects,
    }
}

#[test]
fn is_met_returns_true() {
    let conditions = vec![cond_eq("is_true", Value::Bool(true))];
    let blackboard = board(vec![("is_true", Value::Bool(true))]);
    let result = is_met(&conditions, &blackboard, &float_ops());
    assert!(result);
}

#[test]
fn is_met_returns_false() {
    let conditions = vec![cond_eq("is_true", Value::Bool(true))];
    let blackboard = board(vec![("is_true", Value::Bool(false))]);
    let result = is_met(&conditions, &blackboard, &float_ops());
    assert!(!result);
}

#[test]
fn sequence_succeeds() {
    let root = Task::Sequence {
        preconditions: vec![],
        tasks: vec![
            action(
                "put_clothes_in_machine",
                vec![cond_eq("has_dirty_laundry", Value::Bool(true))],
                vec![Effect::new("clothes_in", ArithmeticOp::Eq, Value::Bool(true))],
            ),
            action(
                "put_in_detergent",
                vec![
                    cond_eq("clothes_in", Value::Bool(true)),
                    cond_eq("has_detergent", Value::Bool(true)),
                ],
                vec![Effect::new("has_detergent", ArithmeticOp::Eq, Value::Bool(false))],
            ),
            action("turn_machine_on", vec![cond_eq("clothes_in", Value::Bool(true))], vec![]),
            Task::Selector {
                preconditions: vec![],
                tasks: vec![action("do_nothing", vec![], vec![])],
            },
            Task::Sequence { preconditions: vec![], tasks: vec![] },
            Task::Sequence { preconditions: vec![], tasks: vec![] },
            Task::Sequence { preconditions: vec![], tasks: vec![] },
        ],
    };

    let blackboard = board(vec![
        ("has_dirty_laundry", Value::Bool(true)),
        ("has_detergent", Value::Bool(true)),
        ("has_clean_laundry", Value::Bool(false)),
        ("clothes_in", Value::Bool(false)),
    ]);

    let (plan, _) = decompose(&root, &blackboard, &float_ops()).expect("should not return none");
    assert_eq!(
        plan,
        vec![
            "put_clothes_in_machine",
            "put_in_detergent",
            "turn_machine_on",
            "do_nothing"
        ]
    )
}

// ---- further cases ---------------------------------------------------------

#[test]
fn selector_takes_the_first_child_whose_preconditions_hold() {
    let root = Task::Selector {
        preconditions: vec![],
        tasks: vec![
            action("a", vec![cond_eq("x", Value::Int(1))], vec![]),
            action("b", vec![Condition::compare("x", ComparisonOp::GT, Value::Int(0))], vec![]),
            action("c", vec![], vec![]),
        ],
    };
    let ops = float_ops();
    assert_eq!(plan(&root, &board(vec![("x", Value::Int(1))]), &ops), Some(vec!["a".to_string()]));
    assert_eq!(plan(&root, &board(vec![("x", Value::Int(5))]), &ops), Some(vec!["b".to_string()]));
    assert_eq!(plan(&root, &board(vec![("x", Value::Int(0))]), &ops), Some(vec!["c".to_string()]));
    // An unknown `x` does not hold back the first child, which asks `x == 1`.
    assert_eq!(plan(&root, &board(vec![]), &ops), Some(vec!["a".to_string()]));
    let empty = Task::Selector { preconditions: vec![], tasks: vec![] };
    assert_eq!(plan(&empty, &board(vec![]), &ops), None);
}

#[test]
fn sequence_fails_when_a_later_precondition_fails() {
    let root = Task::Sequence {
        preconditions: vec![],
        tasks: vec![
            action("go", vec![], vec![Effect::new("energy", ArithmeticOp::Sub, Value::Int(10))]),
            action("run", vec![Condition::compare("energy", ComparisonOp::GTE, Value::Int(5))], vec![]),
        ],
    };
    let ops = float_ops();
    assert_eq!(plan(&root, &board(vec![("energy", Value::Int(20))]), &ops), Some(vec!["go".to_string(), "run".to_string()]));
    assert_eq!(plan(&root, &board(vec![("energy", Value::Int(12))]), &ops), None);
}

#[test]
fn effects_apply_in_order_and_skip_missing_keys() {
    let ops = float_ops();
    let mut b = board(vec![("n", Value::Int(7)), ("f", Value::Float("1.5".to_string()))]);
    apply_effects(
        &[
            Effect::new("n", ArithmeticOp::Mult, Value::Int(3)),
            Effect::new("n", ArithmeticOp::Sub, Value::Int(1)),
            Effect::new("n", ArithmeticOp::Div, Value::Int(4)),
            Effect::new("missing", ArithmeticOp::Add, Value::Int(1)),
            Effect::new("f", ArithmeticOp::Add, Value::Int(1)),
            Effect::new("s", ArithmeticOp::Eq, Value::String("hi".to_string())),
        ],
        &mut b,
        &ops,
    );
    assert_eq!(b.get(&"n".to_string()), Some(&Value::Int(5)));
    assert_eq!(b.get(&"missing".to_string()), None);
    assert_eq!(b.get(&"f".to_string()), Some(&Value::Float("2.5".to_string())));
    assert_eq!(b.get(&"s".to_string()), Some(&Value::String("hi".to_string())));
}

#[test]
fn int_overflow_and_division_by_zero_are_faults() {
    let ops = float_ops();
    let over = action("a", vec![], vec![Effect::new("n", ArithmeticOp::Add, Value::Int(1))]);
    assert_eq!(try_plan(&over, &board(vec![("n", Value::Int(i32::MAX))]), &ops), Err(ArithmeticFault));
    let by_zero = action("a", vec![], vec![Effect::new("n", ArithmeticOp::Div, Value::Int(0))]);
    assert_eq!(try_plan(&by_zero, &board(vec![("n", Value::Int(1))]), &ops), Err(ArithmeticFault));
    assert_eq!(try_plan(&by_zero, &board(vec![]), &ops), Ok(Some(vec!["a".to_string()])));
}

#[test]
fn comparisons_follow_value_semantics() {
    let ops = float_ops();
    let b = board(vec![
        ("i", Value::Int(1)),
        ("f", Value::Float("1".to_string())),
        ("s", Value::String("abc".to_string())),
        ("t", Value::Bool(true)),
    ]);
    // An int never equals a float, but compares equal to it.
    assert!(!eval(&cond_eq("i", Value::Float("1".to_string())), &b, &ops));
    assert!(eval(&Condition::compare("i", ComparisonOp::LTE, Value::Float("1".to_string())), &b, &ops));
    assert!(eval(&Condition::compare("f", ComparisonOp::GT, Value::Int(0)), &b, &ops));
    assert!(eval(&Condition::compare("s", ComparisonOp::LT, Value::String("abd".to_string())), &b, &ops));
    assert!(eval(&Condition::compare("t", ComparisonOp::GT, Value::Bool(false)), &b, &ops));
    // Values of different kinds are unordered.
    assert!(!eval(&Condition::compare("s", ComparisonOp::LT, Value::Int(3)), &b, &ops));
    assert!(eval(&Condition::compare("s", ComparisonOp::NE, Value::Int(3)), &b, &ops));
    // On a missing key `==` is true and every other comparison false.
    assert!(eval(&Condition::compare("nope", ComparisonOp::E, Value::Int(3)), &b, &ops));
    assert!(!eval(&Condition::compare("nope", ComparisonOp::NE, Value::Int(3)), &b, &ops));
    assert!(!eval(&Condition::compare("nope", ComparisonOp::LT, Value::Int(3)), &b, &ops));
    assert!(eval(
        &Condition::Not(Box::new(Condition::compare("nope", ComparisonOp::LT, Value::Int(3)))),
        &b,
        &ops
    ));
    assert!(!eval(
        &Condition::Not(Box::new(Condition::compare("nope", ComparisonOp::E, Value::Int(3)))),
        &b,
        &ops
    ));
    assert!(eval(&Condition::All(vec![]), &b, &ops));
    assert!(!eval(&Condition::Any(vec![]), &b, &ops));
}

#[test]
fn plan_names_only_actions_of_the_network() {
    let root = Task::Selector {
        preconditions: vec![],
        tasks: vec![
            action("never", vec![cond_eq("x", Value::Int(1))], vec![]),
            Task::Sequence {
                preconditions: vec![],
                tasks: vec![action("a", vec![], vec![]), action("b", vec![], vec![])],
            },
        ],
    };
    let data = board(vec![("x", Value::Int(0))]);
    let p = plan(&root, &data, &float_ops()).expect("a plan");
    for name in &p {
        assert!(["never", "a", "b"].contains(&name.as_str()));
    }
    assert_eq!(p, vec!["a".to_string(), "b".to_string()]);
}

#[test]
fn selector_with_no_applicable_task_has_no_plan() {
    let root = Task::Selector {
        preconditions: vec![],
        tasks: vec![action("a", vec![cond_eq("x", Value::Int(1))], vec![])],
    };
    let data = board(vec![("x", Value::Int(2))]);
    assert_eq!(plan(&root, &data, &float_ops()), None);
    let empty = Task::Selector { preconditions: vec![], tasks: vec![] };
    assert_eq!(plan(&empty, &data, &float_ops()), None);
}

#[test]
fn empty_sequence_plans_nothing() {
    let root = Task::Sequence { preconditions: vec![], tasks: vec![] };
    let data = board(vec![("x", Value::Int(2))]);
    let (p, after) = decompose(&root, &data, &float_ops()).expect("an empty plan");
    assert!(p.is_empty());
    assert!(after.get(&"x".to_string()) == Some(&Value::Int(2)));
}

#[test]
fn negation_and_de_morgan() {
    let data = board(vec![("a", Value::Bool(true)), ("b", Value::Bool(false))]);
    let a = || cond_eq("a", Value::Bool(true));
    let b = || cond_eq("b", Value::Bool(true));
    let not_not_a = Condition::Not(Box::new(Condition::Not(Box::new(a()))));
    assert_eq!(eval(&not_not_a, &data, &float_ops()), eval(&a(), &data, &float_ops()));
    let not_all = Condition::Not(Box::new(Condition::All(vec![a(), b()])));
    let any_not = Condition::Any(vec![
        Condition::Not(Box::new(a())),
        Condition::Not(Box::new(b())),
    ]);
    assert!(eval(&not_all, &data, &float_ops()));
    assert_eq!(eval(&not_all, &data, &float_ops()), eval(&any_not, &data, &float_ops()));
    assert!(eval(&Condition::All(vec![]), &data, &float_ops()));
    assert!(!eval(&Condition::Any(vec![]), &data, &float_ops()));
}

#[test]
fn assignment_stores_and_missing_key_is_left_alone() {
    let mut data = board(vec![("hp", Value::Int(3))]);
    apply_effects(
        &[
            Effect::new("hp", ArithmeticOp::Eq, Value::String("full".to_string())),
            Effect::new("mana", ArithmeticOp::Add, Value::Int(5)),
        ],
        &mut data,
        &float_ops(),
    );
    assert!(data.get(&"hp".to_string()) == Some(&Value::String("full".to_string())));
    assert!(!data.has(&"mana".to_string()));
}

#[test]
fn values_from_plain_values() {
    assert!(Value::from(5) == Value::Int(5));
    assert!(Value::from(true) == Value::Bool(true));
    assert!(Value::from("bob".to_string()) == Value::String("bob".to_string()));
}

#[test]
fn int_arithmetic_exact_results() {
    let ops = float_ops();
    let seven = Value::Int(7);
    let two = Value::Int(2);
    assert!(seven.checked_arith(ArithmeticOp::Add, &two, &ops) == Some(Value::Int(9)));
    assert!(seven.checked_arith(ArithmeticOp::Sub, &two, &ops) == Some(Value::Int(5)));
    assert!(seven.checked_arith(ArithmeticOp::Mult, &two, &ops) == Some(Value::Int(14)));
    assert!(seven.checked_arith(ArithmeticOp::Div, &two, &ops) == Some(Value::Int(3)));
    assert!(Value::Int(-7).checked_arith(ArithmeticOp::Div, &two, &ops) == Some(Value::Int(-3)));
    assert!(Value::Int(i32::MIN).checked_arith(ArithmeticOp::Div, &Value::Int(-1), &ops) == None);
    // A string on the left is given back as it is.
    let s = Value::String("x".to_string());
    assert!(s.checked_arith(ArithmeticOp::Add, &two, &ops) == Some(s.clone()));
}

#[test]
fn simple_htn() {
    let blackboard = board(vec![
        ("health", Value::from(40)),
        ("has_health_item", Value::from(false)),
    ]);

    let root = Task::Selector {
        preconditions: vec![],
        tasks: vec![action(
            "heal",
            vec![
                Condition::compare("health", ComparisonOp::LT, Value::from(50)),
                cond_eq("has_heal_item", Value::from(true)),
            ],
            vec![],
        )],
    };

    let (plan, _) = decompose(&root, &blackboard, &float_ops()).expect("should not return none");
    assert_eq!(plan, vec!["heal"]);
}

#[test]
fn vectors_are_stored_but_equal_and_order_nothing() {
    let ops = float_ops();
    let v = Value::Vector3("1".to_string(), "2".to_string(), "3".to_string());
    let b = board(vec![("pos", v.clone())]);
    assert!(b.get(&"pos".to_string()) == Some(&v));
    assert!(!v.equals(&v, &ops));
    assert!(v.compare(&v, &ops).is_none());
    assert!(v.checked_arith(ArithmeticOp::Add, &Value::Int(1), &ops) == Some(v.clone()));
    assert!(!eval(&cond_eq("pos", v.clone()), &b, &ops));
    let w = Value::Vector2("0.5".to_string(), "-1".to_string());
    assert!(w.duplicate() == w);
}
