use pyro::condition::Condition;
use pyro::effect::Effect;
use pyro::htn::Task;
use pyro::parser::{parse, parse_outcome, ParseOutcome};
use pyro::value::{ArithmeticOp, ComparisonOp, Value};

fn cmp(key: &str, op: ComparisonOp, v: Value) -> Condition {
    Condition::compare(key, op, v)
}

fn eff(key: &str, op: ArithmeticOp, v: Value) -> Effect {
    Effect::new(key, op, v)
}

fn int_v(i: i32) -> Value {
    Value::Int(i)
}

fn float(f: f32) -> Value {
    Value::Float(f.to_string())
}

fn boolean(b: bool) -> Value {
    Value::Bool(b)
}

fn string(s: &str) -> Value {
    Value::String(s.to_string())
}

fn action(name: &str) -> Task {
    Task::Action {
        preconditions: vec![],
        action: name.to_string(),
        effects: vec![],
    }
}

#[test]
fn parses_value_kinds() {
    let got = parse(r#"action "a" (x == 42)"#).unwrap();
    assert_eq!(
        got,
        Task::Action {
            preconditions: vec![cmp("x", ComparisonOp::E, int_v(42))],
            action: "a".to_string(),
            effects: vec![],
        }
    );

    let got = parse(r#"action "a" (x == 3.5)"#).unwrap();
    assert_eq!(
        got,
        Task::Action {
            preconditions: vec![cmp("x", ComparisonOp::E, float(3.5_f32))],
            action: "a".to_string(),
            effects: vec![],
        }
    );

    let got = parse(r#"action "a" (x == -7)"#).unwrap();
    assert_eq!(
        got,
        Task::Action {
            preconditions: vec![cmp("x", ComparisonOp::E, int_v(-7))],
            action: "a".to_string(),
            effects: vec![],
        }
    );

    let got = parse(r#"action "a" (name == "bob")"#).unwrap();
    assert_eq!(
        got,
        Task::Action {
            preconditions: vec![cmp("name", ComparisonOp::E, string("bob"))],
            action: "a".to_string(),
            effects: vec![],
        }
    );
}

#[test]
fn parses_bare_action() {
    assert_eq!(parse(r#"action "go_to_sleep""#).unwrap(), action("go_to_sleep"));
}

#[test]
fn parses_action_with_multiple_preconditions() {
    let got = parse(r#"action "use_heal_item" (health < 40) (has_heal_item == true)"#).unwrap();
    assert_eq!(
        got,
        Task::Action {
            preconditions: vec![
                cmp("health", ComparisonOp::LT, int_v(40)),
                cmp("has_heal_item", ComparisonOp::E, boolean(true)),
            ],
            action: "use_heal_item".to_string(),
            effects: vec![],
        }
    );
}

#[test]
fn parses_all_comparison_operators() {
    let got = parse(r#"action "a" (a == 1) (b != 2) (c < 3) (d > 4) (e <= 5) (f >= 6)"#).unwrap();
    assert_eq!(
        got,
        Task::Action {
            preconditions: vec![
                cmp("a", ComparisonOp::E, int_v(1)),
                cmp("b", ComparisonOp::NE, int_v(2)),
                cmp("c", ComparisonOp::LT, int_v(3)),
                cmp("d", ComparisonOp::GT, int_v(4)),
                cmp("e", ComparisonOp::LTE, int_v(5)),
                cmp("f", ComparisonOp::GTE, int_v(6)),
            ],
            action: "a".to_string(),
            effects: vec![],
        }
    );
}

#[test]
fn parses_action_with_effects() {
    let got = parse(
        r#"action "go_home" [
                is_home = true,
                is_outside = false
            ]"#,
    )
    .unwrap();
    assert_eq!(
        got,
        Task::Action {
            preconditions: vec![],
            action: "go_home".to_string(),
            effects: vec![
                eff("is_home", ArithmeticOp::Eq, boolean(true)),
                eff("is_outside", ArithmeticOp::Eq, boolean(false)),
            ],
        }
    );
}

#[test]
fn parses_all_effect_operators() {
    let got = parse(r#"action "a" [ a = 1, b += 2, c -= 3, d *= 4, e /= 5 ]"#).unwrap();
    assert_eq!(
        got,
        Task::Action {
            preconditions: vec![],
            action: "a".to_string(),
            effects: vec![
                eff("a", ArithmeticOp::Eq, int_v(1)),
                eff("b", ArithmeticOp::Add, int_v(2)),
                eff("c", ArithmeticOp::Sub, int_v(3)),
                eff("d", ArithmeticOp::Mult, int_v(4)),
                eff("e", ArithmeticOp::Div, int_v(5)),
            ],
        }
    );
}

#[test]
fn parses_preconditions_and_effects_together() {
    let got = parse(r#"action "find_cover" (in_cover == false) [ in_cover = true ]"#).unwrap();
    assert_eq!(
        got,
        Task::Action {
            preconditions: vec![cmp("in_cover", ComparisonOp::E, boolean(false))],
            action: "find_cover".to_string(),
            effects: vec![eff("in_cover", ArithmeticOp::Eq, boolean(true))],
        }
    );
}

#[test]
fn parses_or_condition() {
    let got = parse(r#"action "setup_camp" (hour < 6 or hour > 16)"#).unwrap();
    assert_eq!(
        got,
        Task::Action {
            preconditions: vec![Condition::Any(vec![
                cmp("hour", ComparisonOp::LT, int_v(6)),
                cmp("hour", ComparisonOp::GT, int_v(16)),
            ])],
            action: "setup_camp".to_string(),
            effects: vec![],
        }
    );
}

#[test]
fn parses_and_condition() {
    let got = parse(r#"action "a" (x > 0 and y > 0)"#).unwrap();
    assert_eq!(
        got,
        Task::Action {
            preconditions: vec![Condition::All(vec![
                cmp("x", ComparisonOp::GT, int_v(0)),
                cmp("y", ComparisonOp::GT, int_v(0)),
            ])],
            action: "a".to_string(),
            effects: vec![],
        }
    );
}

#[test]
fn parses_not_condition() {
    let got = parse(r#"action "a" (not x == true)"#).unwrap();
    assert_eq!(
        got,
        Task::Action {
            preconditions: vec![Condition::Not(Box::new(cmp("x", ComparisonOp::E, boolean(true))))],
            action: "a".to_string(),
            effects: vec![],
        }
    );
}

#[test]
fn and_binds_tighter_than_or() {
    let got = parse(r#"action "a" (a == 1 or b == 2 and c == 3)"#).unwrap();
    assert_eq!(
        got,
        Task::Action {
            preconditions: vec![Condition::Any(vec![
                cmp("a", ComparisonOp::E, int_v(1)),
                Condition::All(vec![
                    cmp("b", ComparisonOp::E, int_v(2)),
                    cmp("c", ComparisonOp::E, int_v(3)),
                ]),
            ])],
            action: "a".to_string(),
            effects: vec![],
        }
    );
}

#[test]
fn parens_override_precedence() {
    let got = parse(r#"action "a" ((a == 1 or b == 2) and c == 3)"#).unwrap();
    assert_eq!(
        got,
        Task::Action {
            preconditions: vec![Condition::All(vec![
                Condition::Any(vec![
                    cmp("a", ComparisonOp::E, int_v(1)),
                    cmp("b", ComparisonOp::E, int_v(2)),
                ]),
                cmp("c", ComparisonOp::E, int_v(3)),
            ])],
            action: "a".to_string(),
            effects: vec![],
        }
    );
}

#[test]
fn parses_nested_selectors_and_sequences() {
    let got = parse(
        r#"
            selector {
                selector (in_combat == true) {
                    action "find_cover" (in_cover == false) [ in_cover = true ]
                    action "shoot_at_player" (in_cover == true)
                }
            }
            "#,
    )
    .unwrap();

    assert_eq!(
        got,
        Task::Selector {
            preconditions: vec![],
            tasks: vec![Task::Selector {
                preconditions: vec![cmp("in_combat", ComparisonOp::E, boolean(true))],
                tasks: vec![
                    Task::Action {
                        preconditions: vec![cmp("in_cover", ComparisonOp::E, boolean(false))],
                        action: "find_cover".to_string(),
                        effects: vec![eff("in_cover", ArithmeticOp::Eq, boolean(true))],
                    },
                    Task::Action {
                        preconditions: vec![cmp("in_cover", ComparisonOp::E, boolean(true))],
                        action: "shoot_at_player".to_string(),
                        effects: vec![],
                    },
                ],
            }],
        }
    );
}

#[test]
fn parses_sequence_with_preconditions() {
    let got = parse(
        r#"
            sequence (health < 40) (in_town == true) {
                action "go_to_store"
                action "buy_heal_item"
            }
            "#,
    )
    .unwrap();
    assert_eq!(
        got,
        Task::Sequence {
            preconditions: vec![
                cmp("health", ComparisonOp::LT, int_v(40)),
                cmp("in_town", ComparisonOp::E, boolean(true)),
            ],
            tasks: vec![action("go_to_store"), action("buy_heal_item")],
        }
    );
}

#[test]
fn parses_empty_selector_body() {
    assert_eq!(
        parse("selector {}").unwrap(),
        Task::Selector {
            preconditions: vec![],
            tasks: vec![],
        }
    );
}

#[test]
fn parses_full_program() {
    let src = r#"
            selector {
                action "use_heal_item" (health < 40) (has_heal_item == true)
                selector (in_town == true) {
                    sequence (energy < 40) {
                        action "go_to_sleep"
                    }
                }
                action "setup_camp" (hour < 6 or hour > 16)
                sequence (health < 40) (has_heal_item == false) (in_town == true) {
                    action "go_to_store"
                    action "buy_heal_item"
                    action "use_heal_item"
                }
                sequence {
                    action "go_home" [
                        is_home = true,
                        is_outside = false
                    ]
                    action "go_to_sleep"
                }
            }
        "#;

    let root = parse(src).expect("full program should parse");

    match root {
        Task::Selector {
            preconditions,
            tasks,
        } => {
            assert!(preconditions.is_empty());
            assert_eq!(tasks.len(), 5);
        }
        other => panic!("expected a root selector, got {other:?}"),
    }
}

#[test]
fn rejects_unknown_keyword() {
    assert!(parse(r#"selector { actionn "oops" }"#).is_err());
}

#[test]
fn rejects_unclosed_brace() {
    assert!(parse(r#"selector { action "a" "#).is_err());
}

#[test]
fn rejects_action_without_name() {
    assert!(parse("action").is_err());
}

#[test]
fn rejects_trailing_garbage() {
    assert!(parse(r#"action "a" nonsense"#).is_err());
}

// ---- further cases ---------------------------------------------------------

#[test]
fn int_literal_out_of_range_is_reported() {
    assert_eq!(
        parse_outcome(r#"action "a" (x == 2147483648)"#),
        ParseOutcome::IntLiteralOutOfRange
    );
    // The smallest i32 still fits.
    assert_eq!(
        parse(r#"action "a" (x == -2147483648)"#).unwrap(),
        Task::Action {
            preconditions: vec![cmp("x", ComparisonOp::E, int_v(i32::MIN))],
            action: "a".to_string(),
            effects: vec![],
        }
    );
    // The literal is read, and panics, even though the source fails later.
    assert_eq!(
        parse_outcome(r#"action "a" (x == 99999999999"#),
        ParseOutcome::IntLiteralOutOfRange
    );
}

#[test]
fn leading_zero_is_not_a_number() {
    assert!(parse(r#"action "a" (x == 007)"#).is_err());
    assert!(parse(r#"action "a" (x == 3.)"#).is_err());
}

#[test]
fn nots_nest_and_keywords_need_boundaries() {
    let got = parse(r#"action "a" (not not nothing == 1)"#).unwrap();
    assert_eq!(
        got,
        Task::Action {
            preconditions: vec![Condition::Not(Box::new(Condition::Not(Box::new(cmp(
                "nothing",
                ComparisonOp::E,
                int_v(1)
            )))))],
            action: "a".to_string(),
            effects: vec![],
        }
    );
    // A dangling `and` is given back, and the closing parenthesis is missing.
    assert!(parse(r#"action "a" (x == 1 and)"#).is_err());
}

#[test]
fn effects_allow_a_trailing_comma_and_nothing() {
    let got = parse(r#"action "a" [ x = "hi", ]"#).unwrap();
    assert_eq!(
        got,
        Task::Action {
            preconditions: vec![],
            action: "a".to_string(),
            effects: vec![eff("x", ArithmeticOp::Eq, string("hi"))],
        }
    );
    assert_eq!(parse(r#"action "a" []"#).unwrap(), action("a"));
}

#[test]
fn rejection_says_where_parsing_stopped() {
    assert_eq!(parse(r#"action "a" nonsense"#).unwrap_err().position, 11);
    assert_eq!(parse("action").unwrap_err().position, 0);
    assert_eq!(parse("  actionn \"a\"").unwrap_err().position, 2);
    assert!(matches!(
        parse_outcome(r#"selector {} }"#),
        ParseOutcome::Rejected(e) if e.position == 12
    ));
}
