use pyro::blackboard::Blackboard;
use pyro::boards::NPCBlackboards;
use pyro::value::Value;

fn key(k: &str) -> String {
    k.to_string()
}

#[test]
fn get_after_set_gives_what_was_set() {
    let mut b = Blackboard::new();
    b.set(key("hp"), Some(Value::Int(10)));
    b.set(key("name"), Some(Value::String("bob".to_string())));
    assert!(b.get(&key("hp")) == Some(&Value::Int(10)));
    b.set(key("hp"), Some(Value::Int(4)));
    assert!(b.get(&key("hp")) == Some(&Value::Int(4)));
    // Other keys keep what they held.
    assert!(b.get(&key("name")) == Some(&Value::String("bob".to_string())));
    assert!(b.has(&key("name")));
    assert!(!b.has(&key("mana")));
}

#[test]
fn nil_removes_the_key() {
    let mut b = Blackboard::new();
    b.set(key("hp"), Some(Value::Int(10)));
    b.set(key("ok"), Some(Value::Bool(true)));
    b.set(key("hp"), None);
    assert!(b.get(&key("hp")).is_none());
    assert!(!b.has(&key("hp")));
    assert!(b.has(&key("ok")));
    // Removing a key that holds nothing changes nothing.
    b.remove(&key("absent"));
    assert!(b.has(&key("ok")));
}

#[test]
fn duplicate_holds_the_same_values() {
    let mut b = Blackboard::new();
    b.insert(key("f"), Value::Float("2.5".to_string()));
    let c = b.duplicate();
    assert!(c.get(&key("f")) == Some(&Value::Float("2.5".to_string())));
    b.insert(key("f"), Value::Int(1));
    assert!(c.get(&key("f")) == Some(&Value::Float("2.5".to_string())));
}

#[test]
fn register_then_cleanup() {
    let mut boards: NPCBlackboards<u32> = NPCBlackboards::new();
    boards.register(key("npc"), 7);
    assert_eq!(boards.get("npc"), Some(&7));
    assert_eq!(boards.with_blackboard("npc", |b| *b + 1), Some(8));
    assert_eq!(
        boards.with_blackboard_mut("npc", |b: &mut u32| {
            let before = *b;
            *b *= 2;
            before
        }),
        Some(7)
    );
    assert_eq!(boards.get("npc"), Some(&14));
    assert_eq!(boards.with_blackboard("other", |b| *b), None);
    assert_eq!(boards.cleanup("npc"), Some(()));
    assert_eq!(boards.get("npc"), None);
    assert_eq!(boards.cleanup("npc"), None);
}
