use pyro::registry::{total_key_of32, total_key_of64, Campfires, Collected, Registry};

fn registry_of(ids: &[u64]) -> Registry<i64> {
    let mut r = Registry::new();
    for id in ids {
        r.register(*id);
    }
    r
}

fn nodes(c: Collected<i64>) -> Vec<u64> {
    match c {
        Collected::Nodes(v) => v,
        _ => panic!("expected nodes"),
    }
}

#[test]
fn register_and_unregister() {
    let mut r = registry_of(&[1, 2, 1, 3]);
    r.unregister(1);
    assert_eq!(r.items(), &vec![2, 3]);
}

#[test]
fn chain_starts_from_all_nodes() {
    let mut r = registry_of(&[4, 5, 6]);
    r.reverse();
    r.reverse();
    assert_eq!(nodes(r.collect()), vec![4, 5, 6]);
}

#[test]
fn filter_and_reject_split_nodes() {
    let mut r = registry_of(&[1, 2, 3, 4, 5]);
    r.filter(|x| x % 2 == 1);
    assert_eq!(nodes(r.collect()), vec![1, 3, 5]);
    r.reject(|x| x % 2 == 1);
    assert_eq!(nodes(r.collect()), vec![2, 4]);
}

#[test]
fn find_narrows_to_the_node() {
    let mut r = registry_of(&[7, 8, 9]);
    r.find(8);
    assert_eq!(nodes(r.collect()), vec![8]);
    r.find(10);
    assert_eq!(nodes(r.collect()), Vec::<u64>::new());
}

#[test]
fn take_and_skip_clamp_counts() {
    let mut r = registry_of(&[1, 2, 3, 4]);
    r.take(2);
    assert_eq!(nodes(r.collect()), vec![1, 2]);
    r.take(-3);
    assert_eq!(nodes(r.collect()), Vec::<u64>::new());
    r.take(10);
    assert_eq!(nodes(r.collect()), vec![1, 2, 3, 4]);
    r.skip(1);
    assert_eq!(nodes(r.collect()), vec![2, 3, 4]);
    r.skip(-1);
    assert_eq!(nodes(r.collect()), vec![1, 2, 3, 4]);
    r.skip(9);
    assert_eq!(nodes(r.collect()), Vec::<u64>::new());
}

#[test]
fn links_chain_until_collect() {
    let mut r = registry_of(&[1, 2, 3, 4, 5, 6]);
    r.skip(1);
    r.take(3);
    r.reverse();
    assert_eq!(nodes(r.collect()), vec![4, 3, 2]);
}

#[test]
fn unique_keeps_first_occurrences() {
    let mut r = registry_of(&[3, 1, 3, 2, 1]);
    r.unique();
    assert_eq!(nodes(r.collect()), vec![3, 1, 2]);
}

#[test]
fn count_first_last() {
    let mut r = registry_of(&[5, 6, 7]);
    r.count();
    assert!(matches!(r.collect(), Collected::Count(3)));
    r.first();
    assert!(matches!(r.collect(), Collected::Node(Some(5))));
    r.last();
    assert!(matches!(r.collect(), Collected::Node(Some(7))));
    let mut empty = registry_of(&[]);
    empty.first();
    assert!(matches!(empty.collect(), Collected::Node(None)));
}

#[test]
fn any_and_all_stop_early() {
    let calls = std::cell::Cell::new(0);
    let mut r = registry_of(&[1, 2, 3, 4]);
    r.any(|x| {
        calls.set(calls.get() + 1);
        x == 2
    });
    assert!(matches!(r.collect(), Collected::Flag(true)));
    assert_eq!(calls.get(), 2);
    r.all(|x| x < 3);
    assert!(matches!(r.collect(), Collected::Flag(false)));
    r.all(|x| x < 9);
    assert!(matches!(r.collect(), Collected::Flag(true)));
    let mut empty = registry_of(&[]);
    empty.any(|_| true);
    assert!(matches!(empty.collect(), Collected::Flag(false)));
}

#[test]
fn reduce_and_map() {
    let mut r = registry_of(&[1, 2, 3]);
    r.reduce(10, |acc, x| acc + x as i64);
    assert!(matches!(r.collect(), Collected::Value(16)));
    r.map(|x| (x * x) as i64);
    match r.collect() {
        Collected::Values(v) => assert_eq!(v, vec![1, 4, 9]),
        _ => panic!("expected values"),
    }
}

#[test]
fn min_by_first_and_max_by_last() {
    let mut r = registry_of(&[1, 2, 3, 4]);
    let key = |x: u64| -> u64 {
        let k: f64 = match x {
            1 => 2.0,
            2 => 1.0,
            3 => 1.0,
            _ => 2.0,
        };
        k.to_bits()
    };
    r.min_by(key);
    assert!(matches!(r.collect(), Collected::Node(Some(2))));
    r.max_by(key);
    assert!(matches!(r.collect(), Collected::Node(Some(4))));
    r.filter(|x| x > 10);
    r.min_by(key);
    assert!(matches!(r.collect(), Collected::Node(None)));
}

#[test]
fn min_by_orders_negative_keys_first() {
    let mut r = registry_of(&[1, 2, 3]);
    r.min_by(|x: u64| -> u64 {
        let k: f64 = match x {
            1 => 0.5,
            2 => -3.0,
            _ => -0.0,
        };
        k.to_bits()
    });
    assert!(matches!(r.collect(), Collected::Node(Some(2))));
}

#[test]
fn sort_by_before() {
    let mut r = registry_of(&[3, 1, 2]);
    r.sort(|a, b| a < b);
    assert_eq!(nodes(r.collect()), vec![1, 2, 3]);
    r.sort(|a, b| a > b);
    assert_eq!(nodes(r.collect()), vec![3, 2, 1]);
    let mut twice = registry_of(&[2, 1, 2, 3, 1]);
    twice.sort(|a, b| a < b);
    assert_eq!(nodes(twice.collect()), vec![1, 1, 2, 2, 3]);
}

#[test]
fn for_each_visits_in_order() {
    let seen = std::cell::RefCell::new(Vec::new());
    let mut r = registry_of(&[9, 8]);
    r.for_each(|x| seen.borrow_mut().push(x));
    assert_eq!(*seen.borrow(), vec![9, 8]);
    assert_eq!(nodes(r.collect()), vec![9, 8]);
}

#[test]
fn summary_wins_over_working_set() {
    let mut r = registry_of(&[1, 2, 3]);
    r.count();
    r.take(1);
    assert!(matches!(r.collect(), Collected::Count(3)));
    // A collect with no link before it has no chain to end: it gives nothing.
    assert_eq!(nodes(r.collect()), Vec::<u64>::new());
}

#[test]
fn closest_is_first_of_nearest() {
    let r = registry_of(&[10, 20, 30]);
    let dist = |x: u64| -> u32 {
        let d: f32 = match x {
            10 => 4.0,
            20 => 1.0,
            _ => 1.0,
        };
        d.to_bits()
    };
    assert_eq!(r.closest(dist), Some(20));
    let empty = registry_of(&[]);
    assert_eq!(empty.closest(dist), None);
}

#[test]
fn total_keys_follow_total_cmp() {
    let values: [f64; 9] = [
        f64::NEG_INFINITY,
        -2.5,
        -0.0,
        0.0,
        1e-300,
        1.5,
        f64::INFINITY,
        f64::NAN,
        -f64::NAN,
    ];
    for a in values {
        for b in values {
            let expected = a.total_cmp(&b);
            let got = total_key_of64(a.to_bits()).cmp(&total_key_of64(b.to_bits()));
            assert_eq!(got, expected);
            let (x, y) = (a as f32, b as f32);
            let expected32 = x.total_cmp(&y);
            let got32 = total_key_of32(x.to_bits()).cmp(&total_key_of32(y.to_bits()));
            assert_eq!(got32, expected32);
        }
    }
}

#[test]
fn campfires_closest_are_stable_by_distance() {
    let mut c = Campfires::new();
    for id in [1u64, 2, 3, 4] {
        c.register(id);
    }
    let dist = |x: u64| -> u32 {
        let d: f32 = match x {
            1 => 9.0,
            2 => 1.0,
            3 => 4.0,
            _ => 1.0,
        };
        d.to_bits()
    };
    assert_eq!(c.closest(dist), vec![2, 4, 3, 1]);
    assert_eq!(c.closest_one(dist), Some(2));
    c.unregister(2);
    assert_eq!(c.closest(dist), vec![4, 3, 1]);
    assert_eq!(c.closest_one(dist), Some(4));
}
