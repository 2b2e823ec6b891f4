use token_rotation::cycle::Cycle;
use token_rotation::step::{Patience, Step};

fn tokens(names: &[&str]) -> Vec<String> {
    names.iter().map(|s| s.to_string()).collect()
}

fn take(cycle: &mut Cycle) -> String {
    match cycle.next(Patience::Polls(0)) {
        Step::Token(t) => t,
        other => panic!("no token: {:?}", other),
    }
}

#[test]
fn first_scan_begins_after_slot_zero() {
    let mut cycle = Cycle::new(tokens(&["a", "b", "c"]));
    assert_eq!(take(&mut cycle), "b");
    assert_eq!(cycle.cursor(), 1);
    assert_eq!(take(&mut cycle), "c");
    assert_eq!(cycle.cursor(), 2);
    assert_eq!(take(&mut cycle), "a");
    assert_eq!(cycle.cursor(), 0);
    assert_eq!(take(&mut cycle), "b");
}

#[test]
fn single_token_is_handed_out_every_time() {
    let mut cycle = Cycle::new(tokens(&["only"]));
    for _ in 0..5 {
        assert_eq!(take(&mut cycle), "only");
        assert_eq!(cycle.cursor(), 0);
    }
}

#[test]
fn a_round_visits_each_token_exactly_once() {
    let list = tokens(&["alpha", "beta", "gamma", "delta", "epsilon", "zeta", "eta"]);
    for warm_up in 0..list.len() {
        let mut cycle = Cycle::new(list.clone());
        for _ in 0..warm_up {
            take(&mut cycle);
        }
        let mut seen: Vec<String> = Vec::new();
        for _ in 0..cycle.list_length() {
            seen.push(take(&mut cycle));
        }
        for t in &list {
            assert_eq!(seen.iter().filter(|s| *s == t).count(), 1);
        }
        assert_eq!(seen.len(), list.len());
    }
}

#[test]
fn a_round_follows_the_order_of_the_list() {
    let mut cycle = Cycle::new(tokens(&["a", "b", "c", "d"]));
    let mut seen: Vec<String> = Vec::new();
    for _ in 0..8 {
        seen.push(take(&mut cycle));
    }
    assert_eq!(seen, tokens(&["b", "c", "d", "a", "b", "c", "d", "a"]));
}

#[test]
fn locked_tokens_are_passed_over() {
    let mut cycle = Cycle::new(tokens(&["a", "b", "c", "d"]));
    cycle.lock("b".to_string());
    cycle.lock("c".to_string());
    assert_eq!(take(&mut cycle), "d");
    assert_eq!(cycle.cursor(), 3);
    assert_eq!(take(&mut cycle), "a");
    assert_eq!(take(&mut cycle), "d");
}

#[test]
fn next_never_hands_out_a_locked_token() {
    let list = tokens(&["a", "b", "c", "d", "e"]);
    let mut cycle = Cycle::new(list.clone());
    // A fixed schedule of locks and unlocks between the scans.
    let schedule: [(usize, bool); 12] = [
        (0, true), (2, true), (4, true), (0, false), (1, true), (3, true),
        (2, false), (4, false), (0, true), (1, false), (3, false), (2, true),
    ];
    for round in 0..5 {
        for (slot, lock) in schedule.iter() {
            if *lock {
                cycle.lock(list[*slot].clone());
            } else {
                cycle.unlock(&list[*slot]);
            }
            match cycle.next(Patience::Polls(round)) {
                Step::Token(t) => {
                    assert!(!cycle.is_locked(&t));
                    assert!(cycle.is_in_list(&t));
                    assert_eq!(cycle.items()[cycle.cursor()], t);
                },
                Step::Wait { .. } | Step::NoCandidates => {
                    assert!(list.iter().all(|t| cycle.is_locked(t)));
                },
            }
        }
    }
}

#[test]
fn the_only_unlocked_token_is_found_from_any_cursor() {
    let list = tokens(&["a", "b", "c", "d"]);
    for free in 0..list.len() {
        for warm_up in 0..list.len() {
            let mut cycle = Cycle::new(list.clone());
            for _ in 0..warm_up {
                take(&mut cycle);
            }
            for (slot, t) in list.iter().enumerate() {
                if slot != free {
                    cycle.lock(t.clone());
                }
            }
            assert_eq!(take(&mut cycle), list[free]);
            assert_eq!(cycle.cursor(), free);
            assert_eq!(take(&mut cycle), list[free]);
        }
    }
}

#[test]
fn duplicates_in_the_list_are_each_a_slot() {
    let mut cycle = Cycle::new(tokens(&["a", "b", "a"]));
    assert_eq!(take(&mut cycle), "b");
    assert_eq!(take(&mut cycle), "a");
    assert_eq!(cycle.cursor(), 2);
    assert_eq!(take(&mut cycle), "a");
    assert_eq!(cycle.cursor(), 0);
    cycle.lock("a".to_string());
    assert_eq!(take(&mut cycle), "b");
    assert_eq!(take(&mut cycle), "b");
}
