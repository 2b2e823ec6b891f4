use token_rotation::cycle::{combine_two_cycles, Cycle, DEFAULT_POLL_INTERVAL_MS};
use token_rotation::step::{Patience, Step};

fn tokens(names: &[&str]) -> Vec<String> {
    names.iter().map(|s| s.to_string()).collect()
}

fn token(name: &str) -> Step {
    Step::Token(name.to_string())
}

#[test]
fn new_cycle_starts_at_slot_zero_with_nothing_locked() {
    let cycle = Cycle::new(tokens(&["a", "b", "a"]));
    assert_eq!(cycle.items(), &tokens(&["a", "b", "a"]));
    assert!(cycle.locked().is_empty());
    assert_eq!(cycle.cursor(), 0);
    assert_eq!(cycle.list_length(), 3);
    assert_eq!(cycle.poll_interval_ms(), 50);
    assert_eq!(DEFAULT_POLL_INTERVAL_MS, 50);
}

#[test]
fn new_cycle_may_be_empty() {
    let cycle = Cycle::new(Vec::new());
    assert_eq!(cycle.list_length(), 0);
    assert_eq!(cycle.cursor(), 0);
    assert!(!cycle.is_in_list("a"));
    assert!(!cycle.is_locked("a"));
}

#[test]
fn is_in_list_compares_whole_tokens() {
    let cycle = Cycle::new(tokens(&["10.0.0.1:80", "10.0.0.2:80", ""]));
    assert!(cycle.is_in_list("10.0.0.1:80"));
    assert!(cycle.is_in_list("10.0.0.2:80"));
    assert!(cycle.is_in_list(""));
    assert!(!cycle.is_in_list("10.0.0.1:8"));
    assert!(!cycle.is_in_list("10.0.0.1:800"));
    assert!(!cycle.is_in_list("10.0.0.3:80"));
}

#[test]
fn tokens_outside_ascii_are_told_apart() {
    let mut cycle = Cycle::new(tokens(&["zürich", "zurich", "東京"]));
    assert!(cycle.is_in_list("zürich"));
    assert!(cycle.is_in_list("東京"));
    assert!(!cycle.is_in_list("東"));
    assert!(!cycle.is_in_list("京東"));
    cycle.lock("zürich".to_string());
    assert!(cycle.is_locked("zürich"));
    assert!(!cycle.is_locked("zurich"));
    assert_eq!(cycle.next(Patience::Unbounded), token("zurich"));
    assert_eq!(cycle.next(Patience::Unbounded), token("東京"));
    assert_eq!(cycle.next(Patience::Unbounded), token("zurich"));
}

#[test]
fn clear_duplicates_keeps_first_occurrences() {
    let mut cycle = Cycle::new(tokens(&["a", "b", "a", "c", "b"]));
    assert_eq!(cycle.clear_duplicates(), 2);
    assert_eq!(cycle.items(), &tokens(&["a", "b", "c"]));
}

#[test]
fn clear_duplicates_leaves_a_distinct_list_alone() {
    let mut cycle = Cycle::new(tokens(&["c", "a", "b"]));
    assert_eq!(cycle.clear_duplicates(), 0);
    assert_eq!(cycle.items(), &tokens(&["c", "a", "b"]));
    let mut empty = Cycle::new(Vec::new());
    assert_eq!(empty.clear_duplicates(), 0);
    assert_eq!(empty.list_length(), 0);
}

#[test]
fn clear_duplicates_counts_every_later_occurrence() {
    let mut cycle = Cycle::new(tokens(&["x", "x", "x", "x"]));
    assert_eq!(cycle.clear_duplicates(), 3);
    assert_eq!(cycle.items(), &tokens(&["x"]));
    assert_eq!(cycle.clear_duplicates(), 0);
}

#[test]
fn clear_duplicates_does_not_touch_locks_or_cursor() {
    let mut cycle = Cycle::new(tokens(&["a", "b", "a", "c"]));
    cycle.lock("a".to_string());
    assert_eq!(cycle.next(Patience::Unbounded), token("b"));
    assert_eq!(cycle.next(Patience::Unbounded), token("c"));
    assert_eq!(cycle.cursor(), 3);
    assert_eq!(cycle.clear_duplicates(), 1);
    assert_eq!(cycle.locked(), &tokens(&["a"]));
    assert_eq!(cycle.cursor(), 3);
    // The cursor is past the end now, so the scan begins at slot 0.
    assert_eq!(cycle.next(Patience::Unbounded), token("b"));
    assert_eq!(cycle.cursor(), 1);
}

#[test]
fn remove_drops_every_occurrence_and_the_lock() {
    let mut cycle = Cycle::new(tokens(&["a", "b", "c", "b"]));
    cycle.lock("b".to_string());
    assert!(cycle.is_locked("b"));
    cycle.remove("b");
    assert_eq!(cycle.items(), &tokens(&["a", "c"]));
    assert!(!cycle.is_locked("b"));
    assert!(cycle.locked().is_empty());
}

#[test]
fn remove_of_an_unlisted_token_changes_nothing() {
    let mut cycle = Cycle::new(tokens(&["a", "b"]));
    cycle.lock("a".to_string());
    cycle.remove("z");
    assert_eq!(cycle.items(), &tokens(&["a", "b"]));
    assert_eq!(cycle.locked(), &tokens(&["a"]));
}

#[test]
fn remove_keeps_the_cursor_where_it_is() {
    let mut cycle = Cycle::new(tokens(&["a", "b", "c"]));
    assert_eq!(cycle.next(Patience::Unbounded), token("b"));
    assert_eq!(cycle.next(Patience::Unbounded), token("c"));
    assert_eq!(cycle.cursor(), 2);
    cycle.remove("c");
    assert_eq!(cycle.cursor(), 2);
    assert_eq!(cycle.next(Patience::Unbounded), token("a"));
    assert_eq!(cycle.cursor(), 0);
}

#[test]
fn remove_of_the_last_token_leaves_no_candidates() {
    let mut cycle = Cycle::new(tokens(&["a", "a"]));
    assert_eq!(cycle.next(Patience::Unbounded), token("a"));
    cycle.remove("a");
    assert_eq!(cycle.list_length(), 0);
    assert_eq!(cycle.next(Patience::Unbounded), Step::NoCandidates);
    assert_eq!(cycle.next(Patience::Polls(0)), Step::NoCandidates);
}

#[test]
fn merge_concatenates_and_resets_the_cursor() {
    let mut c1 = Cycle::new(tokens(&["a", "b"]));
    let c2 = Cycle::new(tokens(&["c", "d"]));
    assert_eq!(c1.next(Patience::Unbounded), token("b"));
    assert_eq!(c1.cursor(), 1);
    let merged = combine_two_cycles(&c1, &c2);
    assert_eq!(merged.items(), &tokens(&["a", "b", "c", "d"]));
    assert_eq!(merged.cursor(), 0);
    assert_eq!(merged.list_length(), 4);
    assert_eq!(merged.poll_interval_ms(), c1.poll_interval_ms());
}

#[test]
fn merge_leaves_its_arguments_alone() {
    let mut c1 = Cycle::new(tokens(&["a", "b"]));
    let mut c2 = Cycle::new(tokens(&["c"]));
    c1.lock("a".to_string());
    c2.lock("c".to_string());
    assert_eq!(c1.next(Patience::Unbounded), token("b"));
    let merged = combine_two_cycles(&c1, &c2);
    assert_eq!(merged.locked(), &tokens(&["a", "c"]));
    assert_eq!(c1.items(), &tokens(&["a", "b"]));
    assert_eq!(c1.locked(), &tokens(&["a"]));
    assert_eq!(c1.cursor(), 1);
    assert_eq!(c2.items(), &tokens(&["c"]));
    assert_eq!(c2.locked(), &tokens(&["c"]));
}

#[test]
fn merge_keeps_tokens_that_are_in_both_lists() {
    let c1 = Cycle::new(tokens(&["a", "b"]));
    let c2 = Cycle::new(tokens(&["b", "c"]));
    let mut merged = combine_two_cycles(&c1, &c2);
    assert_eq!(merged.items(), &tokens(&["a", "b", "b", "c"]));
    assert_eq!(merged.clear_duplicates(), 1);
    assert_eq!(merged.items(), &tokens(&["a", "b", "c"]));
}

#[test]
fn merge_with_an_empty_cycle() {
    let c1 = Cycle::new(tokens(&["a"]));
    let none = Cycle::new(Vec::new());
    assert_eq!(combine_two_cycles(&c1, &none).items(), &tokens(&["a"]));
    assert_eq!(combine_two_cycles(&none, &c1).items(), &tokens(&["a"]));
    assert_eq!(combine_two_cycles(&none, &none).list_length(), 0);
}

#[test]
fn next_on_an_empty_cycle_has_no_candidates() {
    let mut cycle = Cycle::new(Vec::new());
    assert_eq!(cycle.next(Patience::Unbounded), Step::NoCandidates);
    assert_eq!(cycle.next(Patience::Polls(3)), Step::NoCandidates);
    assert_eq!(cycle.cursor(), 0);
}
