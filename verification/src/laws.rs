//! What holds of a rotation whatever state it is in: the laws that relate
//! its operations to each other.
//!
//! Each law is stated over `Rotation`, the view of a `Cycle`, in the terms in
//! which the methods of `Cycle` state what they do.

use vstd::prelude::*;
use crate::rotation::{lemma_first_unlocked, lemma_picks_is_pick, lemma_slot_covers, Rotation};
use crate::step::{Outcome, Patience};
use crate::tokens::{
    at_most_once, first_occurrences, first_slot, lemma_first_occurrences_contains,
    lemma_first_occurrences_full, lemma_first_occurrences_len,
    lemma_first_occurrences_no_duplicates, lemma_first_occurrences_of_distinct,
    lemma_first_occurrences_order, lemma_push_contains, lemma_push_remove_value,
    lemma_remove_value_contains, lemma_remove_value_single, lemma_without_contains, Token,
};

verus! {

/// The rotation after `calls` scans in a row.
pub open spec fn after_calls(r: Rotation, calls: nat) -> Rotation
    decreases calls,
{
    if calls == 0 {
        r
    } else {
        after_calls(r, (calls - 1) as nat).advance()
    }
}

/// What scan number `k`, counted from 0, answers when scans follow each
/// other with nothing else in between.
pub open spec fn answer(r: Rotation, k: nat, patience: Patience) -> Outcome {
    after_calls(r, k).outcome(patience)
}

/// No token of the list is locked.
pub open spec fn nothing_locked(r: Rotation) -> bool {
    forall|i: int| 0 <= i < r.items.len() ==> !r.is_locked(#[trigger] r.items[i])
}

/// Among the first `calls` scans exactly one hands out `t`.
pub open spec fn handed_out_once(r: Rotation, calls: nat, patience: Patience, t: Token) -> bool {
    exists|k: nat|
        {
            &&& k < calls
            &&& #[trigger] answer(r, k, patience) == Outcome::Token(t)
            &&& forall|other: nat|
                other < calls && #[trigger] answer(r, other, patience) == Outcome::Token(t)
                    ==> other == k
        }
}

/// A scan never hands out a locked token, in whatever state the rotation
/// is: the token it answers is in the list and is not locked, neither
/// before the scan nor after it.
pub proof fn lemma_next_never_locked(r: Rotation, patience: Patience)
    ensures
        r.outcome(patience) matches Outcome::Token(t) ==> r.is_listed(t) && !r.is_locked(t)
            && !r.advance().is_locked(t),
{
}

/// A scan that finds a token leaves the cursor on a slot of the list,
/// wherever the cursor was before.
pub proof fn lemma_next_cursor_in_range(r: Rotation)
    requires
        r.next_slot() is Some,
    ensures
        r.advance().cursor_in_range(),
        r.advance().items[r.advance().cursor as int] == r.items[r.next_slot().unwrap()],
{
}

/// A cursor that is on a slot of the list stays on one through scans, locks
/// and unlocks. `remove` and `clear_duplicates` shorten the list and leave
/// the cursor alone, so it may then lie past the end, until the next scan
/// that finds a token puts it on a slot again.
pub proof fn lemma_cursor_stays_in_range(r: Rotation, t: Token)
    requires
        r.cursor_in_range(),
    ensures
        r.advance().cursor_in_range(),
        r.lock(t).cursor_in_range(),
        r.unlock(t).cursor_in_range(),
{
    if r.next_slot() is Some {
        lemma_next_cursor_in_range(r);
    }
}

/// While a token is unlocked, a scan stops at its slot or before it: it is
/// passed over only for an unlocked token that comes earlier in the scan.
pub proof fn lemma_unlocked_is_reached(r: Rotation, j: int, patience: Patience)
    requires
        0 <= j < r.items.len(),
        !r.is_locked(r.items[j]),
    ensures
        r.outcome(patience) is Token,
        j == r.start() ==> r.outcome(patience) == Outcome::Token(r.items[j]),
{
    let kj = lemma_slot_covers(r, j);
    let k = lemma_first_unlocked(r, kj);
    lemma_picks_is_pick(r, k);
}

/// With nothing locked, scan number `k` of a round hands out the token in
/// slot `slot(k)`: the scans walk the list in order, from the slot after the
/// cursor, around the end, and up to the cursor.
pub proof fn lemma_round_walks_the_list(r: Rotation, k: nat, patience: Patience)
    requires
        nothing_locked(r),
        k < r.items.len(),
    ensures
        after_calls(r, k).items == r.items,
        after_calls(r, k).locked == r.locked,
        after_calls(r, k).poll_interval == r.poll_interval,
        after_calls(r, k).start() == r.slot(k as int),
        answer(r, k, patience) == Outcome::Token(r.items[r.slot(k as int)]),
        after_calls(r, k + 1).cursor == r.slot(k as int),
    decreases k,
{
    if k > 0 {
        lemma_round_walks_the_list(r, (k - 1) as nat, patience);
    }
    let now = after_calls(r, k);
    lemma_picks_is_pick(now, 0);
}

/// Round-robin completeness. With nothing locked and no token twice in the
/// list, as many scans as the list has tokens hand out each token of the
/// list exactly once.
pub proof fn lemma_round_robin(r: Rotation, patience: Patience)
    requires
        nothing_locked(r),
        r.items.no_duplicates(),
    ensures
        forall|k: nat| k < r.items.len() ==> #[trigger] answer(r, k, patience) is Token,
        forall|t: Token|
            r.is_listed(t) ==> #[trigger] handed_out_once(r, r.items.len(), patience, t),
{
    let n = r.items.len();
    assert forall|k: nat| k < n implies #[trigger] answer(r, k, patience) is Token by {
        lemma_round_walks_the_list(r, k, patience);
    }
    assert forall|t: Token| r.is_listed(t) implies #[trigger] handed_out_once(
        r,
        n,
        patience,
        t,
    ) by {
        let j = choose|j: int| 0 <= j < n && r.items[j] == t;
        let k = lemma_slot_covers(r, j) as nat;
        lemma_round_walks_the_list(r, k, patience);
        assert forall|other: nat|
            other < n && #[trigger] answer(r, other, patience) == Outcome::Token(
                t,
            ) implies other == k by {
            lemma_round_walks_the_list(r, other, patience);
        }
    }
}

/// `lock` and then `unlock` of the same token leave it unlocked, and change
/// nothing else: the list, the cursor and every other token's lock are as
/// before, and where the token was not locked before, so is the whole
/// rotation. The next scan then hands out a token, and hands out this one if
/// it sits in the slot where the scan begins.
///
/// The law is stated of a token with at most one entry among the locked
/// tokens. Merging two rotations that both lock a token gives it two
/// entries, and one `unlock` takes out one of them.
pub proof fn lemma_lock_unlock_restores(r: Rotation, t: Token, patience: Patience)
    requires
        at_most_once(r.locked, t),
    ensures
        !r.lock(t).unlock(t).is_locked(t),
        r.lock(t).unlock(t).items == r.items,
        r.lock(t).unlock(t).cursor == r.cursor,
        r.lock(t).unlock(t).poll_interval == r.poll_interval,
        forall|x: Token| x != t ==> (r.lock(t).unlock(t).is_locked(x) <==> r.is_locked(x)),
        !r.is_locked(t) ==> r.lock(t).unlock(t) == r,
        r.is_listed(t) ==> r.lock(t).unlock(t).outcome(patience) is Token,
        r.items.len() > 0 && r.items[r.start()] == t ==> r.lock(t).unlock(t).outcome(patience)
            == Outcome::Token(t),
{
    let locked = r.lock(t);
    let back = locked.unlock(t);
    if r.is_listed(t) && !r.is_locked(t) {
        lemma_push_remove_value(r.locked, t);
    } else {
        lemma_remove_value_single(r.locked, t);
        if !r.is_locked(t) {
            r.locked.index_of_first_ensures(t);
        }
    }
    assert forall|x: Token| x != t implies (back.is_locked(x) <==> r.is_locked(x)) by {
        lemma_remove_value_contains(locked.locked, t, x);
        lemma_push_contains(r.locked, t, x);
    }
    if r.is_listed(t) {
        let j = choose|j: int| 0 <= j < r.items.len() && r.items[j] == t;
        lemma_unlocked_is_reached(back, j, patience);
    }
    if r.items.len() > 0 && r.items[r.start()] == t {
        lemma_unlocked_is_reached(back, r.start(), patience);
    }
}

/// Locking a token of the list keeps it out of the rotation: it is locked,
/// and the next scan does not hand it out.
pub proof fn lemma_lock_excludes(r: Rotation, t: Token, patience: Patience)
    requires
        r.is_listed(t),
    ensures
        r.lock(t).is_locked(t),
        r.lock(t).outcome(patience) != Outcome::Token(t),
{
    lemma_push_contains(r.locked, t, t);
    lemma_next_never_locked(r.lock(t), patience);
}

/// A locked token stays locked until it is unlocked or removed: scans,
/// locks, the unlocking or removing of other tokens and the dropping of
/// later occurrences all leave it locked.
pub proof fn lemma_lock_persists(r: Rotation, t: Token, other: Token)
    requires
        r.is_locked(t),
    ensures
        r.advance().is_locked(t),
        r.lock(other).is_locked(t),
        r.compact().is_locked(t),
        other != t ==> r.unlock(other).is_locked(t),
        other != t ==> r.remove(other).is_locked(t),
{
    lemma_push_contains(r.locked, other, t);
    lemma_remove_value_contains(r.locked, other, t);
    lemma_without_contains(r.locked, other, t);
}

/// However many scans follow each other, none of them hands out a token
/// that is locked, for as long as nothing unlocks it.
pub proof fn lemma_locked_out_of_every_scan(r: Rotation, t: Token, k: nat, patience: Patience)
    requires
        r.is_locked(t),
    ensures
        after_calls(r, k).is_locked(t),
        answer(r, k, patience) != Outcome::Token(t),
    decreases k,
{
    if k > 0 {
        lemma_locked_out_of_every_scan(r, t, (k - 1) as nat, patience);
    }
    lemma_next_never_locked(after_calls(r, k), patience);
}

/// Locking a token twice is locking it once.
pub proof fn lemma_lock_idempotent(r: Rotation, t: Token)
    ensures
        r.lock(t).lock(t) == r.lock(t),
{
    lemma_push_contains(r.locked, t, t);
}

/// After `remove`, the token is neither in the list nor locked, and every
/// other token is where it was.
pub proof fn lemma_remove_forgets(r: Rotation, t: Token, other: Token)
    ensures
        !r.remove(t).is_listed(t),
        !r.remove(t).is_locked(t),
        other != t ==> (r.remove(t).is_listed(other) <==> r.is_listed(other)),
        other != t ==> (r.remove(t).is_locked(other) <==> r.is_locked(other)),
{
    lemma_without_contains(r.items, t, t);
    lemma_without_contains(r.locked, t, t);
    lemma_without_contains(r.items, t, other);
    lemma_without_contains(r.locked, t, other);
}

/// Dropping later occurrences loses no token of the list and adds none;
/// what stays holds no token twice, and is the whole list exactly when that
/// held no token twice. Doing it again changes nothing.
pub proof fn lemma_compact_keeps_tokens(r: Rotation, t: Token)
    ensures
        r.compact().is_listed(t) <==> r.is_listed(t),
        r.compact().items.no_duplicates(),
        r.compact().items.len() <= r.items.len(),
        r.compact().items.len() == r.items.len() <==> r.items.no_duplicates(),
        r.compact().compact() == r.compact(),
{
    lemma_first_occurrences_contains(r.items, t);
    lemma_first_occurrences_no_duplicates(r.items);
    lemma_first_occurrences_len(r.items);
    lemma_first_occurrences_full(r.items);
    lemma_first_occurrences_of_distinct(first_occurrences(r.items));
}

/// After dropping later occurrences the tokens stand in the order in which
/// they occurred first: of two tokens that stay, the one in the earlier slot
/// is the one whose first occurrence came earlier.
pub proof fn lemma_compact_keeps_order(r: Rotation, a: int, b: int)
    requires
        0 <= a < b < r.compact().items.len(),
    ensures
        first_slot(r.items, r.compact().items[a]) < first_slot(r.items, r.compact().items[b]),
        first_slot(r.items, r.compact().items[b]) < r.items.len(),
{
    lemma_first_occurrences_order(r.items, a, b);
}

} // verus!
