//! The mathematical model of a rotation: what a `Cycle` is to its contracts.
//!
//! A rotation is a list of tokens, a list of the tokens that are locked, and
//! a cursor that marks the slot handed out last. Every operation of the
//! library is a function from one rotation to the next.

use vstd::prelude::*;
use crate::tokens::{
    first_occurrences, lemma_concat_contains, lemma_first_occurrences_contains,
    lemma_push_contains, lemma_remove_value_contains, lemma_without_contains, other_than, Token,
};

verus! {

/// The state of a rotation.
pub struct Rotation {
    /// The tokens, in scan order. A token may occur more than once.
    pub items: Seq<Token>,
    /// The tokens that are kept out of the rotation for now.
    pub locked: Seq<Token>,
    /// The slot that was handed out last.
    pub cursor: nat,
    /// Milliseconds to wait before scanning again when every token is locked.
    pub poll_interval: u64,
}

impl Rotation {
    /// Only tokens of the list are locked.
    pub open spec fn wf(self) -> bool {
        forall|t: Token| self.locked.contains(t) ==> self.items.contains(t)
    }

    /// The cursor points at a slot of the list, or is 0 when the list is empty.
    pub open spec fn cursor_in_range(self) -> bool {
        if self.items.len() == 0 {
            self.cursor == 0
        } else {
            self.cursor < self.items.len()
        }
    }

    /// `t` is a token of the list.
    pub open spec fn is_listed(self, t: Token) -> bool {
        self.items.contains(t)
    }

    /// `t` is locked.
    pub open spec fn is_locked(self, t: Token) -> bool {
        self.locked.contains(t)
    }

    /// The slot at which a scan begins: the one after the cursor, or slot 0
    /// when the cursor is at or past the last slot.
    pub open spec fn start(self) -> int {
        if self.cursor + 1 < self.items.len() {
            self.cursor as int + 1
        } else {
            0
        }
    }

    /// The slot that a scan examines after passing over `k` others.
    pub open spec fn slot(self, k: int) -> int {
        if self.start() + k < self.items.len() {
            self.start() + k
        } else {
            self.start() + k - self.items.len()
        }
    }

    /// The first `k` slots of a scan all hold locked tokens.
    pub open spec fn skips(self, k: int) -> bool {
        forall|i: int| 0 <= i < k ==> self.is_locked(#[trigger] self.items[self.slot(i)])
    }

    /// A scan passes over exactly `k` slots and stops at the next one.
    pub open spec fn picks(self, k: int) -> bool {
        &&& 0 <= k < self.items.len()
        &&& self.skips(k)
        &&& !self.is_locked(self.items[self.slot(k)])
    }

    /// The list is not empty and every token in it is locked.
    pub open spec fn all_locked(self) -> bool {
        &&& self.items.len() > 0
        &&& forall|i: int| 0 <= i < self.items.len() ==> self.is_locked(#[trigger] self.items[i])
    }

    /// How many slots a scan passes over before it finds an unlocked token,
    /// or `None` when it finds none.
    pub open spec fn pick(self) -> Option<int> {
        if exists|k: int| self.picks(k) {
            Some(choose|k: int| self.picks(k))
        } else {
            None
        }
    }

    /// The slot of the next unlocked token in cyclic order after the cursor.
    pub open spec fn next_slot(self) -> Option<int> {
        match self.pick() {
            Some(k) => Some(self.slot(k)),
            None => None,
        }
    }

    /// The rotation after a scan: the cursor moves to the slot that was
    /// found; where none was found nothing changes.
    pub open spec fn advance(self) -> Rotation {
        match self.next_slot() {
            Some(j) => Rotation { cursor: j as nat, ..self },
            None => self,
        }
    }

    /// Locks `t` if it is in the list and not locked yet.
    pub open spec fn lock(self, t: Token) -> Rotation {
        if self.is_listed(t) && !self.is_locked(t) {
            Rotation { locked: self.locked.push(t), ..self }
        } else {
            self
        }
    }

    /// Takes the first entry for `t` out of the locked tokens, if there is one.
    pub open spec fn unlock(self, t: Token) -> Rotation {
        Rotation { locked: self.locked.remove_value(t), ..self }
    }

    /// Takes every occurrence of `t` out of the list and out of the locked
    /// tokens. The cursor stays where it is.
    pub open spec fn remove(self, t: Token) -> Rotation {
        Rotation {
            items: self.items.filter(other_than(t)),
            locked: self.locked.filter(other_than(t)),
            ..self
        }
    }

    /// Keeps the first occurrence of every token of the list and drops the
    /// later ones. The locked tokens and the cursor stay as they are.
    pub open spec fn compact(self) -> Rotation {
        Rotation { items: first_occurrences(self.items), ..self }
    }

    /// The list of `self` followed by that of `other`, and likewise their
    /// locked tokens; the cursor starts over and the poll interval is that
    /// of `self`.
    pub open spec fn merge(self, other: Rotation) -> Rotation {
        Rotation {
            items: self.items + other.items,
            locked: self.locked + other.locked,
            cursor: 0,
            poll_interval: self.poll_interval,
        }
    }
}

/// A scan stops at one slot only.
pub proof fn lemma_picks_unique(r: Rotation, a: int, b: int)
    requires
        r.picks(a),
        r.picks(b),
    ensures
        a == b,
{
}

/// A scan that stops after `k` slots fixes `pick`.
pub proof fn lemma_picks_is_pick(r: Rotation, k: int)
    requires
        r.picks(k),
    ensures
        r.pick() == Some(k),
        r.next_slot() == Some(r.slot(k)),
        0 <= r.slot(k) < r.items.len(),
{
    let c = choose|c: int| r.picks(c);
    lemma_picks_unique(r, c, k);
}

/// Every slot of the list is examined by a scan at some point.
pub proof fn lemma_slot_covers(r: Rotation, j: int) -> (k: int)
    requires
        0 <= j < r.items.len(),
    ensures
        0 <= k < r.items.len(),
        r.slot(k) == j,
{
    if j >= r.start() {
        j - r.start()
    } else {
        j + r.items.len() - r.start()
    }
}

/// A scan finds nothing exactly when the list is empty or all of it is locked.
pub proof fn lemma_pick_none(r: Rotation)
    ensures
        r.pick() is None <==> (r.items.len() == 0 || r.all_locked()),
{
    if r.items.len() > 0 && !r.all_locked() {
        let j = choose|j: int| 0 <= j < r.items.len() && !r.is_locked(#[trigger] r.items[j]);
        let kj = lemma_slot_covers(r, j);
        let k = lemma_first_unlocked(r, kj);
        lemma_picks_is_pick(r, k);
    }
}

/// If the slot examined after `bound` others is unlocked, a scan stops there
/// or earlier.
pub proof fn lemma_first_unlocked(r: Rotation, bound: int) -> (k: int)
    requires
        0 <= bound < r.items.len(),
        !r.is_locked(r.items[r.slot(bound)]),
    ensures
        0 <= k <= bound,
        r.picks(k),
    decreases bound,
{
    if r.skips(bound) {
        bound
    } else {
        let i = choose|i: int| 0 <= i < bound && !r.is_locked(#[trigger] r.items[r.slot(i)]);
        lemma_first_unlocked(r, i)
    }
}

/// Locking keeps the rotation well formed.
pub proof fn lemma_lock_wf(r: Rotation, t: Token)
    requires
        r.wf(),
    ensures
        r.lock(t).wf(),
{
    assert forall|x: Token| r.lock(t).locked.contains(x) implies r.items.contains(x) by {
        lemma_push_contains(r.locked, t, x);
    }
}

/// Unlocking keeps the rotation well formed.
pub proof fn lemma_unlock_wf(r: Rotation, t: Token)
    requires
        r.wf(),
    ensures
        r.unlock(t).wf(),
{
    assert forall|x: Token| r.unlock(t).locked.contains(x) implies r.items.contains(x) by {
        lemma_remove_value_contains(r.locked, t, x);
    }
}

/// Removing a token keeps the rotation well formed.
pub proof fn lemma_remove_wf(r: Rotation, t: Token)
    requires
        r.wf(),
    ensures
        r.remove(t).wf(),
{
    assert forall|x: Token| r.remove(t).locked.contains(x) implies r.remove(t).items.contains(
        x,
    ) by {
        lemma_without_contains(r.locked, t, x);
        lemma_without_contains(r.items, t, x);
    }
}

/// Dropping later occurrences keeps the rotation well formed.
pub proof fn lemma_compact_wf(r: Rotation)
    requires
        r.wf(),
    ensures
        r.compact().wf(),
{
    assert forall|x: Token| r.locked.contains(x) implies r.compact().items.contains(x) by {
        lemma_first_occurrences_contains(r.items, x);
    }
}

/// Two well-formed rotations merge into a well-formed one.
pub proof fn lemma_merge_wf(a: Rotation, b: Rotation)
    requires
        a.wf(),
        b.wf(),
    ensures
        a.merge(b).wf(),
{
    assert forall|x: Token| a.merge(b).locked.contains(x) implies a.merge(b).items.contains(
        x,
    ) by {
        lemma_concat_contains(a.locked, b.locked, x);
        lemma_concat_contains(a.items, b.items, x);
    }
}

} // verus!
