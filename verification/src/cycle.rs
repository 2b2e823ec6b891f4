//! The rotation itself: a list of tokens that is handed out round-robin,
//! passing over the tokens that are locked.
//!
//! A `Cycle` is a plain value. Every method that changes it takes `&mut
//! self`, so a caller that shares one among threads keeps it behind a single
//! mutex and holds that mutex for the length of one call, never across a
//! wait.

use vstd::prelude::*;
use crate::rotation::{
    lemma_compact_wf, lemma_lock_wf, lemma_merge_wf, lemma_pick_none, lemma_picks_is_pick,
    lemma_remove_wf, lemma_slot_covers, lemma_unlock_wf, Rotation,
};
use crate::step::{Outcome, Patience, Step};
use crate::text::same_text;
use crate::tokens::{
    at_most_once, first_occurrences, lemma_first_occurrences_contains,
    lemma_first_occurrences_no_duplicates, lemma_first_occurrences_push, lemma_push_contains,
    lemma_remove_value_single, lemma_without_contains, other_than, Token,
};

verus! {

/// Milliseconds that a new cycle waits between two scans while all tokens
/// are locked.
pub const DEFAULT_POLL_INTERVAL_MS: u64 = 50;

/// A round-robin rotation over a list of tokens, some of which may be locked.
///
/// Only tokens of the list are ever locked: `self@.wf()` holds of every
/// cycle. The cursor is a slot of the list after every successful scan; when
/// the list shrinks under it, the next scan begins at slot 0.
pub struct Cycle {
    locked: Vec<String>,
    list: Vec<String>,
    cursor: usize,
    poll_interval_ms: u64,
}

impl View for Cycle {
    type V = Rotation;

    closed spec fn view(&self) -> Rotation {
        Rotation {
            items: self.list.deep_view(),
            locked: self.locked.deep_view(),
            cursor: self.cursor as nat,
            poll_interval: self.poll_interval_ms,
        }
    }
}

/// Whether `element` is among `tokens`.
fn holds(tokens: &Vec<String>, element: &str) -> (found: bool)
    ensures
        found == tokens.deep_view().contains(element@),
{
    let mut k: usize = 0;
    while k < tokens.len()
        invariant
            k <= tokens.len(),
            forall|j: int| 0 <= j < k ==> tokens.deep_view()[j] != element@,
        decreases tokens.len() - k,
    {
        if same_text(tokens[k].as_str(), element) {
            assert(tokens.deep_view()[k as int] == element@);
            return true;
        }
        k += 1;
    }
    false
}

/// The tokens of `tokens` other than `element`, in the same order.
fn without(tokens: &Vec<String>, element: &str) -> (kept: Vec<String>)
    ensures
        kept.deep_view() == tokens.deep_view().filter(other_than(element@)),
{
    let mut kept: Vec<String> = Vec::new();
    let mut k: usize = 0;
    proof {
        reveal(Seq::filter);
    }
    while k < tokens.len()
        invariant
            k <= tokens.len(),
            kept.deep_view() == tokens.deep_view().take(k as int).filter(other_than(element@)),
        decreases tokens.len() - k,
    {
        let ghost seen = tokens.deep_view().take(k as int);
        let ghost token = tokens[k as int]@;
        proof {
            assert(tokens.deep_view().take(k + 1) =~= seen.push(token));
            seen.lemma_filter_push(token, other_than(element@));
        }
        if !same_text(tokens[k].as_str(), element) {
            kept.push(tokens[k].clone());
        }
        k += 1;
    }
    assert(tokens.deep_view().take(k as int) =~= tokens.deep_view());
    kept
}

impl Cycle {
    #[verifier::type_invariant]
    spec fn inv(self) -> bool {
        self@.wf()
    }

    /// Hands out the locked tokens and leaves none locked, so that the
    /// caller can change them and put them back.
    fn take_locked(&mut self) -> (locked: Vec<String>)
        ensures
            locked == old(self).locked,
            final(self).list == old(self).list,
            final(self).cursor == old(self).cursor,
            final(self).poll_interval_ms == old(self).poll_interval_ms,
            final(self).locked@.len() == 0,
    {
        let mut locked: Vec<String> = Vec::new();
        assert forall|t: Token| !locked.deep_view().contains(t) by {}
        core::mem::swap(&mut self.locked, &mut locked);
        locked
    }

    /// A cycle over `list`, with nothing locked and the cursor at slot 0.
    /// The list is taken as it is: tokens that occur twice stay.
    pub fn new(list: Vec<String>) -> (cycle: Self)
        ensures
            cycle@.items == list.deep_view(),
            cycle@.locked == Seq::<Token>::empty(),
            cycle@.cursor == 0,
            cycle@.poll_interval == DEFAULT_POLL_INTERVAL_MS,
            cycle@.wf(),
    {
        Cycle { locked: Vec::new(), list, cursor: 0, poll_interval_ms: DEFAULT_POLL_INTERVAL_MS }
    }

    /// Whether `element` is a token of the list.
    pub fn is_in_list(&self, element: &str) -> (listed: bool)
        ensures
            listed == self@.is_listed(element@),
    {
        holds(&self.list, element)
    }

    /// Whether `element` is locked.
    pub fn is_locked(&self, element: &str) -> (locked: bool)
        ensures
            locked == self@.is_locked(element@),
    {
        holds(&self.locked, element)
    }

    /// Scans for the next unlocked token in cyclic order, beginning just
    /// after the cursor, and moves the cursor to the slot where it was found.
    ///
    /// The call never blocks. Where every token is locked it answers
    /// `Step::Wait` as long as `patience` allows, and leaves the waiting to
    /// the caller; on an empty list, or when the patience has run out, it
    /// answers `Step::NoCandidates`. In both cases the cycle is unchanged.
    pub fn next(&mut self, patience: Patience) -> (step: Step)
        ensures
            final(self)@ == old(self)@.advance(),
            step@ == old(self)@.outcome(patience),
            old(self)@.items.len() > 0 && !old(self)@.is_locked(
                old(self)@.items[old(self)@.start()],
            ) ==> step@ == Outcome::Token(old(self)@.items[old(self)@.start()])
                && final(self)@.cursor == old(self)@.start(),
            step is Token <==> old(self)@.items.len() > 0 && !old(self)@.all_locked(),
            step is Wait <==> old(self)@.all_locked() && patience.can_wait(),
            step is NoCandidates <==> old(self)@.items.len() == 0 || (old(self)@.all_locked()
                && !patience.can_wait()),
            step matches Step::Token(t) ==> final(self)@.cursor < final(self)@.items.len()
                && final(self)@.items[final(self)@.cursor as int] == t@ && !final(self)@.is_locked(t@),
            final(self)@.wf(),
    {
        proof {
            use_type_invariant(&*self);
            lemma_pick_none(self@);
        }
        let n = self.list.len();
        if n == 0 {
            return Step::NoCandidates;
        }
        let start: usize = if self.cursor < n - 1 {
            self.cursor + 1
        } else {
            0
        };
        let mut k: usize = 0;
        while k < n
            invariant
                n == self.list.len(),
                n > 0,
                k <= n,
                start == self@.start(),
                self@.skips(k as int),
                self@.wf(),
                *self == *old(self),
            decreases n - k,
        {
            let j: usize = if k < n - start {
                start + k
            } else {
                k - (n - start)
            };
            if !holds(&self.locked, self.list[j].as_str()) {
                proof {
                    lemma_picks_is_pick(self@, k as int);
                    if !self@.is_locked(self@.items[self@.start()]) {
                        lemma_picks_is_pick(self@, 0);
                    }
                }
                let token = self.list[j].clone();
                self.cursor = j;
                return Step::Token(token);
            }
            k += 1;
        }
        proof {
            assert forall|j: int| 0 <= j < self@.items.len() implies self@.is_locked(
                #[trigger] self@.items[j],
            ) by {
                lemma_slot_covers(self@, j);
            }
        }
        match patience {
            Patience::Unbounded => Step::Wait { millis: self.poll_interval_ms, patience },
            Patience::Polls(left) => if left > 0 {
                Step::Wait { millis: self.poll_interval_ms, patience: Patience::Polls(left - 1) }
            } else {
                Step::NoCandidates
            },
        }
    }

    /// Locks `element`, so that `next` passes over it. A token that is not
    /// in the list, or that is locked already, leaves the cycle unchanged.
    pub fn lock(&mut self, element: String)
        ensures
            final(self)@ == old(self)@.lock(element@),
            final(self)@.is_locked(element@) <==> old(self)@.is_listed(element@),
            final(self)@.wf(),
    {
        proof {
            use_type_invariant(&*self);
            lemma_lock_wf(self@, element@);
            lemma_push_contains(self@.locked, element@, element@);
        }
        if holds(&self.list, element.as_str()) && !holds(&self.locked, element.as_str()) {
            let ghost before = self@;
            let mut locked = self.take_locked();
            locked.push(element);
            assert(locked.deep_view() =~= before.locked.push(element@));
            self.locked = locked;
        }
    }

    /// Unlocks `element` by taking its first entry out of the locked tokens.
    /// A token that is not locked leaves the cycle unchanged.
    pub fn unlock(&mut self, element: &str)
        ensures
            final(self)@ == old(self)@.unlock(element@),
            at_most_once(old(self)@.locked, element@) ==> !final(self)@.is_locked(element@),
            final(self)@.wf(),
    {
        proof {
            use_type_invariant(&*self);
            lemma_unlock_wf(self@, element@);
            self@.locked.index_of_first_ensures(element@);
            if at_most_once(self@.locked, element@) {
                lemma_remove_value_single(self@.locked, element@);
            }
        }
        let mut k: usize = 0;
        while k < self.locked.len()
            invariant
                k <= self.locked.len(),
                *self == *old(self),
                self@.wf(),
                self@.unlock(element@).wf(),
                forall|j: int| 0 <= j < k ==> self@.locked[j] != element@,
            decreases self.locked.len() - k,
        {
            if same_text(self.locked[k].as_str(), element) {
                let ghost before = self@;
                proof {
                    assert(before.locked[k as int] == element@);
                    before.locked.index_of_first_ensures(element@);
                }
                let mut locked = self.take_locked();
                locked.remove(k);
                assert(locked.deep_view() =~= before.locked.remove(k as int));
                self.locked = locked;
                return ;
            }
            k += 1;
        }
    }

    /// Drops every later occurrence of a token from the list, so that what
    /// stays is the first occurrence of each, in the same order. Returns how
    /// many entries were dropped. The locked tokens stay as they are.
    pub fn clear_duplicates(&mut self) -> (removed: usize)
        ensures
            final(self)@ == old(self)@.compact(),
            removed == old(self)@.items.len() - final(self)@.items.len(),
            final(self)@.items.no_duplicates(),
            final(self)@.wf(),
    {
        proof {
            use_type_invariant(&*self);
            lemma_compact_wf(self@);
            lemma_first_occurrences_no_duplicates(self@.items);
        }
        let mut removed: usize = 0;
        let mut kept: Vec<String> = Vec::new();
        let mut k: usize = 0;
        while k < self.list.len()
            invariant
                k <= self.list.len(),
                *self == *old(self),
                kept.deep_view() == first_occurrences(self.list.deep_view().take(k as int)),
                removed + kept.len() == k,
            decreases self.list.len() - k,
        {
            let ghost seen = self.list.deep_view().take(k as int);
            let ghost token = self.list[k as int]@;
            proof {
                assert(self.list.deep_view().take(k + 1) =~= seen.push(token));
                lemma_first_occurrences_push(seen, token);
                lemma_first_occurrences_contains(seen, token);
            }
            if holds(&kept, self.list[k].as_str()) {
                removed += 1;
            } else {
                kept.push(self.list[k].clone());
            }
            k += 1;
        }
        assert(self.list.deep_view().take(k as int) =~= self.list.deep_view());
        self.list = kept;
        removed
    }

    /// Takes every occurrence of `element` out of the list and out of the
    /// locked tokens. The cursor is left where it is: the next scan begins
    /// after it, or at slot 0 if the list has become too short for it.
    pub fn remove(&mut self, element: &str)
        ensures
            final(self)@ == old(self)@.remove(element@),
            !final(self)@.is_listed(element@),
            !final(self)@.is_locked(element@),
            final(self)@.wf(),
    {
        proof {
            use_type_invariant(&*self);
            lemma_remove_wf(self@, element@);
            lemma_without_contains(self@.items, element@, element@);
            lemma_without_contains(self@.locked, element@, element@);
        }
        let list = without(&self.list, element);
        let locked = without(&self.locked, element);
        // Nothing is locked between the two assignments, so that only listed
        // tokens are locked at every point.
        self.locked = Vec::new();
        assert forall|t: Token| !self@.locked.contains(t) by {}
        self.list = list;
        self.locked = locked;
    }

    /// The number of tokens in the list, counting each occurrence.
    pub fn list_length(&self) -> (length: usize)
        ensures
            length == self@.items.len(),
    {
        self.list.len()
    }

    /// The tokens of the list, in scan order.
    pub fn items(&self) -> (items: &Vec<String>)
        ensures
            items.deep_view() == self@.items,
    {
        &self.list
    }

    /// The locked tokens, in the order in which they were locked.
    pub fn locked(&self) -> (locked: &Vec<String>)
        ensures
            locked.deep_view() == self@.locked,
    {
        &self.locked
    }

    /// The slot that was handed out last.
    pub fn cursor(&self) -> (cursor: usize)
        ensures
            cursor == self@.cursor,
    {
        self.cursor
    }

    /// Milliseconds to wait between two scans while every token is locked.
    pub fn poll_interval_ms(&self) -> (millis: u64)
        ensures
            millis == self@.poll_interval,
    {
        self.poll_interval_ms
    }
}

/// A new cycle whose list is that of `c1` followed by that of `c2`, with the
/// locked tokens of both, the cursor at slot 0 and the poll interval of
/// `c1`. Tokens that are in both lists occur twice in the result. Neither
/// `c1` nor `c2` is changed.
pub fn combine_two_cycles(c1: &Cycle, c2: &Cycle) -> (combined: Cycle)
    ensures
        combined@ == c1@.merge(c2@),
        combined@.wf(),
{
    proof {
        use_type_invariant(c1);
        use_type_invariant(c2);
        lemma_merge_wf(c1@, c2@);
    }
    let mut combined_list: Vec<String> = Vec::new();
    combined_list.extend_from_slice(c1.list.as_slice());
    combined_list.extend_from_slice(c2.list.as_slice());

    let mut combined_locked: Vec<String> = Vec::new();
    combined_locked.extend_from_slice(c1.locked.as_slice());
    combined_locked.extend_from_slice(c2.locked.as_slice());

    proof {
        assert(combined_list.deep_view() =~= c1@.items + c2@.items);
        assert(combined_locked.deep_view() =~= c1@.locked + c2@.locked);
    }
    Cycle {
        locked: combined_locked,
        list: combined_list,
        cursor: 0,
        poll_interval_ms: c1.poll_interval_ms,
    }
}

} // verus!
