//! Sequences of tokens: what it means to drop a token from a list and to
//! keep only the first occurrence of each.

use vstd::prelude::*;

verus! {

/// A token, taken as the sequence of its characters.
pub type Token = Seq<char>;

/// The test that holds of every token but `t`.
pub open spec fn other_than(t: Token) -> spec_fn(Token) -> bool {
    |x: Token| x != t
}

/// `t` occurs in `s` once or not at all.
pub open spec fn at_most_once(s: Seq<Token>, t: Token) -> bool {
    forall|i: int, j: int|
        0 <= i < s.len() && 0 <= j < s.len() && s[i] == t && s[j] == t ==> i == j
}

/// The tokens of `s` in the order of their first occurrence: an element is
/// kept exactly when it does not occur earlier in `s`.
pub open spec fn first_occurrences(s: Seq<Token>) -> Seq<Token>
    decreases s.len(),
{
    if s.len() == 0 {
        s
    } else if s.drop_last().contains(s.last()) {
        first_occurrences(s.drop_last())
    } else {
        first_occurrences(s.drop_last()).push(s.last())
    }
}

/// What `first_occurrences` does when one more token is appended.
pub proof fn lemma_first_occurrences_push(s: Seq<Token>, t: Token)
    ensures
        s.contains(t) ==> first_occurrences(s.push(t)) == first_occurrences(s),
        !s.contains(t) ==> first_occurrences(s.push(t)) == first_occurrences(s).push(t),
{
    assert(s.push(t).drop_last() =~= s);
}

/// A token is in a list with `x` appended exactly when it is in the list or
/// is `x`.
pub proof fn lemma_push_contains(s: Seq<Token>, x: Token, t: Token)
    ensures
        s.push(x).contains(t) <==> s.contains(t) || x == t,
{
    let longer = s.push(x);
    if s.contains(t) {
        let i = choose|i: int| 0 <= i < s.len() && s[i] == t;
        assert(longer[i] == t);
    }
    if x == t {
        assert(longer[s.len() as int] == t);
    }
}

/// A token is in one list followed by another exactly when it is in one of
/// the two.
pub proof fn lemma_concat_contains(a: Seq<Token>, b: Seq<Token>, t: Token)
    ensures
        (a + b).contains(t) <==> a.contains(t) || b.contains(t),
{
    let both = a + b;
    if a.contains(t) {
        let i = choose|i: int| 0 <= i < a.len() && a[i] == t;
        assert(both[i] == t);
    }
    if b.contains(t) {
        let i = choose|i: int| 0 <= i < b.len() && b[i] == t;
        assert(both[a.len() + i] == t);
    }
}

/// Dropping later occurrences neither adds a token nor loses one.
pub proof fn lemma_first_occurrences_contains(s: Seq<Token>, t: Token)
    ensures
        first_occurrences(s).contains(t) <==> s.contains(t),
    decreases s.len(),
{
    if s.len() > 0 {
        let front = s.drop_last();
        assert(front.push(s.last()) =~= s);
        lemma_first_occurrences_contains(front, t);
        lemma_push_contains(front, s.last(), t);
        lemma_push_contains(first_occurrences(front), s.last(), t);
    }
}

/// No token occurs twice among the first occurrences.
pub proof fn lemma_first_occurrences_no_duplicates(s: Seq<Token>)
    ensures
        first_occurrences(s).no_duplicates(),
    decreases s.len(),
{
    if s.len() > 0 {
        let front = s.drop_last();
        lemma_first_occurrences_no_duplicates(front);
        lemma_first_occurrences_contains(front, s.last());
    }
}

/// Dropping later occurrences never makes a list longer.
pub proof fn lemma_first_occurrences_len(s: Seq<Token>)
    ensures
        first_occurrences(s).len() <= s.len(),
    decreases s.len(),
{
    if s.len() > 0 {
        lemma_first_occurrences_len(s.drop_last());
    }
}

/// A list in which no token occurs twice is left as it is.
pub proof fn lemma_first_occurrences_of_distinct(s: Seq<Token>)
    requires
        s.no_duplicates(),
    ensures
        first_occurrences(s) == s,
    decreases s.len(),
{
    if s.len() > 0 {
        let front = s.drop_last();
        lemma_first_occurrences_of_distinct(front);
    }
}

/// Nothing is dropped exactly when no token occurs twice.
pub proof fn lemma_first_occurrences_full(s: Seq<Token>)
    ensures
        first_occurrences(s).len() == s.len() <==> s.no_duplicates(),
    decreases s.len(),
{
    if s.len() > 0 {
        let front = s.drop_last();
        lemma_first_occurrences_full(front);
        lemma_first_occurrences_len(front);
        if s.no_duplicates() {
            lemma_first_occurrences_of_distinct(s);
        }
        if first_occurrences(s).len() == s.len() {
            assert forall|i: int, j: int| 0 <= i < s.len() && 0 <= j < s.len() && i != j implies s[i]
                != s[j] by {
                if i < front.len() && j < front.len() {
                    assert(front[i] != front[j]);
                } else if i < front.len() {
                    assert(front[i] == s[i]);
                } else {
                    assert(front[j] == s[j]);
                }
            }
        }
    }
}

/// The slot at which `t` occurs first in `s`; the length of `s` where it
/// does not occur.
pub open spec fn first_slot(s: Seq<Token>, t: Token) -> int
    decreases s.len(),
{
    if s.len() == 0 {
        0
    } else if s.drop_last().contains(t) {
        first_slot(s.drop_last(), t)
    } else if s.last() == t {
        s.len() - 1
    } else {
        s.len() as int
    }
}

/// `first_slot` is the slot of the first occurrence: the token is there,
/// and is in no slot before it.
pub proof fn lemma_first_slot(s: Seq<Token>, t: Token)
    ensures
        0 <= first_slot(s, t) <= s.len(),
        first_slot(s, t) < s.len() <==> s.contains(t),
        first_slot(s, t) < s.len() ==> s[first_slot(s, t)] == t,
        forall|i: int| 0 <= i < first_slot(s, t) ==> s[i] != t,
    decreases s.len(),
{
    if s.len() > 0 {
        let front = s.drop_last();
        lemma_first_slot(front, t);
        lemma_push_contains(front, s.last(), t);
        assert forall|i: int| 0 <= i < first_slot(s, t) implies s[i] != t by {
            if i < front.len() {
                assert(s[i] == front[i]);
            }
        }
    }
}

/// The tokens that are kept stand in the order in which they occur first
/// in `s`.
pub proof fn lemma_first_occurrences_order(s: Seq<Token>, a: int, b: int)
    requires
        0 <= a < b < first_occurrences(s).len(),
    ensures
        first_slot(s, first_occurrences(s)[a]) < first_slot(s, first_occurrences(s)[b]) < s.len(),
    decreases s.len(),
{
    if s.len() > 0 {
        let front = s.drop_last();
        let ta = first_occurrences(s)[a];
        let tb = first_occurrences(s)[b];
        lemma_first_occurrences_contains(front, ta);
        lemma_first_occurrences_contains(front, tb);
        lemma_first_slot(front, ta);
        if b < first_occurrences(front).len() {
            lemma_first_occurrences_order(front, a, b);
        }
    }
}

/// A token is in the list without `t` exactly when it is in the list and is
/// not `t`.
pub proof fn lemma_without_contains(s: Seq<Token>, t: Token, x: Token)
    ensures
        s.filter(other_than(t)).contains(x) <==> s.contains(x) && x != t,
{
    let kept = s.filter(other_than(t));
    if kept.contains(x) {
        s.lemma_filter_contains_rev(other_than(t), x);
        let i = choose|i: int| 0 <= i < kept.len() && kept[i] == x;
        s.lemma_filter_pred(other_than(t), i);
    }
    if s.contains(x) && x != t {
        let i = choose|i: int| 0 <= i < s.len() && s[i] == x;
        s.lemma_filter_contains(other_than(t), i);
    }
}

/// Taking the first `v` out of a list adds no token and loses none but,
/// possibly, `v`.
pub proof fn lemma_remove_value_contains(s: Seq<Token>, v: Token, x: Token)
    ensures
        s.remove_value(v).contains(x) ==> s.contains(x),
        x != v && s.contains(x) ==> s.remove_value(v).contains(x),
{
    s.index_of_first_ensures(v);
    let rest = s.remove_value(v);
    if let Some(at) = s.index_of_first(v) {
        if x != v && s.contains(x) {
            let i = choose|i: int| 0 <= i < s.len() && s[i] == x;
            if i > at {
                assert(rest[i - 1] == x);
            }
        }
    }
}

/// Where `v` occurs at most once, taking the first `v` out leaves none.
pub proof fn lemma_remove_value_single(s: Seq<Token>, v: Token)
    requires
        at_most_once(s, v),
    ensures
        !s.remove_value(v).contains(v),
{
    s.index_of_first_ensures(v);
}

/// Where `v` does not occur, appending it and then taking the first `v`
/// out gives the list back.
pub proof fn lemma_push_remove_value(s: Seq<Token>, v: Token)
    requires
        !s.contains(v),
    ensures
        s.push(v).remove_value(v) == s,
{
    let longer = s.push(v);
    longer.index_of_first_ensures(v);
    assert(longer[s.len() as int] == v);
}

} // verus!
