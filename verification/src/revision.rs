//! Revision chains and the conflict policy that guards every write.
//!
//! A chain is a document's past revisions, oldest first, followed by its
//! current revision. A write may only extend the chain that is on disk.

use vstd::prelude::*;

verus! {

/// The texts of a list of strings.
pub open spec fn texts(v: Seq<String>) -> Seq<Seq<char>> {
    Seq::new(v.len(), |i: int| v[i]@)
}

/// The chain of a document with past revisions `history` and current revision `rev`.
pub open spec fn chain(history: Seq<Seq<char>>, rev: Seq<char>) -> Seq<Seq<char>> {
    history.push(rev)
}

/// `new` extends `current` without rewriting any of it.
pub open spec fn fast_forward(current: Seq<Seq<char>>, new: Seq<Seq<char>>) -> bool {
    current.is_prefix_of(new)
}

/// The conflict policy: a write conflicts unless it is a fast-forward.
pub open spec fn diverges(current: Seq<Seq<char>>, new: Seq<Seq<char>>) -> bool {
    !fast_forward(current, new)
}

/// A chain conflicts with the current one exactly when it is shorter, or
/// when the two differ at some index of the current chain.
pub proof fn law_divergence_by_index(current: Seq<Seq<char>>, new: Seq<Seq<char>>)
    ensures
        diverges(current, new) <==> (new.len() < current.len() || exists|i: int|
            0 <= i < current.len() && current[i] != new[i]),
{
    if new.len() >= current.len() {
        let head = new.subrange(0, current.len() as int);
        if exists|i: int| 0 <= i < current.len() && current[i] != new[i] {
            let i = choose|i: int| 0 <= i < current.len() && current[i] != new[i];
            assert(head[i] == new[i]);
            assert(current != head);
        } else {
            assert(current =~= head);
        }
    }
}

/// Every chain is a fast-forward of itself, and any extension of a chain is
/// a fast-forward of it.
pub proof fn law_extension_is_fast_forward(current: Seq<Seq<char>>, more: Seq<Seq<char>>)
    ensures
        fast_forward(current, current + more),
        !diverges(current, current),
{
    assert(current =~= (current + more).subrange(0, current.len() as int));
    assert(current =~= current.subrange(0, current.len() as int));
}

/// Pushing a string onto a list pushes its text onto the list's texts.
pub proof fn lemma_texts_push(v: Seq<String>, s: String)
    ensures
        texts(v.push(s)) == texts(v).push(s@),
{
    assert(texts(v.push(s)) =~= texts(v).push(s@));
}

/// Runs the conflict policy on the chain on disk (`curr_history`, `curr_rev`)
/// and the chain a writer proposes (`new_history`, `new_rev`).
pub fn check_for_conflict(
    curr_history: &Vec<String>,
    curr_rev: &String,
    new_history: &Vec<String>,
    new_rev: &String,
) -> (conflict: bool)
    ensures
        conflict == diverges(
            chain(texts(curr_history@), curr_rev@),
            chain(texts(new_history@), new_rev@),
        ),
{
    let ghost current = chain(texts(curr_history@), curr_rev@);
    let ghost new = chain(texts(new_history@), new_rev@);
    proof {
        law_divergence_by_index(current, new);
    }
    let n: usize = curr_history.len();
    if new_history.len() < n {
        return true;
    }
    let mut i: usize = 0;
    while i < n
        invariant
            i <= n,
            n == curr_history.len(),
            n <= new_history.len(),
            current == chain(texts(curr_history@), curr_rev@),
            new == chain(texts(new_history@), new_rev@),
            forall|j: int| 0 <= j < i ==> current[j] == new[j],
        decreases n - i,
    {
        if curr_history[i] != new_history[i] {
            assert(current[i as int] != new[i as int]);
            return true;
        }
        i = i + 1;
    }
    let same_tip = if new_history.len() > n {
        *curr_rev == new_history[n]
    } else {
        *curr_rev == *new_rev
    };
    if !same_tip {
        assert(current[n as int] != new[n as int]);
    } else {
        assert forall|j: int| 0 <= j < current.len() implies current[j] == new[j] by {}
    }
    !same_tip
}

} // verus!
