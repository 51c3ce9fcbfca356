//! What holds of sequences of operations on a buffer, stated over the models
//! that the operations' contracts use (`pushed`, `pulled`, `after_pull`).
use vstd::prelude::*;
use crate::cb::{after_pull, pulled, pushed};

verus! {

/// The contents of a buffer of capacity `cap` holding `s`, after each of
/// `vals` is pushed in order.
pub open spec fn push_all<T>(s: Seq<T>, vals: Seq<T>, cap: nat) -> Seq<T>
    decreases vals.len(),
{
    if vals.len() == 0 {
        s
    } else {
        pushed(push_all(s, vals.drop_last(), cap), vals.last(), cap)
    }
}

/// What `n` pulls in a row from a buffer holding `s` return, in order.
pub open spec fn pulls<T>(s: Seq<T>, n: nat) -> Seq<Option<T>>
    decreases n,
{
    if n == 0 {
        Seq::empty()
    } else {
        seq![pulled(s)] + pulls(after_pull(s), (n - 1) as nat)
    }
}

/// The contents of a buffer holding `s` after `n` pulls in a row.
pub open spec fn after_pulls<T>(s: Seq<T>, n: nat) -> Seq<T>
    decreases n,
{
    if n == 0 {
        s
    } else {
        after_pulls(after_pull(s), (n - 1) as nat)
    }
}

/// The last `n` elements of `s`, or all of `s` when it has no more than `n`.
pub open spec fn newest<T>(s: Seq<T>, n: nat) -> Seq<T> {
    if s.len() <= n {
        s
    } else {
        s.subrange(s.len() - n, s.len() as int)
    }
}

/// Pushes onto a buffer keep exactly the newest `cap` of all the values it
/// has held, oldest first: its length never exceeds `cap`, and what was
/// pushed before those is gone.
pub proof fn lemma_pushes_keep_newest<T>(s: Seq<T>, vals: Seq<T>, cap: nat)
    requires
        cap > 0,
        s.len() <= cap,
    ensures
        push_all(s, vals, cap) == newest(s + vals, cap),
        push_all(s, vals, cap).len() <= cap,
    decreases vals.len(),
{
    if vals.len() > 0 {
        let prev = vals.drop_last();
        lemma_pushes_keep_newest(s, prev, cap);
        let all = s + vals;
        assert(s + prev =~= all.drop_last());
        assert(newest(s + vals, cap) =~= pushed(newest(s + prev, cap), vals.last(), cap));
    }
}

/// Pushing no more than `cap` values onto an empty buffer leaves it holding
/// exactly those values: its length is their number, and it is full exactly
/// when that number is `cap`.
pub proof fn lemma_pushes_within_capacity<T>(vals: Seq<T>, cap: nat)
    requires
        cap > 0,
        vals.len() <= cap,
    ensures
        push_all(Seq::empty(), vals, cap) == vals,
        push_all(Seq::empty(), vals, cap).len() == vals.len(),
        (push_all(Seq::empty(), vals, cap).len() == cap) == (vals.len() == cap),
{
    lemma_pushes_keep_newest(Seq::empty(), vals, cap);
    assert(Seq::<T>::empty() + vals =~= vals);
}

/// Pulls from an empty buffer return nothing, however many are made, and
/// leave it empty.
pub proof fn lemma_pull_empty<T>(n: nat)
    ensures
        pulls(Seq::<T>::empty(), n) == Seq::new(n, |i: int| None::<T>),
        after_pulls(Seq::<T>::empty(), n) == Seq::<T>::empty(),
    decreases n,
{
    if n > 0 {
        lemma_pull_empty::<T>((n - 1) as nat);
        assert(pulls(Seq::<T>::empty(), n) =~= Seq::new(n, |i: int| None::<T>));
    }
}

/// `n` pulls from a buffer holding at least `n` elements return its first `n`
/// elements in order and leave the rest.
pub proof fn lemma_pulls_take_head<T>(s: Seq<T>, n: nat)
    requires
        n <= s.len(),
    ensures
        pulls(s, n) == s.take(n as int).map_values(|v: T| Some(v)),
        after_pulls(s, n) == s.skip(n as int),
    decreases n,
{
    if n > 0 {
        lemma_pulls_take_head(s.drop_first(), (n - 1) as nat);
        assert(pulls(s, n) =~= s.take(n as int).map_values(|v: T| Some(v)));
        assert(after_pulls(s, n) =~= s.skip(n as int));
    }
}

/// Pushing `n <= cap` values onto an empty buffer and then pulling `n` times
/// returns the values in the order they were pushed and leaves it empty.
pub proof fn lemma_round_trip<T>(vals: Seq<T>, cap: nat)
    requires
        cap > 0,
        vals.len() <= cap,
    ensures
        pulls(push_all(Seq::empty(), vals, cap), vals.len()) == vals.map_values(|v: T| Some(v)),
        after_pulls(push_all(Seq::empty(), vals, cap), vals.len()) == Seq::<T>::empty(),
{
    lemma_pushes_within_capacity(vals, cap);
    lemma_pulls_take_head(vals, vals.len());
    assert(vals.take(vals.len() as int) =~= vals);
    assert(vals.skip(vals.len() as int) =~= Seq::<T>::empty());
}

/// The element `i` places after the head, which `get(i)` returns, is what the
/// last of `i + 1` pulls in a row would remove.
pub proof fn lemma_get_is_pull<T>(s: Seq<T>, i: nat)
    requires
        i < s.len(),
    ensures
        pulls(s, i + 1)[i as int] == Some(s[i as int]),
{
    lemma_pulls_take_head(s, i + 1);
}

} // verus!
