//! Forks and the round table's topology.
//!
//! Philosopher `i` of `n` sits between fork `i`, on the left, and fork
//! `(i + 1) % n`, on the right. Every philosopher takes the fork with the
//! lower index first: this one rule is what keeps the table free of circular
//! waits, and [`fork_order`] is the only place that encodes it.
use vstd::prelude::*;
use vstd::arithmetic::div_mod::{lemma_mod_add_multiples_vanish, lemma_mod_self_0, lemma_small_mod};

verus! {

/// The fork on the left of philosopher `i`.
pub open spec fn left_fork(i: int) -> int {
    i
}

/// The fork on the right of philosopher `i` at a table of `n`.
pub open spec fn right_fork(i: int, n: int) -> int {
    (i + 1) % n
}

/// The fork that philosopher `i` takes first: the lower-indexed of its two.
pub open spec fn first_fork(i: int, n: int) -> int {
    if left_fork(i) <= right_fork(i, n) {
        left_fork(i)
    } else {
        right_fork(i, n)
    }
}

/// The fork that philosopher `i` takes second: the higher-indexed of its two.
pub open spec fn second_fork(i: int, n: int) -> int {
    if left_fork(i) <= right_fork(i, n) {
        right_fork(i, n)
    } else {
        left_fork(i)
    }
}

/// The other philosopher who reaches fork `f`, seen from philosopher `i`.
/// At a table of one it is `i` itself.
pub open spec fn neighbour_at(f: int, i: int, n: int) -> int {
    if f == left_fork(i) {
        (i + n - 1) % n
    } else {
        f
    }
}

/// The order of acquisition without the modulus: every philosopher but the
/// last takes its left fork first; the last one, whose right fork is fork 0,
/// takes that one first.
pub proof fn lemma_fork_order(i: int, n: int)
    requires
        0 <= i < n,
    ensures
        first_fork(i, n) == (if i + 1 < n { i } else { 0 }),
        second_fork(i, n) == (if i + 1 < n { i + 1 } else { i }),
        0 <= first_fork(i, n) <= second_fork(i, n) < n,
        first_fork(i, n) == second_fork(i, n) <==> n == 1,
{
    if i + 1 < n {
        lemma_small_mod((i + 1) as nat, n as nat);
    } else {
        lemma_mod_self_0(n);
    }
}

/// The neighbour without the modulus.
pub proof fn lemma_neighbour_at(f: int, i: int, n: int)
    requires
        0 <= i < n,
        f == first_fork(i, n) || f == second_fork(i, n),
    ensures
        neighbour_at(f, i, n) == (if f != i { f } else if i == 0 { n - 1 } else { i - 1 }),
        0 <= neighbour_at(f, i, n) < n,
        n >= 2 ==> neighbour_at(f, i, n) != i,
        f == first_fork(neighbour_at(f, i, n), n) || f == second_fork(neighbour_at(f, i, n), n),
{
    lemma_fork_order(i, n);
    if i == 0 {
        lemma_small_mod((n - 1) as nat, n as nat);
    } else {
        assert((i + n - 1) % n == i - 1) by {
            lemma_small_mod((i - 1) as nat, n as nat);
            lemma_mod_add_multiples_vanish(i - 1, n);
        }
    }
    lemma_fork_order(neighbour_at(f, i, n), n);
}

/// A fork: free, or held by the philosopher whose index it records.
#[derive(Clone, Copy, Debug, PartialEq, Eq, Structural)]
pub struct Fork {
    pub holder: Option<u8>,
}

impl Fork {
    /// A free fork.
    pub fn new() -> (fork: Fork)
        ensures
            fork.holder is None,
    {
        Fork { holder: None }
    }

    /// Takes the fork for `who` if it is free, and says whether it did. A
    /// fork that is held stays with its holder, whoever asks.
    pub fn try_acquire(&mut self, who: u8) -> (taken: bool)
        ensures
            taken == (old(self).holder is None),
            final(self).holder == (if taken { Some(who) } else { old(self).holder }),
    {
        if self.holder.is_none() {
            self.holder = Some(who);
            true
        } else {
            false
        }
    }

    /// Frees the fork if `who` holds it, and says whether it did. Nobody can
    /// free a fork for somebody else.
    pub fn release(&mut self, who: u8) -> (freed: bool)
        ensures
            freed == (old(self).holder == Some(who)),
            final(self).holder == (if freed { None } else { old(self).holder }),
    {
        match self.holder {
            Some(h) => {
                if h == who {
                    self.holder = None;
                    true
                } else {
                    false
                }
            },
            None => false,
        }
    }
}

/// The two forks of philosopher `i` in the order in which it takes them.
pub fn fork_order(i: u8, n: u8) -> (pair: (u8, u8))
    requires
        i < n,
    ensures
        pair.0 == first_fork(i as int, n as int),
        pair.1 == second_fork(i as int, n as int),
        pair.0 <= pair.1 < n,
{
    proof {
        lemma_fork_order(i as int, n as int);
    }
    if i < n - 1 {
        (i, i + 1)
    } else {
        (0, i)
    }
}

/// The other philosopher at fork `f`, one of the two forks of philosopher
/// `i`.
pub fn neighbour(f: u8, i: u8, n: u8) -> (j: u8)
    requires
        i < n,
        f == first_fork(i as int, n as int) || f == second_fork(i as int, n as int),
    ensures
        j == neighbour_at(f as int, i as int, n as int),
        j < n,
{
    proof {
        lemma_neighbour_at(f as int, i as int, n as int);
    }
    if f != i {
        f
    } else if i == 0 {
        n - 1
    } else {
        i - 1
    }
}

} // verus!
