use vstd::arithmetic::div_mod::{lemma_mod_self_0, lemma_small_mod};
use vstd::prelude::*;

verus! {

/// Index of the worker that consumes what worker `i` produces in a ring of `n`.
pub open spec fn successor(i: int, n: int) -> int {
    (i + 1) % n
}

/// Index of the worker that produces what worker `i` consumes in a ring of `n`.
pub open spec fn predecessor(i: int, n: int) -> int {
    (i + n - 1) % n
}

/// How one worker is attached to the ring: the link it takes from, the link it
/// sends on (links are numbered by their producer), and whether it injects the token.
#[derive(Clone, Copy, Debug, PartialEq, Eq, Structural)]
pub struct Wiring {
    pub inbound: usize,
    pub outbound: usize,
    pub initiator: bool,
}

/// A ring request that cannot be wired into a single cycle.
#[derive(Clone, Copy, Debug, PartialEq, Eq, Structural)]
pub enum RingError {
    /// A ring needs at least one worker.
    NoWorkers,
}

/// The wiring of worker `i` in a ring of `n`: it produces on link `i`, consumes
/// link `predecessor(i)`, and worker 0 is the initiator.
pub open spec fn wiring_of(i: int, n: int) -> Wiring {
    Wiring {
        inbound: predecessor(i, n) as usize,
        outbound: i as usize,
        initiator: i == 0,
    }
}

/// The worker reached from `start` after `k` hops along the ring.
pub open spec fn hop(start: int, k: nat, n: int) -> int
    decreases k,
{
    if k == 0 {
        start
    } else {
        successor(hop(start, (k - 1) as nat, n), n)
    }
}

/// Returns the successor of worker `i` in a ring of `n` workers.
pub fn next_index(i: usize, n: usize) -> (r: usize)
    requires
        i < n,
    ensures
        r == successor(i as int, n as int),
{
    proof {
        if i + 1 == n {
            lemma_mod_self_0(n as int);
        } else {
            lemma_small_mod((i + 1) as nat, n as nat);
        }
    }
    if i + 1 == n {
        0
    } else {
        i + 1
    }
}

/// Returns the predecessor of worker `i` in a ring of `n` workers.
pub fn prev_index(i: usize, n: usize) -> (r: usize)
    requires
        i < n,
    ensures
        r == predecessor(i as int, n as int),
{
    proof {
        if i == 0 {
            lemma_small_mod((n - 1) as nat, n as nat);
        } else {
            lemma_mod_self_0(n as int);
            vstd::arithmetic::div_mod::lemma_mod_add_multiples_vanish((i - 1) as int, n as int);
            lemma_small_mod((i - 1) as nat, n as nat);
        }
    }
    if i == 0 {
        n - 1
    } else {
        i - 1
    }
}

/// Wires `n` workers into one cycle: worker `i` sends on link `i`, which worker
/// `successor(i)` takes from; worker 0 is the initiator. Fails when `n` is 0.
pub fn assemble(n: usize) -> (r: Result<Vec<Wiring>, RingError>)
    ensures
        r is Err <==> n == 0,
        r matches Err(e) ==> e == RingError::NoWorkers,
        r matches Ok(v) ==> v@.len() == n && forall|i: int|
            0 <= i < n ==> #[trigger] v@[i] == wiring_of(i, n as int),
{
    if n == 0 {
        return Err(RingError::NoWorkers);
    }
    let mut v: Vec<Wiring> = Vec::new();
    let mut i: usize = 0;
    while i < n
        invariant
            i <= n,
            v@.len() == i,
            forall|j: int| 0 <= j < i ==> #[trigger] v@[j] == wiring_of(j, n as int),
        decreases n - i,
    {
        let inbound = prev_index(i, n);
        v.push(Wiring { inbound, outbound: i, initiator: i == 0 });
        i = i + 1;
    }
    Ok(v)
}

/// The ring is closed: what worker `i` sends on is exactly what its successor
/// takes from, and `n` hops from any worker lead back to it, `k < n` hops from
/// worker 0 reach worker `k`, so the successor relation is one cycle over all
/// workers.
pub proof fn lemma_single_cycle(n: int, i: int, k: nat)
    requires
        n >= 1,
        0 <= i < n,
    ensures
        wiring_of(successor(i, n), n).inbound == wiring_of(i, n).outbound,
        k < n ==> hop(0, k, n) == k,
        hop(i, n as nat, n) == i,
{
    lemma_hop_adds(i, n as nat, n);
    lemma_hop_adds(0, k, n);
    lemma_mod_self_0(n);
    vstd::arithmetic::div_mod::lemma_mod_add_multiples_vanish(i, n);
    lemma_small_mod(i as nat, n as nat);
    if k < n {
        lemma_small_mod(k, n as nat);
    }
    let s = successor(i, n);
    if i + 1 == n {
        lemma_small_mod((n - 1) as nat, n as nat);
        assert(s == 0);
    } else {
        lemma_small_mod((i + 1) as nat, n as nat);
    }
}

/// `k` hops from `i` land on `(i + k) % n`.
proof fn lemma_hop_adds(i: int, k: nat, n: int)
    requires
        n >= 1,
        0 <= i < n,
    ensures
        hop(i, k, n) == (i + k) % n,
    decreases k,
{
    if k == 0 {
        lemma_small_mod(i as nat, n as nat);
    } else {
        lemma_hop_adds(i, (k - 1) as nat, n);
        vstd::arithmetic::div_mod::lemma_add_mod_noop_right(1, i + k - 1, n);
    }
}

} // verus!
