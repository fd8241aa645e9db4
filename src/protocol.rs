use vstd::arithmetic::div_mod::{lemma_mod_add_multiples_vanish, lemma_small_mod};
use vstd::prelude::*;

use crate::ring::{predecessor, wiring_of};
use crate::state::{apply, send_model, start_model, initial, lemma_run_valid, run, stop_model, valid, wake_model, RingView, Step};
use crate::worker::{fresh_worker, wake_action, Phase, WakeAction, Worker};

verus! {

/// Wakes of workers `1, 2, ..., k`, one each, in ring order.
pub open spec fn ring_order(k: nat) -> Seq<Step> {
    Seq::new(k, |j: int| Step::Wake((j + 1) as usize))
}

/// The initiator's injection followed by `k` wakes in ring order.
pub open spec fn relay(k: nat) -> Seq<Step> {
    seq![Step::Start] + ring_order(k)
}

/// Injection, one wake of every other worker in ring order, then the initiator's wake.
pub open spec fn one_lap(n: nat) -> Seq<Step> {
    relay((n - 1) as nat).push(Step::Wake(0))
}

/// Links of a ring of `n` in which only link `k` holds the token.
pub open spec fn token_only_on(n: nat, k: int) -> Seq<bool> {
    Seq::new(n, |j: int| j == k)
}

proof fn lemma_predecessor_of_next(k: int, n: int)
    requires
        1 <= k < n,
    ensures
        predecessor(k, n) == k - 1,
{
    lemma_mod_add_multiples_vanish(k - 1, n);
    lemma_small_mod((k - 1) as nat, n as nat);
}

/// After the injection and `k < n` wakes in ring order, the token rests on
/// link `k`, no worker holds it, and the next worker in ring order finds it.
pub proof fn lemma_relay(n: nat, k: nat)
    requires
        1 <= n <= usize::MAX,
        k < n,
    ensures
        run(initial(n), relay(k)).links =~= token_only_on(n, k as int),
        run(initial(n), relay(k)).workers == initial(n).workers,
        run(initial(n), relay(k)).started,
        k + 1 < n ==> wake_action(
            run(initial(n), relay(k)).workers[k + 1 as int],
            run(initial(n), relay(k)).links[predecessor(k + 1 as int, n as int)],
        ) == WakeAction::Forward,
    decreases k,
{
    let v = run(initial(n), relay(k));
    if k == 0 {
        assert(relay(0).drop_last() =~= Seq::<Step>::empty());
        assert(relay(0).last() == Step::Start);
        assert(run(initial(n), relay(0).drop_last()) == initial(n));
        assert(v == start_model(initial(n)));
        assert(initial(n).links.update(0, true) =~= token_only_on(n, 0));
    } else {
        let km = (k - 1) as nat;
        assert(relay(k).drop_last() =~= relay(km));
        assert(relay(k).last() == Step::Wake(k as usize));
        lemma_relay(n, km);
        let u = run(initial(n), relay(km));
        assert(u.links.len() == n);
        lemma_predecessor_of_next(k as int, n as int);
        let w = u.workers[k as int];
        assert(w == fresh_worker(false));
        let t = RingView {
            links: u.links.update(k - 1, false),
            workers: u.workers.update(k as int, Worker { holding: true, ..w }),
            ..u
        };
        assert((k as usize) as int == k);
        assert(v == apply(u, Step::Wake(k as usize)));
        assert(v == wake_model(u, k as int));
        assert(wake_action(w, u.links[k - 1]) == WakeAction::Forward);
        assert(v == send_model(t, k as int));
        assert(t.workers.update(k as int, Worker { holding: false, ..t.workers[k as int] })
            =~= u.workers);
        assert(t.links.update(k as int, true) =~= token_only_on(n, k as int));
    }
    if k + 1 < n {
        lemma_predecessor_of_next(k + 1 as int, n as int);
    }
}

/// Circulation: with no contention, a token injected by the initiator is found
/// and forwarded by every other worker at its one wake in ring order, then by
/// the initiator, after which the ring is back in the state right after the
/// injection: the lap can repeat forever.
pub proof fn lemma_circulation(n: nat)
    requires
        1 <= n <= usize::MAX,
    ensures
        forall|j: nat|
            1 <= j < n ==> wake_action(
                #[trigger] run(initial(n), relay((j - 1) as nat)).workers[j as int],
                run(initial(n), relay((j - 1) as nat)).links[predecessor(j as int, n as int)],
            ) == WakeAction::Forward,
        wake_action(
            run(initial(n), relay((n - 1) as nat)).workers[0],
            run(initial(n), relay((n - 1) as nat)).links[predecessor(0, n as int)],
        ) == WakeAction::Forward,
        run(initial(n), one_lap(n)) == run(initial(n), relay(0)),
{
    assert forall|j: nat| 1 <= j < n implies wake_action(
        #[trigger] run(initial(n), relay((j - 1) as nat)).workers[j as int],
        run(initial(n), relay((j - 1) as nat)).links[predecessor(j as int, n as int)],
    ) == WakeAction::Forward by {
        lemma_relay(n, (j - 1) as nat);
    }
    let last = (n - 1) as nat;
    lemma_relay(n, last);
    lemma_relay(n, 0);
    let u = run(initial(n), relay(last));
    lemma_small_mod((n - 1) as nat, n as nat);
    assert(predecessor(0, n as int) == n - 1);
    assert(one_lap(n).drop_last() =~= relay(last));
    let w = u.workers[0];
    let t = RingView {
        links: u.links.update(n - 1, false),
        workers: u.workers.update(0, Worker { holding: true, ..w }),
        ..u
    };
    assert(t.workers.update(0, Worker { holding: false, ..t.workers[0] }) =~= u.workers);
    assert(t.links.update(0, true) =~= token_only_on(n, 0));
}

/// Self-loop: in a ring of one, the initiator's outbound link is its own
/// inbound link; the token it sends is the one it then takes and sends again,
/// and the ring comes back to where it was, so the worker never deadlocks.
pub proof fn lemma_self_loop()
    ensures
        wiring_of(0, 1).inbound == wiring_of(0, 1).outbound,
        wake_action(
            run(initial(1), relay(0)).workers[0],
            run(initial(1), relay(0)).links[0],
        ) == WakeAction::Forward,
        run(initial(1), seq![Step::Start, Step::Wake(0)]) == run(initial(1), seq![Step::Start]),
{
    lemma_circulation(1);
    assert(one_lap(1) =~= seq![Step::Start, Step::Wake(0)]);
    assert(relay(0) =~= seq![Step::Start]);
    assert(predecessor(0, 1) == 0);
}

/// Shutdown: once worker `i` has seen the signal it is `Terminating`, whether
/// or not it held the token, and stays so whatever steps follow.
pub proof fn lemma_shutdown_reached(v: RingView, s: Seq<Step>, i: usize, k: int)
    requires
        valid(v),
        i < v.links.len(),
        0 <= k < s.len(),
        s[k] == Step::Stop(i),
    ensures
        run(v, s).workers[i as int].phase == Phase::Terminating,
    decreases s.len(),
{
    let p = s.drop_last();
    lemma_run_valid(v, p);
    let u = run(v, p);
    if k == s.len() - 1 {
        assert(run(v, s) == stop_model(u, i as int));
    } else {
        lemma_shutdown_reached(v, p, i, k);
        match s.last() {
            Step::Start => {},
            Step::Wake(j) => {
                if j < u.links.len() {
                    assert(run(v, s) == wake_model(u, j as int));
                }
            },
            Step::Stop(j) => {},
        }
    }
}

/// A timer tick: a worker woken with no token in hand and none on its inbound
/// link rests, and the ring is left exactly as it was.
pub proof fn lemma_timer_tick_silent(v: RingView, i: int)
    requires
        valid(v),
        0 <= i < v.links.len(),
        !v.workers[i].holding,
        !v.links[predecessor(i, v.links.len() as int)],
    ensures
        wake_action(v.workers[i], v.links[predecessor(i, v.links.len() as int)])
            == WakeAction::Rest,
        wake_model(v, i) == v,
{
}

} // verus!
