use vstd::prelude::*;

use crate::ring::{assemble, predecessor, wiring_of, RingError, Wiring};
use crate::worker::{fresh_worker, wake_action, Phase, WakeAction, Worker};

verus! {

/// The whole ring at one instant: which links hold a token (each link has room
/// for one), what each worker is doing, and whether the initiator has injected.
pub ghost struct RingView {
    pub links: Seq<bool>,
    pub workers: Seq<Worker>,
    pub started: bool,
}

/// One event of an execution: the initiator's injection, a wake of worker `i`,
/// or worker `i` seeing the shutdown signal.
#[derive(Clone, Copy, Debug, PartialEq, Eq, Structural)]
pub enum Step {
    Start,
    Wake(usize),
    Stop(usize),
}

/// Number of `true` entries.
pub open spec fn count_true(s: Seq<bool>) -> nat
    decreases s.len(),
{
    if s.len() == 0 {
        0
    } else {
        count_true(s.drop_last()) + if s.last() {
            1nat
        } else {
            0nat
        }
    }
}

/// Which workers hold the token in hand.
pub open spec fn holding_flags(ws: Seq<Worker>) -> Seq<bool> {
    ws.map_values(|w: Worker| w.holding)
}

/// Tokens in the ring: those waiting on links plus those in workers' hands.
pub open spec fn tokens(v: RingView) -> nat {
    count_true(v.links) + count_true(holding_flags(v.workers))
}

/// A ring state: one link per worker, at least one worker, never more than one
/// token, and none before the initiator has injected.
pub open spec fn valid(v: RingView) -> bool {
    &&& v.links.len() >= 1
    &&& v.workers.len() == v.links.len()
    &&& tokens(v) <= 1
    &&& !v.started ==> tokens(v) == 0
}

/// The ring of `n` workers as assembled: empty links, worker 0 the initiator.
pub open spec fn initial(n: nat) -> RingView {
    RingView {
        links: Seq::new(n, |j: int| false),
        workers: Seq::new(n, |j: int| fresh_worker(j == 0)),
        started: false,
    }
}

/// The initiator creates the token once and sends it on its outbound link,
/// link 0; if that link is full the token is not created.
pub open spec fn start_model(v: RingView) -> RingView {
    if v.started {
        v
    } else if v.links[0] {
        RingView { started: true, ..v }
    } else {
        RingView { started: true, links: v.links.update(0, true), ..v }
    }
}

/// Worker `i` tries to place the token in its hand on its outbound link `i`.
pub open spec fn send_model(v: RingView, i: int) -> RingView {
    if v.links[i] {
        v
    } else {
        RingView {
            links: v.links.update(i, true),
            workers: v.workers.update(i, Worker { holding: false, ..v.workers[i] }),
            ..v
        }
    }
}

/// One wake of worker `i`: `Rest` changes nothing; `Forward` takes the token
/// off the inbound link, then sends it; `Retry` sends the token in hand.
pub open spec fn wake_model(v: RingView, i: int) -> RingView {
    let inb = predecessor(i, v.links.len() as int);
    match wake_action(v.workers[i], v.links[inb]) {
        WakeAction::Rest => v,
        WakeAction::Retry => send_model(v, i),
        WakeAction::Forward => send_model(
            RingView {
                links: v.links.update(inb, false),
                workers: v.workers.update(i, Worker { holding: true, ..v.workers[i] }),
                ..v
            },
            i,
        ),
    }
}

/// Worker `i` sees the shutdown signal and turns to `Terminating`.
pub open spec fn stop_model(v: RingView, i: int) -> RingView {
    RingView { workers: v.workers.update(i, Worker { phase: Phase::Terminating, ..v.workers[i] }), ..v }
}

/// Whether worker `i` reports the token lost when it stops in state `v`.
pub open spec fn lost_at_stop(v: RingView, i: int) -> bool {
    v.workers[i].holding || v.links[predecessor(i, v.links.len() as int)]
}

/// The effect of one step; a step naming no worker of the ring changes nothing.
pub open spec fn apply(v: RingView, s: Step) -> RingView {
    match s {
        Step::Start => start_model(v),
        Step::Wake(i) => if i < v.links.len() {
            wake_model(v, i as int)
        } else {
            v
        },
        Step::Stop(i) => if i < v.links.len() {
            stop_model(v, i as int)
        } else {
            v
        },
    }
}

/// The state reached from `v` by taking the steps of `s` in order.
pub open spec fn run(v: RingView, s: Seq<Step>) -> RingView
    decreases s.len(),
{
    if s.len() == 0 {
        v
    } else {
        apply(run(v, s.drop_last()), s.last())
    }
}

proof fn lemma_count_update(s: Seq<bool>, i: int, b: bool)
    requires
        0 <= i < s.len(),
    ensures
        count_true(s.update(i, b)) + (if s[i] { 1int } else { 0int }) == count_true(s) + (if b {
            1int
        } else {
            0int
        }),
    decreases s.len(),
{
    let t = s.update(i, b);
    if i == s.len() - 1 {
        assert(t.drop_last() =~= s.drop_last());
    } else {
        assert(t.drop_last() =~= s.drop_last().update(i, b));
        lemma_count_update(s.drop_last(), i, b);
    }
}

proof fn lemma_count_none(n: nat)
    ensures
        count_true(Seq::new(n, |j: int| false)) == 0,
    decreases n,
{
    if n > 0 {
        assert(Seq::new(n, |j: int| false).drop_last() =~= Seq::new((n - 1) as nat, |j: int| false));
        lemma_count_none((n - 1) as nat);
    }
}

proof fn lemma_holding_update(ws: Seq<Worker>, i: int, w: Worker)
    requires
        0 <= i < ws.len(),
    ensures
        holding_flags(ws.update(i, w)) =~= holding_flags(ws).update(i, w.holding),
{
}

/// The initial ring is a valid state holding no token.
pub proof fn lemma_initial_valid(n: nat)
    requires
        n >= 1,
    ensures
        valid(initial(n)),
        tokens(initial(n)) == 0,
{
    let v = initial(n);
    lemma_count_none(n);
    assert(holding_flags(v.workers) =~= Seq::new(n, |j: int| false));
}

/// Every step keeps a valid state valid and never changes how many tokens a
/// started ring holds.
pub proof fn lemma_step_valid(v: RingView, s: Step)
    requires
        valid(v),
    ensures
        valid(apply(v, s)),
        v.started ==> tokens(apply(v, s)) == tokens(v),
        apply(v, s).links.len() == v.links.len(),
{
    let n = v.links.len() as int;
    match s {
        Step::Start => {
            if !v.started && !v.links[0] {
                lemma_count_update(v.links, 0, true);
            }
        },
        Step::Wake(i) => {
            if i < n {
                lemma_wake_tokens(v, i as int);
            }
        },
        Step::Stop(i) => {
            if i < n {
                let w = v.workers[i as int];
                lemma_holding_update(v.workers, i as int, Worker { phase: Phase::Terminating, ..w });
                assert(holding_flags(v.workers).update(i as int, w.holding) =~= holding_flags(
                    v.workers,
                ));
            }
        },
    }
}

proof fn lemma_wake_tokens(v: RingView, i: int)
    requires
        valid(v),
        0 <= i < v.links.len(),
    ensures
        tokens(wake_model(v, i)) == tokens(v),
        wake_model(v, i).links.len() == v.links.len(),
        wake_model(v, i).workers.len() == v.workers.len(),
        wake_model(v, i).started == v.started,
{
    let n = v.links.len() as int;
    let inb = predecessor(i, n);
    assert(0 <= inb < n) by (nonlinear_arith)
        requires inb == (i + n - 1) % n, n >= 1, 0 <= i < n;
    let w = v.workers[i];
    match wake_action(w, v.links[inb]) {
        WakeAction::Rest => {},
        WakeAction::Retry => {
            lemma_send_tokens(v, i);
        },
        WakeAction::Forward => {
            let u = RingView {
                links: v.links.update(inb, false),
                workers: v.workers.update(i, Worker { holding: true, ..w }),
                ..v
            };
            lemma_count_update(v.links, inb, false);
            lemma_holding_update(v.workers, i, Worker { holding: true, ..w });
            lemma_count_update(holding_flags(v.workers), i, true);
            assert(tokens(u) == tokens(v));
            lemma_send_tokens(u, i);
        },
    }
}

proof fn lemma_send_tokens(v: RingView, i: int)
    requires
        v.workers.len() == v.links.len(),
        0 <= i < v.links.len(),
        v.workers[i].holding,
    ensures
        tokens(send_model(v, i)) == tokens(v),
{
    if !v.links[i] {
        let w = v.workers[i];
        lemma_count_update(v.links, i, true);
        lemma_holding_update(v.workers, i, Worker { holding: false, ..w });
        lemma_count_update(holding_flags(v.workers), i, false);
    }
}

/// Valid states stay valid along any execution, which keeps the ring's size.
pub proof fn lemma_run_valid(v: RingView, s: Seq<Step>)
    requires
        valid(v),
    ensures
        valid(run(v, s)),
        run(v, s).links.len() == v.links.len(),
    decreases s.len(),
{
    if s.len() > 0 {
        lemma_run_valid(v, s.drop_last());
        lemma_step_valid(run(v, s.drop_last()), s.last());
    }
}

/// Single token: from the assembled ring of any size, every execution, in any
/// interleaving of injections, wakes and stops, reaches only states in which
/// at most one link or worker holds a token.
pub proof fn lemma_single_token(n: nat, s: Seq<Step>)
    requires
        n >= 1,
    ensures
        valid(run(initial(n), s)),
        tokens(run(initial(n), s)) <= 1,
{
    lemma_initial_valid(n);
    lemma_run_valid(initial(n), s);
}

/// A ring of workers and the links between them, driven one step at a time.
/// Links are numbered by their producer: worker `i` sends on link `i` and takes
/// from link `predecessor(i)`.
pub struct Ring {
    wiring: Vec<Wiring>,
    links: Vec<bool>,
    workers: Vec<Worker>,
    started: bool,
}

impl View for Ring {
    type V = RingView;

    closed spec fn view(&self) -> RingView {
        RingView { links: self.links@, workers: self.workers@, started: self.started }
    }
}

impl Ring {
    /// The ring is valid and each worker is wired as the assembler wires it.
    pub closed spec fn wf(&self) -> bool {
        &&& valid(self@)
        &&& self.wiring@.len() == self.links@.len()
        &&& forall|i: int|
            0 <= i < self.links@.len() ==> #[trigger] self.wiring@[i] == wiring_of(
                i,
                self.links@.len() as int,
            )
    }

    /// Assembles a ring of `n` workers, all links empty and nothing injected yet.
    /// Fails when `n` is 0.
    pub fn new(n: usize) -> (r: Result<Ring, RingError>)
        ensures
            r is Err <==> n == 0,
            r matches Err(e) ==> e == RingError::NoWorkers,
            r matches Ok(ring) ==> ring.wf() && ring@ == initial(n as nat),
    {
        let wiring = match assemble(n) {
            Ok(w) => w,
            Err(e) => {
                return Err(e);
            },
        };
        let mut links: Vec<bool> = Vec::new();
        let mut workers: Vec<Worker> = Vec::new();
        let mut i: usize = 0;
        while i < n
            invariant
                i <= n,
                links@ =~= Seq::new(i as nat, |j: int| false),
                workers@ =~= Seq::new(i as nat, |j: int| fresh_worker(j == 0)),
            decreases n - i,
        {
            links.push(false);
            workers.push(Worker::new(i == 0));
            i = i + 1;
        }
        proof {
            lemma_initial_valid(n as nat);
        }
        Ok(Ring { wiring, links, workers, started: false })
    }

    /// Number of workers (and of links).
    pub fn size(&self) -> (r: usize)
        requires
            self.wf(),
        ensures
            r == self@.links.len(),
    {
        self.links.len()
    }

    /// Whether link `i`, the outbound link of worker `i`, holds the token.
    pub fn token_on_link(&self, i: usize) -> (r: bool)
        requires
            self.wf(),
            i < self@.links.len(),
        ensures
            r == self@.links[i as int],
    {
        self.links[i]
    }

    /// The state of worker `i`.
    pub fn worker(&self, i: usize) -> (r: Worker)
        requires
            self.wf(),
            i < self@.links.len(),
        ensures
            r == self@.workers[i as int],
    {
        self.workers[i]
    }

    /// The inbound link of worker `i`.
    fn inbound(&self, i: usize) -> (r: usize)
        requires
            self.wf(),
            i < self@.links.len(),
        ensures
            r == predecessor(i as int, self@.links.len() as int),
            r < self@.links.len(),
    {
        let n = self.links.len();
        proof {
            assert(self.wiring@[i as int] == wiring_of(i as int, n as int));
            let p = predecessor(i as int, n as int);
            assert(0 <= p < n) by (nonlinear_arith)
                requires p == (i + n - 1) % (n as int), n >= 1, 0 <= i < n;
        }
        self.wiring[i].inbound
    }

    /// The initiator creates the token and sends it on its outbound link. This
    /// happens once: later calls change nothing. Returns whether the token was
    /// placed; a full link leaves it uncreated.
    pub fn start(&mut self) -> (injected: bool)
        requires
            old(self).wf(),
        ensures
            final(self).wf(),
            final(self)@ == start_model(old(self)@),
            injected == (!old(self)@.started && !old(self)@.links[0]),
    {
        proof {
            lemma_step_valid(self@, Step::Start);
        }
        if self.started {
            return false;
        }
        self.started = true;
        if self.links[0] {
            false
        } else {
            self.links[0] = true;
            true
        }
    }

    /// Worker `i` tries to place the token in its hand on its outbound link.
    fn send(&mut self, i: usize)
        requires
            i < old(self).links@.len(),
            old(self).workers@.len() == old(self).links@.len(),
        ensures
            final(self)@ == send_model(old(self)@, i as int),
            final(self).wiring == old(self).wiring,
    {
        if !self.links[i] {
            self.links[i] = true;
            let mut w = self.workers[i];
            w.sent(true);
            self.workers[i] = w;
        }
    }

    /// One wake of worker `i`, by token arrival or by the polling timer: it
    /// decides on what it holds and what waits on its inbound link, and acts.
    /// A wake with nothing in hand and nothing waiting changes nothing.
    pub fn wake(&mut self, i: usize) -> (r: WakeAction)
        requires
            old(self).wf(),
            i < old(self)@.links.len(),
        ensures
            final(self).wf(),
            final(self)@ == wake_model(old(self)@, i as int),
            r == wake_action(
                old(self)@.workers[i as int],
                old(self)@.links[predecessor(i as int, old(self)@.links.len() as int)],
            ),
    {
        proof {
            lemma_step_valid(self@, Step::Wake(i));
        }
        let inb = self.inbound(i);
        let action = self.workers[i].on_wake(self.links[inb]);
        match action {
            WakeAction::Rest => {},
            WakeAction::Retry => {
                self.send(i);
            },
            WakeAction::Forward => {
                self.links[inb] = false;
                let mut w = self.workers[i];
                w.took();
                self.workers[i] = w;
                self.send(i);
            },
        }
        action
    }

    /// Worker `i` sees the shutdown signal: it turns to `Terminating`, whether or
    /// not it holds the token, and returns whether it reports the token lost.
    pub fn stop(&mut self, i: usize) -> (lost: bool)
        requires
            old(self).wf(),
            i < old(self)@.links.len(),
        ensures
            final(self).wf(),
            final(self)@ == stop_model(old(self)@, i as int),
            lost == lost_at_stop(old(self)@, i as int),
    {
        proof {
            lemma_step_valid(self@, Step::Stop(i));
        }
        let inb = self.inbound(i);
        let mut w = self.workers[i];
        let lost = w.shutdown(self.links[inb]);
        self.workers[i] = w;
        lost
    }

    /// Raises shutdown for the whole ring: stops every worker in turn and returns,
    /// for each, whether it reported the token lost.
    pub fn shutdown(&mut self) -> (lost: Vec<bool>)
        requires
            old(self).wf(),
        ensures
            final(self).wf(),
            final(self)@.links == old(self)@.links,
            final(self)@.started == old(self)@.started,
            final(self)@.workers.len() == old(self)@.workers.len(),
            lost@.len() == old(self)@.links.len(),
            forall|i: int|
                0 <= i < lost@.len() ==> {
                    &&& #[trigger] final(self)@.workers[i] == (Worker {
                        phase: Phase::Terminating,
                        ..old(self)@.workers[i]
                    })
                    &&& lost@[i] == lost_at_stop(old(self)@, i)
                },
    {
        let n = self.links.len();
        let mut lost: Vec<bool> = Vec::new();
        let mut i: usize = 0;
        while i < n
            invariant
                self.wf(),
                n == self@.links.len(),
                i <= n,
                self@.links == old(self)@.links,
                self@.started == old(self)@.started,
                self@.workers.len() == n,
                lost@.len() == i,
                forall|j: int|
                    0 <= j < i ==> {
                        &&& #[trigger] self@.workers[j] == (Worker {
                            phase: Phase::Terminating,
                            ..old(self)@.workers[j]
                        })
                        &&& lost@[j] == lost_at_stop(old(self)@, j)
                    },
                forall|j: int| i <= j < n ==> #[trigger] self@.workers[j] == old(self)@.workers[j],
            decreases n - i,
        {
            let l = self.stop(i);
            lost.push(l);
            i = i + 1;
        }
        lost
    }
}

} // verus!
