//! Decisions of the background worker of the 4f bench: only the newest
//! request is worked on. A request equal to the computation in progress makes
//! that computation the newest again, so whatever waited is dropped; a request
//! equal to the one already waiting changes nothing.
//!
//! The worker thread and its channels stay with the caller; this state machine
//! says, for each request and each finished computation, which parameters (if
//! any) are to be sent to the worker.

use vstd::prelude::*;
use vstd::std_specs::cmp::PartialEqSpec;

verus! {

/// The scheduler's state as plain values.
pub struct SchedState<P> {
    /// a computation is running
    pub busy: bool,
    /// the newest request that arrived while busy
    pub queued: Option<P>,
    /// the parameters of the last computation that was started
    pub last_sent: Option<P>,
}

/// Only a busy worker has something waiting.
pub open spec fn sched_wf<P>(s: SchedState<P>) -> bool {
    s.queued is Some ==> s.busy
}

/// `p` equals the parameters of the last computation started, as `==` decides
/// when `P` obeys its equality specification.
pub open spec fn same_as_last<P: PartialEq>(s: SchedState<P>, p: P) -> bool {
    s.last_sent matches Some(l) && l.eq_spec(&p)
}

/// `p` equals the waiting request, as `==` decides when `P` obeys its equality
/// specification.
pub open spec fn same_as_queued<P: PartialEq>(s: SchedState<P>, p: P) -> bool {
    s.queued matches Some(q) && q.eq_spec(&p)
}

/// One request, given whether it equals the last computation started
/// (`is_last`) and whether it equals the waiting request (`is_queued`).
/// - Equal to the computation in progress: that computation is the newest
///   request again, so what waited is dropped and nothing is sent.
/// - Equal to the last result (worker idle) or to what waits: nothing changes.
/// - Otherwise a busy worker gets it queued, replacing what waited, and an idle
///   worker gets it sent at once.
pub open spec fn request_step<P>(s: SchedState<P>, p: P, is_last: bool, is_queued: bool) -> (
    SchedState<P>,
    Option<P>,
) {
    if is_last && s.busy {
        (SchedState { queued: None, ..s }, None)
    } else if is_last || is_queued {
        (s, None)
    } else if s.busy {
        (SchedState { queued: Some(p), ..s }, None)
    } else {
        (SchedState { busy: true, last_sent: Some(p), ..s }, Some(p))
    }
}

/// One request, the parameters compared by spec equality.
pub open spec fn request_eq<P>(s: SchedState<P>, p: P) -> (SchedState<P>, Option<P>) {
    request_step(s, p, s.last_sent == Some(p), s.queued == Some(p))
}

/// A finished computation: what waited is sent, or the worker becomes idle.
pub open spec fn finish_step<P>(s: SchedState<P>) -> (SchedState<P>, Option<P>) {
    match s.queued {
        Some(q) => (SchedState { busy: true, queued: None, last_sent: Some(q) }, Some(q)),
        None => (SchedState { busy: false, ..s }, None),
    }
}

/// Which parameters the background worker computes next.
pub struct Scheduler<P> {
    busy: bool,
    queued: Option<P>,
    last_sent: Option<P>,
}

impl<P> Scheduler<P> {
    /// The state as plain values.
    pub closed spec fn state(&self) -> SchedState<P> {
        SchedState { busy: self.busy, queued: self.queued, last_sent: self.last_sent }
    }

    #[verifier::type_invariant]
    closed spec fn inv(&self) -> bool {
        sched_wf(self.state())
    }
}

impl<P: Copy> Scheduler<P> {
    /// An idle scheduler that has sent nothing yet.
    pub fn new() -> (s: Self)
        ensures
            s.state() == (SchedState::<P> { busy: false, queued: None, last_sent: None }),
            sched_wf(s.state()),
    {
        Scheduler { busy: false, queued: None, last_sent: None }
    }

    /// Whether a computation is running.
    pub fn busy(&self) -> (b: bool)
        ensures
            b == self.state().busy,
            sched_wf(self.state()),
    {
        proof {
            use_type_invariant(self);
        }
        self.busy
    }

    /// A new request whose comparisons with the last computation started and
    /// with the waiting request are already made; returns the parameters to
    /// send to the worker now, if any.
    pub fn request_compared(&mut self, p: P, is_last: bool, is_queued: bool) -> (send: Option<P>)
        ensures
            (final(self).state(), send) == request_step(old(self).state(), p, is_last, is_queued),
            sched_wf(old(self).state()),
            sched_wf(final(self).state()),
    {
        proof {
            use_type_invariant(&*self);
        }
        if is_last && self.busy {
            self.queued = None;
            None
        } else if is_last || is_queued {
            None
        } else if self.busy {
            self.queued = Some(p);
            None
        } else {
            self.last_sent = Some(p);
            self.busy = true;
            Some(p)
        }
    }

    /// A new request; returns the parameters to send to the worker now, if any.
    /// It is compared with `==` to the last computation started and to the
    /// waiting request.
    pub fn request(&mut self, p: P) -> (send: Option<P>)
        where P: PartialEq,
        ensures
            P::obeys_eq_spec() ==> (final(self).state(), send) == request_step(
                old(self).state(),
                p,
                same_as_last(old(self).state(), p),
                same_as_queued(old(self).state(), p),
            ),
            exists|is_last: bool, is_queued: bool|
                (is_last ==> old(self).state().last_sent is Some) && (is_queued ==> old(
                    self,
                ).state().queued is Some) && (final(self).state(), send) == #[trigger] request_step(
                    old(self).state(),
                    p,
                    is_last,
                    is_queued,
                ),
            sched_wf(old(self).state()),
            sched_wf(final(self).state()),
    {
        let is_last = match &self.last_sent {
            Some(l) => *l == p,
            None => false,
        };
        let is_queued = match &self.queued {
            Some(q) => *q == p,
            None => false,
        };
        self.request_compared(p, is_last, is_queued)
    }

    /// The worker delivered a result; returns the parameters to send next, if any.
    pub fn finished(&mut self) -> (send: Option<P>)
        ensures
            (final(self).state(), send) == finish_step(old(self).state()),
            sched_wf(old(self).state()),
            sched_wf(final(self).state()),
    {
        proof {
            use_type_invariant(&*self);
        }
        match self.queued {
            Some(q) => {
                self.queued = None;
                self.last_sent = Some(q);
                self.busy = true;
                Some(q)
            },
            None => {
                self.busy = false;
                None
            },
        }
    }
}

/// Law: the worker never gets a second computation while one is running: a
/// request to a busy worker sends nothing, however it compares; whatever is
/// sent becomes the computation in progress.
pub proof fn lemma_one_computation_at_a_time<P>(
    s: SchedState<P>,
    p: P,
    is_last: bool,
    is_queued: bool,
)
    requires
        sched_wf(s),
    ensures
        s.busy ==> request_step(s, p, is_last, is_queued).1 is None,
        s.busy ==> request_step(s, p, is_last, is_queued).0.busy,
        request_step(s, p, is_last, is_queued).1 matches Some(q) ==> (q == p && request_step(
            s,
            p,
            is_last,
            is_queued,
        ).0.busy && request_step(s, p, is_last, is_queued).0.last_sent == Some(p)),
        finish_step(s).1 matches Some(q) ==> (finish_step(s).0.busy && finish_step(s).0.last_sent
            == Some(q)),
        sched_wf(request_step(s, p, is_last, is_queued).0),
        sched_wf(finish_step(s).0),
{
}

/// Law: a request that is sent at once leaves nothing waiting, so when that
/// computation finishes with no other request made, nothing is sent again and
/// the worker goes idle.
pub proof fn lemma_sent_request_is_not_queued<P>(
    s: SchedState<P>,
    p: P,
    is_last: bool,
    is_queued: bool,
)
    requires
        sched_wf(s),
    ensures
        request_step(s, p, is_last, is_queued).1 is Some ==> !s.busy && request_step(
            s,
            p,
            is_last,
            is_queued,
        ).0.queued is None,
        request_step(s, p, is_last, is_queued).1 is Some ==> finish_step(
            request_step(s, p, is_last, is_queued).0,
        ) == (SchedState { busy: false, queued: None::<P>, last_sent: Some(p) }, None::<P>),
{
}

/// Law: only the newest of two requests made while a computation runs is
/// worked on, whatever they are. When the running computation finishes, the
/// second request is sent, unless it equals the computation that just
/// finished; either way the last computation started is the second request,
/// and nothing is sent before.
pub proof fn lemma_newest_request_wins<P>(s: SchedState<P>, p1: P, p2: P)
    requires
        sched_wf(s),
        s.busy,
    ensures
        ({
            let (s1, send1) = request_eq(s, p1);
            let (s2, send2) = request_eq(s1, p2);
            let (s3, send3) = finish_step(s2);
            &&& send1 is None
            &&& send2 is None
            &&& send3 == (if s.last_sent == Some(p2) {
                None
            } else {
                Some(p2)
            })
            &&& s3.busy == (s.last_sent != Some(p2))
            &&& s3.queued is None
            &&& s3.last_sent == Some(p2)
        }),
{
}

/// Law: an idle worker gets a request at once unless its result is the one
/// already computed, and a finished computation with nothing waiting leaves
/// the worker idle.
pub proof fn lemma_idle_worker_starts_at_once<P>(s: SchedState<P>, p: P)
    requires
        sched_wf(s),
    ensures
        !s.busy && s.last_sent != Some(p) ==> request_eq(s, p).1 == Some(p),
        !s.busy && s.last_sent == Some(p) ==> request_eq(s, p) == (s, None::<P>),
        s.queued is None ==> !finish_step(s).0.busy && finish_step(s).1 is None,
{
}

/// The state after the requests `ps`, made one after another.
pub open spec fn after_requests<P>(s: SchedState<P>, ps: Seq<P>) -> SchedState<P>
    decreases ps.len(),
{
    if ps.len() == 0 {
        s
    } else {
        request_eq(after_requests(s, ps.drop_last()), ps.last()).0
    }
}

/// Law: however many requests arrive while a computation runs, repeated ones
/// among them, none is sent meanwhile and the running computation stays
/// recorded. When it finishes, the newest request is sent, unless it equals
/// the computation that just finished; either way the last computation started
/// is the newest request.
pub proof fn lemma_newest_of_many_wins<P>(s: SchedState<P>, ps: Seq<P>)
    requires
        sched_wf(s),
        s.busy,
        ps.len() > 0,
    ensures
        forall|k: int|
            0 <= k < ps.len() ==> request_eq(after_requests(s, ps.take(k)), #[trigger] ps[k]).1
                is None,
        after_requests(s, ps).busy,
        after_requests(s, ps).last_sent == s.last_sent,
        finish_step(after_requests(s, ps)).1 == (if s.last_sent == Some(ps.last()) {
            None
        } else {
            Some(ps.last())
        }),
        finish_step(after_requests(s, ps)).0.last_sent == Some(ps.last()),
        finish_step(after_requests(s, ps)).0.queued is None,
{
    lemma_busy_stays(s, ps);
    assert forall|k: int| 0 <= k < ps.len() implies request_eq(
        after_requests(s, ps.take(k)),
        #[trigger] ps[k],
    ).1 is None by {
        lemma_busy_stays(s, ps.take(k));
    }
}

proof fn lemma_busy_stays<P>(s: SchedState<P>, ps: Seq<P>)
    requires
        s.busy,
    ensures
        after_requests(s, ps).busy,
        after_requests(s, ps).last_sent == s.last_sent,
        ps.len() > 0 ==> after_requests(s, ps).queued == (if s.last_sent == Some(ps.last()) {
            None
        } else {
            Some(ps.last())
        }),
        ps.len() == 0 ==> after_requests(s, ps) == s,
    decreases ps.len(),
{
    if ps.len() > 0 {
        lemma_busy_stays(s, ps.drop_last());
    }
}

} // verus!
