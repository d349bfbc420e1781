//! The cluster scheduler: multiplexes calculation requests onto the finite
//! pool of cores.
//!
//! The scheduler owns the cluster, an InFlight map with one slot per core and
//! a FIFO backlog. Each [`ClusterScheduler::cycle`] snapshots the busy and
//! valid flag words once, harvests every in-flight core whose busy bit has
//! fallen, then dispatches backlog heads to idle cores in ascending CoreId
//! order. A core that fell not-busy without a valid result was reset
//! mid-flight: its request is requeued with its `attempts` counter raised,
//! until the counter reaches [`RETRY_LIMIT`] and the request ends in an
//! error. The intake channel that feeds `submit` lives outside; its bound is
//! [`INTAKE_CAPACITY`].

use vstd::prelude::*;
use vstd::multiset::Multiset;

use crate::codec::{ClusterCommand, ClusterCommandStatus, spec_encode_command, spec_encode_status};
use crate::mock::{CmdEvent, MockCluster, StartLatch, bit_set, flag_bit, lemma_bit_or, lemma_bit_clear};

verus! {

broadcast use vstd::multiset::group_multiset_axioms;

/// How often a request reset mid-flight is requeued before it ends in an
/// error.
pub const RETRY_LIMIT: u64 = 10000;

/// The bound of the intake channel between submitters and the scheduler.
pub const INTAKE_CAPACITY: u64 = 1000;

/// A work item: a complex-plane point, an iteration cap, the retry counter,
/// and the submitter's response channel, stood for by its id.
#[derive(Clone, Copy, Debug, PartialEq, Eq, Structural)]
pub struct CalculationRequest {
    pub x: i128,
    pub y: i128,
    pub itterations_max: u64,
    /// How often the request was requeued after a mid-flight reset.
    pub attempts: u64,
    /// Names the response channel of the submitter awaiting this request.
    pub request_id: u64,
}

impl CalculationRequest {
    /// A fresh submission: no retry yet.
    pub fn new(x: i128, y: i128, itterations_max: u64, request_id: u64) -> (r: CalculationRequest)
        ensures
            r == (CalculationRequest { x, y, itterations_max, attempts: 0, request_id }),
    {
        CalculationRequest { x, y, itterations_max, attempts: 0, request_id }
    }
}

/// Why a request failed.
#[derive(Clone, Copy, Debug, PartialEq, Eq, Structural)]
pub enum CalcError {
    /// The core working on the request was reset once too often.
    CoreWasReset,
}

/// One message the scheduler owes a submitter: the request and its outcome.
#[derive(Clone, Copy, Debug, PartialEq, Eq)]
pub struct Completion {
    pub request: CalculationRequest,
    pub outcome: Result<u64, CalcError>,
}

/// The scheduler's state, as contracts speak of it.
pub struct SchedulerView {
    pub cores_count: u64,
    /// One slot per core: the request in flight there, if any.
    pub in_flight: Seq<Option<CalculationRequest>>,
    /// Requests awaiting a free core, head first.
    pub backlog: Seq<CalculationRequest>,
}

/// The response channel a slot holds, as a multiset of ids.
pub open spec fn opt_ids(o: Option<CalculationRequest>) -> Multiset<u64> {
    match o {
        Option::Some(r) => Multiset::empty().insert(r.request_id),
        Option::None => Multiset::empty(),
    }
}

/// The response channels the InFlight slots hold.
pub open spec fn slot_ids(s: Seq<Option<CalculationRequest>>) -> Multiset<u64>
    decreases s.len(),
{
    if s.len() == 0 {
        Multiset::empty()
    } else {
        slot_ids(s.drop_last()).add(opt_ids(s.last()))
    }
}

/// The response channels a queue of requests holds.
pub open spec fn queue_ids(s: Seq<CalculationRequest>) -> Multiset<u64>
    decreases s.len(),
{
    if s.len() == 0 {
        Multiset::empty()
    } else {
        queue_ids(s.drop_last()).insert(s.last().request_id)
    }
}

/// The response channels a batch of completions answers.
pub open spec fn completion_ids(s: Seq<Completion>) -> Multiset<u64>
    decreases s.len(),
{
    if s.len() == 0 {
        Multiset::empty()
    } else {
        completion_ids(s.drop_last()).insert(s.last().request.request_id)
    }
}

/// Every response channel the scheduler still owes an answer: those waiting
/// in the backlog and those in flight.
pub open spec fn live_ids(v: SchedulerView) -> Multiset<u64> {
    queue_ids(v.backlog).add(slot_ids(v.in_flight))
}

/// In the command writes from position `from` on, no Start stands before a
/// LoadResult: a cycle observes every finished result before it restarts any
/// core.
pub open spec fn harvest_precedes_dispatch(log: Seq<CmdEvent>, from: int) -> bool {
    forall|a: int, b: int|
        from <= a < b < log.len() && (#[trigger] log[b]).cmd == spec_encode_command(
            ClusterCommand::LoadResult,
        ) ==> (#[trigger] log[a]).cmd != spec_encode_command(ClusterCommand::Start)
}

/// The harvest decision for one core: what the scheduler does with a slot
/// that is `occupied` when the snapshot shows the given busy and valid bits.
#[derive(Clone, Copy, Debug, PartialEq, Eq, Structural)]
pub enum HarvestAction {
    /// The core is still running, or carries nothing: leave it alone.
    Leave,
    /// The core finished with a result: observe it through LoadResult and
    /// answer the submitter.
    Deliver,
    /// The core fell not-busy without a valid result: it was reset
    /// mid-flight, recover the request.
    Recover,
}

/// See [`HarvestAction`].
pub open spec fn spec_harvest_action(occupied: bool, busy_bit: bool, valid_bit: bool) -> HarvestAction {
    if !occupied || busy_bit {
        HarvestAction::Leave
    } else if valid_bit {
        HarvestAction::Deliver
    } else {
        HarvestAction::Recover
    }
}

/// The harvest decision for one core, for whoever runs the loop: the
/// scheduler's own passes branch through this, and the process driving real
/// hardware takes its decisions from here.
pub fn harvest_action(occupied: bool, busy_bit: bool, valid_bit: bool) -> (a: HarvestAction)
    ensures
        a == spec_harvest_action(occupied, busy_bit, valid_bit),
{
    if !occupied || busy_bit {
        HarvestAction::Leave
    } else if valid_bit {
        HarvestAction::Deliver
    } else {
        HarvestAction::Recover
    }
}

/// What becomes of a request whose core was reset mid-flight, or whose
/// LoadResult was refused.
#[derive(Clone, Copy, Debug, PartialEq, Eq, Structural)]
pub enum RecoverAction {
    /// Requeue the request with its counter raised to the carried value.
    Retry(u64),
    /// The retry budget is spent: answer the terminal error.
    GiveUp,
}

/// See [`RecoverAction`].
pub open spec fn spec_recover_action(attempts: u64) -> RecoverAction {
    if attempts < RETRY_LIMIT {
        RecoverAction::Retry((attempts + 1) as u64)
    } else {
        RecoverAction::GiveUp
    }
}

/// The retry decision, for whoever runs the loop: requeue below
/// [`RETRY_LIMIT`], give up at it.
pub fn recover_action(attempts: u64) -> (a: RecoverAction)
    requires
        attempts <= RETRY_LIMIT,
    ensures
        a == spec_recover_action(attempts),
{
    if attempts < RETRY_LIMIT {
        RecoverAction::Retry(attempts + 1)
    } else {
        RecoverAction::GiveUp
    }
}

/// Whether a word read back from the status register reports Success.
pub fn command_succeeded(status: u64) -> (b: bool)
    ensures
        b == (status == spec_encode_status(ClusterCommandStatus::Success)),
{
    status == ClusterCommandStatus::Success.encode()
}

/// The dispatch decision for one core: offer it the head of the backlog
/// exactly when the snapshot shows it idle, nothing is in flight there, and
/// the backlog is non-empty.
pub fn dispatch_wanted(busy_bit: bool, occupied: bool, backlog_len: usize) -> (b: bool)
    ensures
        b == (!busy_bit && !occupied && backlog_len > 0),
{
    !busy_bit && !occupied && backlog_len > 0
}

/// The harvest pass, walking cores upward from `i` over the snapshot flag
/// words: every in-flight core whose busy bit has fallen is freed. With its
/// valid bit set the core's result is delivered to the submitter; without,
/// the request is requeued at the tail with its counter raised while it is
/// below [`RETRY_LIMIT`], and completed with the terminal error at it.
pub open spec fn spec_harvest(
    in_flight: Seq<Option<CalculationRequest>>,
    backlog: Seq<CalculationRequest>,
    completions: Seq<Completion>,
    busy: u128,
    valid: u128,
    results: Seq<u64>,
    i: int,
) -> (Seq<Option<CalculationRequest>>, Seq<CalculationRequest>, Seq<Completion>)
    decreases in_flight.len() - i,
{
    if i < 0 || i >= in_flight.len() {
        (in_flight, backlog, completions)
    } else {
        match in_flight[i] {
            Option::Some(r) => {
                if !bit_set(busy, i as u128) {
                    if bit_set(valid, i as u128) {
                        spec_harvest(
                            in_flight.update(i, Option::None),
                            backlog,
                            completions.push(
                                Completion { request: r, outcome: Ok(results[i]) },
                            ),
                            busy,
                            valid,
                            results,
                            i + 1,
                        )
                    } else if r.attempts < RETRY_LIMIT {
                        spec_harvest(
                            in_flight.update(i, Option::None),
                            backlog.push(
                                (CalculationRequest { attempts: (r.attempts + 1) as u64, ..r }),
                            ),
                            completions,
                            busy,
                            valid,
                            results,
                            i + 1,
                        )
                    } else {
                        spec_harvest(
                            in_flight.update(i, Option::None),
                            backlog,
                            completions.push(
                                (Completion { request: r, outcome: Err(CalcError::CoreWasReset) }),
                            ),
                            busy,
                            valid,
                            results,
                            i + 1,
                        )
                    }
                } else {
                    spec_harvest(in_flight, backlog, completions, busy, valid, results, i + 1)
                }
            },
            Option::None => spec_harvest(
                in_flight,
                backlog,
                completions,
                busy,
                valid,
                results,
                i + 1,
            ),
        }
    }
}

/// The dispatch pass, walking cores upward from `i`: every core idle in the
/// `busy` snapshot and carrying nothing is offered the current head of the
/// backlog. While scripted rejections remain the cluster answers CoreBusy
/// and the head returns, unchanged, to the tail; otherwise the Start
/// succeeds and the head goes in flight on that core.
pub open spec fn spec_dispatch(
    in_flight: Seq<Option<CalculationRequest>>,
    backlog: Seq<CalculationRequest>,
    busy: u128,
    rejects: u64,
    i: int,
) -> (Seq<Option<CalculationRequest>>, Seq<CalculationRequest>, u64)
    decreases in_flight.len() - i,
{
    if i < 0 || i >= in_flight.len() {
        (in_flight, backlog, rejects)
    } else {
        if !bit_set(busy, i as u128) && in_flight[i] is None && backlog.len() > 0 {
            if rejects > 0 {
                spec_dispatch(
                    in_flight,
                    backlog.skip(1).push(backlog[0]),
                    busy,
                    (rejects - 1) as u64,
                    i + 1,
                )
            } else {
                spec_dispatch(
                    in_flight.update(i, Option::Some(backlog[0])),
                    backlog.skip(1),
                    busy,
                    0,
                    i + 1,
                )
            }
        } else {
            spec_dispatch(in_flight, backlog, busy, rejects, i + 1)
        }
    }
}

proof fn lemma_queue_ids_push(s: Seq<CalculationRequest>, r: CalculationRequest)
    ensures
        queue_ids(s.push(r)) == queue_ids(s).insert(r.request_id),
{
    assert(s.push(r).drop_last() =~= s);
    assert(s.push(r).last() == r);
}

proof fn lemma_completion_ids_push(s: Seq<Completion>, c: Completion)
    ensures
        completion_ids(s.push(c)) == completion_ids(s).insert(c.request.request_id),
{
    assert(s.push(c).drop_last() =~= s);
    assert(s.push(c).last() == c);
}

/// Taking the head out of a queue takes exactly its id out of the multiset.
proof fn lemma_queue_ids_head(s: Seq<CalculationRequest>)
    requires
        s.len() > 0,
    ensures
        queue_ids(s) == queue_ids(s.skip(1)).insert(s[0].request_id),
    decreases s.len(),
{
    if s.len() == 1 {
        assert(s.drop_last() =~= Seq::<CalculationRequest>::empty());
        assert(s.skip(1) =~= Seq::<CalculationRequest>::empty());
        assert(s.last() == s[0]);
    } else {
        let dl = s.drop_last();
        lemma_queue_ids_head(dl);
        assert(s.skip(1).drop_last() =~= dl.skip(1));
        assert(s.skip(1).last() == s.last());
        assert(dl[0] == s[0]);
        assert(queue_ids(dl.skip(1)).insert(s[0].request_id).insert(s.last().request_id) =~= queue_ids(
            dl.skip(1),
        ).insert(s.last().request_id).insert(s[0].request_id));
    }
}

/// Exchanging a slot's content exchanges exactly its contribution.
proof fn lemma_slot_ids_update(s: Seq<Option<CalculationRequest>>, i: int, v: Option<
    CalculationRequest,
>)
    requires
        0 <= i < s.len(),
    ensures
        slot_ids(s.update(i, v)).add(opt_ids(s[i])) == slot_ids(s).add(opt_ids(v)),
    decreases s.len(),
{
    let u = s.update(i, v);
    if i == s.len() - 1 {
        assert(u.drop_last() =~= s.drop_last());
        assert(u.last() == v);
        assert(s.last() == s[i]);
        assert(slot_ids(s.drop_last()).add(opt_ids(v)).add(opt_ids(s[i])) =~= slot_ids(
            s.drop_last(),
        ).add(opt_ids(s[i])).add(opt_ids(v)));
    } else {
        let dl = s.drop_last();
        lemma_slot_ids_update(dl, i, v);
        assert(u.drop_last() =~= dl.update(i, v));
        assert(u.last() == s.last());
        assert(dl[i] == s[i]);
        assert(slot_ids(dl.update(i, v)).add(opt_ids(s.last())).add(opt_ids(s[i])) =~= slot_ids(
            dl.update(i, v),
        ).add(opt_ids(s[i])).add(opt_ids(s.last())));
        assert(slot_ids(dl).add(opt_ids(v)).add(opt_ids(s.last())) =~= slot_ids(dl).add(opt_ids(
            s.last(),
        )).add(opt_ids(v)));
    }
}

/// Moving one id between the queue-plus-completions side and the in-flight
/// side leaves the total untouched.
proof fn lemma_conservation_shuffle(
    a: Multiset<u64>,
    b: Multiset<u64>,
    c: Multiset<u64>,
    a2: Multiset<u64>,
    c2: Multiset<u64>,
    x: u64,
)
    requires
        a2.add(c2) == a.add(c).insert(x),
    ensures
        a2.add(b).add(c2) == a.add(b.insert(x)).add(c),
{
    assert forall|y: u64|
        a2.add(b).add(c2).count(y) == a.add(b.insert(x)).add(c).count(y) by {
        let s = Multiset::<u64>::singleton(x);
        assert(a2.add(c2).count(y) == a.add(c).add(s).count(y));
        assert(a2.add(c2).count(y) == a2.count(y) + c2.count(y));
        assert(a.add(c).add(s).count(y) == a.count(y) + c.count(y) + s.count(y));
        assert(a2.add(b).add(c2).count(y) == a2.count(y) + b.count(y) + c2.count(y));
        assert(a.add(b.insert(x)).add(c).count(y) == a.count(y) + b.add(s).count(y) + c.count(y));
        assert(b.add(s).count(y) == b.count(y) + s.count(y));
    }
    assert(a2.add(b).add(c2) =~= a.add(b.insert(x)).add(c));
}

/// How many cores carry a request.
pub open spec fn in_flight_total(s: Seq<Option<CalculationRequest>>) -> nat
    decreases s.len(),
{
    if s.len() == 0 {
        0
    } else {
        in_flight_total(s.drop_last()) + (if s.last() is Some {
            1nat
        } else {
            0nat
        })
    }
}

proof fn lemma_in_flight_total_le_len(s: Seq<Option<CalculationRequest>>)
    ensures
        in_flight_total(s) <= s.len(),
    decreases s.len(),
{
    if s.len() > 0 {
        lemma_in_flight_total_le_len(s.drop_last());
    }
}

/// The scheduler: the single owner of the cluster's register protocol.
pub struct ClusterScheduler {
    cores_count: u64,
    in_flight: Vec<Option<CalculationRequest>>,
    backlog: Vec<CalculationRequest>,
}

impl View for ClusterScheduler {
    type V = SchedulerView;

    closed spec fn view(&self) -> SchedulerView {
        SchedulerView {
            cores_count: self.cores_count,
            in_flight: self.in_flight@,
            backlog: self.backlog@,
        }
    }
}

impl ClusterScheduler {
    /// Whether the state is one the scheduler maintains: one slot per core,
    /// and no retry counter past its bound.
    pub open spec fn wf(self) -> bool {
        &&& 1 <= self@.cores_count <= 128
        &&& self@.in_flight.len() == self@.cores_count
        &&& forall|i: int|
            0 <= i < self@.in_flight.len() && self@.in_flight[i] is Some ==> (
            #[trigger] self@.in_flight[i])->Some_0.attempts <= RETRY_LIMIT
        &&& forall|k: int|
            0 <= k < self@.backlog.len() ==> (#[trigger] self@.backlog[k]).attempts <= RETRY_LIMIT
    }

    /// A scheduler for `cores_count` cores: nothing in flight, nothing queued.
    pub fn new(cores_count: u64) -> (s: Self)
        requires
            1 <= cores_count <= 128,
        ensures
            s.wf(),
            s@.cores_count == cores_count,
            s@.backlog == Seq::<CalculationRequest>::empty(),
            s@.in_flight =~= Seq::<Option<CalculationRequest>>::new(
                cores_count as nat,
                |i: int| Option::None,
            ),
            live_ids(s@) == Multiset::<u64>::empty(),
    {
        let mut in_flight: Vec<Option<CalculationRequest>> = Vec::new();
        let mut i: u64 = 0;
        while i < cores_count
            invariant
                i <= cores_count,
                in_flight@ =~= Seq::<Option<CalculationRequest>>::new(
                    i as nat,
                    |k: int| Option::None,
                ),
            decreases cores_count - i,
        {
            in_flight.push(None);
            i += 1;
        }
        let s = ClusterScheduler { cores_count, in_flight, backlog: Vec::new() };
        proof {
            lemma_slot_ids_all_none(s@.in_flight);
        }
        s
    }

    /// Accept a submission into the backlog tail.
    pub fn submit(&mut self, req: CalculationRequest)
        requires
            old(self).wf(),
            req.attempts == 0,
        ensures
            final(self).wf(),
            final(self)@ == (SchedulerView { backlog: old(self)@.backlog.push(req), ..old(self)@ }),
            live_ids(final(self)@) == live_ids(old(self)@).insert(req.request_id),
    {
        self.backlog.push(req);
        proof {
            lemma_queue_ids_push(old(self)@.backlog, req);
            assert(queue_ids(old(self)@.backlog).insert(req.request_id).add(slot_ids(
                old(self)@.in_flight,
            )) =~= queue_ids(old(self)@.backlog).add(slot_ids(old(self)@.in_flight)).insert(
                req.request_id,
            ));
        }
    }

    /// The number of cores this scheduler drives.
    pub fn cores_count(&self) -> (r: u64)
        ensures
            r == self@.cores_count,
    {
        self.cores_count
    }

    /// How many requests are in flight.
    pub fn in_flight_count(&self) -> (n: u64)
        requires
            self.wf(),
        ensures
            n == in_flight_total(self@.in_flight),
    {
        let mut n: u64 = 0;
        let mut i: usize = 0;
        proof {
            lemma_in_flight_total_le_len(self@.in_flight);
        }
        while i < self.in_flight.len()
            invariant
                i <= self.in_flight.len(),
                self.in_flight@.len() <= 128,
                n == in_flight_total(self@.in_flight.take(i as int)),
                n <= i,
            decreases self.in_flight.len() - i,
        {
            proof {
                assert(self@.in_flight.take(i + 1).drop_last() =~= self@.in_flight.take(i as int));
                assert(self@.in_flight.take(i + 1).last() == self@.in_flight[i as int]);
            }
            if self.in_flight[i].is_some() {
                n += 1;
            }
            i += 1;
        }
        proof {
            assert(self@.in_flight.take(self@.in_flight.len() as int) =~= self@.in_flight);
        }
        n
    }

    /// A core fell not-busy without delivering: requeue its request with the
    /// retry counter raised, or, when the counter has reached [`RETRY_LIMIT`],
    /// answer the submitter with the terminal error.
    fn requeue_or_fail(&mut self, req: CalculationRequest, completions: &mut Vec<Completion>)
        requires
            old(self).wf(),
            req.attempts <= RETRY_LIMIT,
        ensures
            final(self).wf(),
            final(self)@.cores_count == old(self)@.cores_count,
            final(self)@.in_flight == old(self)@.in_flight,
            req.attempts < RETRY_LIMIT ==> {
                &&& final(self)@.backlog == old(self)@.backlog.push(
                    CalculationRequest { attempts: (req.attempts + 1) as u64, ..req },
                )
                &&& final(completions)@ == old(completions)@
            },
            req.attempts == RETRY_LIMIT ==> {
                &&& final(self)@.backlog == old(self)@.backlog
                &&& final(completions)@ == old(completions)@.push(
                    Completion { request: req, outcome: Err(CalcError::CoreWasReset) },
                )
            },
            queue_ids(final(self)@.backlog).add(completion_ids(final(completions)@)) == queue_ids(
                old(self)@.backlog,
            ).add(completion_ids(old(completions)@)).insert(req.request_id),
    {
        match recover_action(req.attempts) {
            RecoverAction::Retry(raised) => {
                let retry = CalculationRequest { attempts: raised, ..req };
                self.backlog.push(retry);
                proof {
                    lemma_queue_ids_push(old(self)@.backlog, retry);
                    assert(queue_ids(old(self)@.backlog).insert(req.request_id).add(
                        completion_ids(old(completions)@),
                    ) =~= queue_ids(old(self)@.backlog).add(completion_ids(old(completions)@))
                        .insert(req.request_id));
                }
            },
            RecoverAction::GiveUp => {
                let c = Completion { request: req, outcome: Err(CalcError::CoreWasReset) };
                completions.push(c);
                proof {
                    lemma_completion_ids_push(old(completions)@, c);
                    assert(queue_ids(old(self)@.backlog).add(completion_ids(
                        old(completions)@,
                    ).insert(req.request_id)) =~= queue_ids(old(self)@.backlog).add(
                        completion_ids(old(completions)@),
                    ).insert(req.request_id));
                }
            },
        }
    }


    /// Harvest one stopped core: slot `i` is in flight and its busy bit has
    /// fallen in the `busy` snapshot. With the valid bit set the result is
    /// observed through LoadResult and answered; without, the core was reset
    /// mid-flight and the request is requeued or failed.
    #[verifier::rlimit(100)]
    fn harvest_core(
        &mut self,
        cluster: &mut MockCluster,
        busy: u128,
        valid: u128,
        i: u64,
        completions: &mut Vec<Completion>,
    )
        requires
            old(self).wf(),
            old(cluster).wf(),
            old(self)@.cores_count == old(cluster)@.regs.cores_count,
            i < old(self)@.cores_count,
            busy == old(cluster)@.regs.cores_busy_flags,
            valid == old(cluster)@.regs.cores_valid_flags,
            old(self)@.in_flight[i as int] is Some,
            !bit_set(busy, i as u128),
        ensures
            final(self).wf(),
            final(cluster).wf(),
            final(self)@.cores_count == old(self)@.cores_count,
            final(self)@.in_flight == old(self)@.in_flight.update(
                i as int,
                Option::<CalculationRequest>::None,
            ),
            queue_ids(final(self)@.backlog).add(slot_ids(final(self)@.in_flight)).add(
                completion_ids(final(completions)@),
            ) == queue_ids(old(self)@.backlog).add(slot_ids(old(self)@.in_flight)).add(
                completion_ids(old(completions)@),
            ),
            final(completions)@.len() >= old(completions)@.len(),
            forall|k: int|
                0 <= k < old(completions)@.len() ==> #[trigger] final(completions)@[k] == old(
                    completions,
                )@[k],
            forall|k: int|
                old(completions)@.len() <= k < final(completions)@.len() && (
                #[trigger] final(completions)@[k]).outcome is Err ==> final(completions)@[k].request.attempts == RETRY_LIMIT,
            forall|k: int|
                old(completions)@.len() <= k < final(completions)@.len() && (
                #[trigger] final(completions)@[k]).outcome is Ok ==> final(completions)@[k].request
                    == old(self)@.in_flight[i as int]->Some_0 && bit_set(valid, i as u128) && final(completions)@[k].outcome->Ok_0 == old(cluster)@.results[i as int],
            final(cluster)@.regs.cores_busy_flags == busy,
            final(cluster)@.regs.cores_valid_flags == valid,
            final(cluster)@.regs.cores_count == old(cluster)@.regs.cores_count,
            final(cluster)@.results == old(cluster)@.results,
            final(cluster)@.reject_starts == old(cluster)@.reject_starts,
            bit_set(valid, i as u128) ==> final(cluster)@.cmd_log == old(cluster)@.cmd_log.push(
                CmdEvent { cmd: spec_encode_command(ClusterCommand::LoadResult), core: i },
            ),
            !bit_set(valid, i as u128) ==> final(cluster)@.cmd_log == old(cluster)@.cmd_log,
            final(cluster)@.starts == old(cluster)@.starts,
            bit_set(valid, i as u128) ==> {
                &&& final(completions)@ == old(completions)@.push(
                    (Completion {
                        request: old(self)@.in_flight[i as int]->Some_0,
                        outcome: Ok(old(cluster)@.results[i as int]),
                    }),
                )
                &&& final(self)@.backlog == old(self)@.backlog
            },
            !bit_set(valid, i as u128) && old(self)@.in_flight[i as int]->Some_0.attempts
                < RETRY_LIMIT ==> {
                &&& final(completions)@ == old(completions)@
                &&& final(self)@.backlog == old(self)@.backlog.push(
                    (CalculationRequest {
                        attempts: (old(self)@.in_flight[i as int]->Some_0.attempts + 1) as u64,
                        ..old(self)@.in_flight[i as int]->Some_0
                    }),
                )
            },
            !bit_set(valid, i as u128) && old(self)@.in_flight[i as int]->Some_0.attempts
                >= RETRY_LIMIT ==> {
                &&& final(completions)@ == old(completions)@.push(
                    (Completion {
                        request: old(self)@.in_flight[i as int]->Some_0,
                        outcome: Err(CalcError::CoreWasReset),
                    }),
                )
                &&& final(self)@.backlog == old(self)@.backlog
            },
    {
        let slot = self.in_flight[i as usize];
        let req = slot.unwrap();
        let ghost pre_flight = self@.in_flight;
        let ghost q = self@.backlog;
        let ghost pre_completions = completions@;
        self.in_flight.set(i as usize, None);
        proof {
            lemma_slot_ids_update(pre_flight, i as int, Option::None);
            assert(slot_ids(pre_flight).add(opt_ids(Option::None)) =~= slot_ids(pre_flight));
            assert(opt_ids(pre_flight[i as int]) =~= Multiset::<u64>::empty().insert(
                req.request_id,
            ));
            assert(slot_ids(self@.in_flight).insert(req.request_id) =~= slot_ids(
                self@.in_flight,
            ).add(Multiset::<u64>::empty().insert(req.request_id)));
            // The harvested slot's id moved out of the in-flight contribution:
            assert(slot_ids(pre_flight) == slot_ids(self@.in_flight).insert(req.request_id));
        }
        if flag_bit(valid, i) {
            let ghost pre_log = cluster@.cmd_log;
            cluster.load_core_address(i);
            cluster.load_command(ClusterCommand::LoadResult.encode());
            proof {
                assert(cluster@.cmd_log == pre_log.push(
                    CmdEvent { cmd: spec_encode_command(ClusterCommand::LoadResult), core: i },
                ));
            }
            if command_succeeded(cluster.command_status()) {
                let result = cluster.core_result();
                let c = Completion { request: req, outcome: Ok(result) };
                completions.push(c);
                proof {
                    lemma_completion_ids_push(pre_completions, c);
                    assert(queue_ids(q).add(completion_ids(completions@)) =~= queue_ids(q).add(
                        completion_ids(pre_completions),
                    ).insert(req.request_id));
                    lemma_conservation_shuffle(
                        queue_ids(q),
                        slot_ids(self@.in_flight),
                        completion_ids(pre_completions),
                        queue_ids(q),
                        completion_ids(completions@),
                        req.request_id,
                    );
                }
            } else {
                // A failed LoadResult counts as a reset mid-flight.
                self.requeue_or_fail(req, &mut *completions);
                proof {
                    lemma_conservation_shuffle(
                        queue_ids(q),
                        slot_ids(self@.in_flight),
                        completion_ids(pre_completions),
                        queue_ids(self@.backlog),
                        completion_ids(completions@),
                        req.request_id,
                    );
                }
            }
        } else {
            self.requeue_or_fail(req, &mut *completions);
            proof {
                lemma_conservation_shuffle(
                    queue_ids(q),
                    slot_ids(self@.in_flight),
                    completion_ids(pre_completions),
                    queue_ids(self@.backlog),
                    completion_ids(completions@),
                    req.request_id,
                );
            }
        }
    }

    /// Harvest pass: free every in-flight core whose busy bit has fallen in
    /// the `busy` snapshot, answering or requeuing its request.
    #[verifier::rlimit(100)]
    fn harvest(&mut self, cluster: &mut MockCluster, busy: u128, valid: u128) -> (completions: Vec<
        Completion,
    >)
        requires
            old(self).wf(),
            old(cluster).wf(),
            old(self)@.cores_count == old(cluster)@.regs.cores_count,
            busy == old(cluster)@.regs.cores_busy_flags,
            valid == old(cluster)@.regs.cores_valid_flags,
        ensures
            final(self).wf(),
            final(cluster).wf(),
            final(self)@.cores_count == old(self)@.cores_count,
            final(self)@.in_flight.len() == old(self)@.in_flight.len(),
            forall|j: int|
                0 <= j < old(self)@.in_flight.len() ==> final(self)@.in_flight[j] == (if old(self)@.in_flight[j] is Some && !bit_set(busy, j as u128) {
                    Option::<CalculationRequest>::None
                } else {
                    old(self)@.in_flight[j]
                }),
            live_ids(old(self)@) == live_ids(final(self)@).add(completion_ids(completions@)),
            forall|k: int|
                0 <= k < completions@.len() && (#[trigger] completions@[k]).outcome is Err
                    ==> completions@[k].request.attempts == RETRY_LIMIT,
            forall|k: int|
                0 <= k < completions@.len() && (#[trigger] completions@[k]).outcome is Ok
                    ==> exists|j: int|
                    0 <= j < old(self)@.in_flight.len() && old(self)@.in_flight[j] == Some(
                        completions@[k].request,
                    ) && !bit_set(busy, j as u128) && bit_set(valid, j as u128)
                        && completions@[k].outcome->Ok_0 == old(cluster)@.results[j],
            final(cluster)@.regs.cores_busy_flags == busy,
            final(cluster)@.regs.cores_valid_flags == valid,
            final(cluster)@.regs.cores_count == old(cluster)@.regs.cores_count,
            final(cluster)@.results == old(cluster)@.results,
            final(cluster)@.reject_starts == old(cluster)@.reject_starts,
            final(cluster)@.cmd_log.len() >= old(cluster)@.cmd_log.len(),
            forall|k: int|
                0 <= k < old(cluster)@.cmd_log.len() ==> #[trigger] final(cluster)@.cmd_log[k]
                    == old(cluster)@.cmd_log[k],
            forall|k: int|
                old(cluster)@.cmd_log.len() <= k < final(cluster)@.cmd_log.len() ==> (
                #[trigger] final(cluster)@.cmd_log[k]).cmd == spec_encode_command(
                    ClusterCommand::LoadResult,
                ),
            final(cluster)@.starts == old(cluster)@.starts,
            ({
                let h = spec_harvest(
                    old(self)@.in_flight,
                    old(self)@.backlog,
                    Seq::<Completion>::empty(),
                    busy,
                    valid,
                    old(cluster)@.results,
                    0,
                );
                &&& final(self)@.in_flight == h.0
                &&& final(self)@.backlog == h.1
                &&& completions@ == h.2
            }),
    {
        let cores_count = self.cores_count;
        let ghost n0 = old(cluster)@.cmd_log.len() as int;
        let mut completions: Vec<Completion> = Vec::new();
        let mut i: u64 = 0;
        while i < cores_count
            invariant
                self.wf(),
                cluster.wf(),
                i <= cores_count,
                cores_count == old(self)@.cores_count,
                self@.cores_count == cores_count,
                self@.in_flight.len() == cores_count,
                old(self)@.in_flight.len() == cores_count,
                cluster@.regs.cores_count == cores_count,
                busy == cluster@.regs.cores_busy_flags,
                valid == cluster@.regs.cores_valid_flags,
                cluster@.results == old(cluster)@.results,
                cluster@.reject_starts == old(cluster)@.reject_starts,
                cluster@.starts == old(cluster)@.starts,
                forall|j: int|
                    0 <= j < i ==> self@.in_flight[j] == (if old(self)@.in_flight[j] is Some
                        && !bit_set(busy, j as u128) {
                        Option::<CalculationRequest>::None
                    } else {
                        old(self)@.in_flight[j]
                    }),
                forall|j: int|
                    i <= j < cores_count ==> self@.in_flight[j] == old(self)@.in_flight[j],
                queue_ids(self@.backlog).add(slot_ids(self@.in_flight)).add(completion_ids(
                    completions@,
                )) == live_ids(old(self)@),
                forall|k: int|
                    0 <= k < completions@.len() && (#[trigger] completions@[k]).outcome is Err
                        ==> completions@[k].request.attempts == RETRY_LIMIT,
                forall|k: int|
                    0 <= k < completions@.len() && (#[trigger] completions@[k]).outcome is Ok
                        ==> exists|j: int|
                        0 <= j < old(self)@.in_flight.len() && old(self)@.in_flight[j] == Some(
                            completions@[k].request,
                        ) && !bit_set(busy, j as u128) && bit_set(valid, j as u128)
                            && completions@[k].outcome->Ok_0 == old(cluster)@.results[j],
                n0 == old(cluster)@.cmd_log.len() as int,
                cluster@.cmd_log.len() >= n0,
                forall|k: int|
                    0 <= k < n0 ==> #[trigger] cluster@.cmd_log[k] == old(cluster)@.cmd_log[k],
                forall|k: int|
                    n0 <= k < cluster@.cmd_log.len() ==> (#[trigger] cluster@.cmd_log[k]).cmd
                        == spec_encode_command(ClusterCommand::LoadResult),
                spec_harvest(
                    old(self)@.in_flight,
                    old(self)@.backlog,
                    Seq::<Completion>::empty(),
                    busy,
                    valid,
                    old(cluster)@.results,
                    0,
                ) == spec_harvest(
                    self@.in_flight,
                    self@.backlog,
                    completions@,
                    busy,
                    valid,
                    old(cluster)@.results,
                    i as int,
                ),
            decreases cores_count - i,
        {
            let slot = self.in_flight[i as usize];
            let ghost pre_flight = self@.in_flight;
            let ghost pre_backlog = self@.backlog;
            let ghost pre_completions = completions@;
            if harvest_action(slot.is_some(), flag_bit(busy, i), flag_bit(valid, i))
                != HarvestAction::Leave {
                let ghost pre_log = cluster@.cmd_log;
                self.harvest_core(cluster, busy, valid, i, &mut completions);
                proof {
                    let ev = CmdEvent {
                        cmd: spec_encode_command(ClusterCommand::LoadResult),
                        core: i,
                    };
                    assert(cluster@.cmd_log == pre_log.push(ev) || cluster@.cmd_log == pre_log);
                    assert forall|k: int|
                        0 <= k < pre_log.len() implies #[trigger] cluster@.cmd_log[k]
                        == pre_log[k] by {
                        if cluster@.cmd_log == pre_log.push(ev) {
                            assert(pre_log.push(ev)[k] == pre_log[k]);
                        }
                    }
                    assert(old(self)@.in_flight[i as int] == pre_flight[i as int]);
                    assert forall|k: int|
                        0 <= k < completions@.len() && (#[trigger] completions@[k]).outcome
                            is Ok implies exists|j: int|
                        0 <= j < old(self)@.in_flight.len() && old(self)@.in_flight[j] == Some(
                            completions@[k].request,
                        ) && !bit_set(busy, j as u128) && bit_set(valid, j as u128)
                            && completions@[k].outcome->Ok_0 == old(cluster)@.results[j] by {
                        if k < pre_completions.len() {
                            assert(pre_completions[k] == completions@[k]);
                        } else {
                            assert(0 <= (i as int) && (i as int) < old(self)@.in_flight.len() && old(self)@.in_flight[i as int] == Some(completions@[k].request) && !bit_set(
                                busy,
                                i as u128,
                            ) && bit_set(valid, i as u128) && completions@[k].outcome->Ok_0 == old(cluster)@.results[i as int]);
                        }
                    }
                    assert forall|k: int|
                        0 <= k < completions@.len() && (#[trigger] completions@[k]).outcome
                            is Err implies completions@[k].request.attempts == RETRY_LIMIT by {
                        if k < pre_completions.len() {
                            assert(pre_completions[k] == completions@[k]);
                        }
                    }
                    assert forall|k: int|
                        n0 <= k < cluster@.cmd_log.len() implies (
                    #[trigger] cluster@.cmd_log[k]).cmd == spec_encode_command(
                        ClusterCommand::LoadResult,
                    ) by {
                        if k < pre_log.len() {
                            assert(cluster@.cmd_log[k] == pre_log[k]);
                        } else {
                            assert(cluster@.cmd_log == pre_log.push(ev));
                            assert(pre_log.push(ev)[pre_log.len() as int] == ev);
                        }
                    }
                }
            }
            proof {
                let results0 = old(cluster)@.results;
                if pre_flight[i as int] is Some && !bit_set(busy, i as u128) {
                    let r = pre_flight[i as int]->Some_0;
                    if bit_set(valid, i as u128) {
                        assert(self@.in_flight == pre_flight.update(
                            i as int,
                            Option::<CalculationRequest>::None,
                        ));
                        assert(completions@ == pre_completions.push(
                            (Completion { request: r, outcome: Ok(results0[i as int]) }),
                        ));
                        assert(self@.backlog == pre_backlog);
                    } else if r.attempts < RETRY_LIMIT {
                        assert(self@.backlog == pre_backlog.push(
                            (CalculationRequest { attempts: (r.attempts + 1) as u64, ..r }),
                        ));
                        assert(completions@ == pre_completions);
                    } else {
                        assert(completions@ == pre_completions.push(
                            (Completion { request: r, outcome: Err(CalcError::CoreWasReset) }),
                        ));
                        assert(self@.backlog == pre_backlog);
                    }
                } else {
                    assert(self@.in_flight == pre_flight);
                    assert(self@.backlog == pre_backlog);
                    assert(completions@ == pre_completions);
                }
                assert(spec_harvest(
                    pre_flight,
                    pre_backlog,
                    pre_completions,
                    busy,
                    valid,
                    results0,
                    i as int,
                ) == spec_harvest(
                    self@.in_flight,
                    self@.backlog,
                    completions@,
                    busy,
                    valid,
                    results0,
                    i + 1,
                ));
            }
            i += 1;
        }
        proof {
            assert(spec_harvest(
                self@.in_flight,
                self@.backlog,
                completions@,
                busy,
                valid,
                old(cluster)@.results,
                cores_count as int,
            ) == (self@.in_flight, self@.backlog, completions@));
        }
        completions
    }

    /// Dispatch pass: pair each core that the `busy` snapshot shows idle and
    /// that carries nothing, in ascending CoreId order, with the head of the
    /// backlog: select the core, load its operands, issue Start. The cluster
    /// accepting it puts the request in flight; any other status returns it
    /// to the backlog tail.
    #[verifier::rlimit(100)]
    fn dispatch(&mut self, cluster: &mut MockCluster, busy: u128)
        requires
            old(self).wf(),
            old(cluster).wf(),
            old(self)@.cores_count == old(cluster)@.regs.cores_count,
            busy == old(cluster)@.regs.cores_busy_flags,
            forall|j: int|
                0 <= j < old(self)@.in_flight.len() && old(self)@.in_flight[j] is Some ==> bit_set(
                    busy,
                    j as u128,
                ),
        ensures
            final(self).wf(),
            final(cluster).wf(),
            final(self)@.cores_count == old(self)@.cores_count,
            final(self)@.in_flight.len() == old(self)@.in_flight.len(),
            live_ids(final(self)@) == live_ids(old(self)@),
            forall|j: int|
                0 <= j < old(self)@.in_flight.len() && old(self)@.in_flight[j] is Some
                    ==> final(self)@.in_flight[j] == old(self)@.in_flight[j],
            forall|j: int|
                0 <= j < final(self)@.in_flight.len() && final(self)@.in_flight[j] is Some
                    ==> bit_set(final(cluster)@.regs.cores_busy_flags, j as u128),
            forall|j: u128|
                j < 128 && bit_set(final(cluster)@.regs.cores_busy_flags, j) ==> bit_set(busy, j)
                    || (j < old(self)@.cores_count && final(self)@.in_flight[j as int] is Some),
            final(cluster)@.regs.cores_count == old(cluster)@.regs.cores_count,
            final(cluster)@.results == old(cluster)@.results,
            final(cluster)@.cmd_log.len() >= old(cluster)@.cmd_log.len(),
            forall|k: int|
                0 <= k < old(cluster)@.cmd_log.len() ==> #[trigger] final(cluster)@.cmd_log[k]
                    == old(cluster)@.cmd_log[k],
            forall|k: int|
                old(cluster)@.cmd_log.len() <= k < final(cluster)@.cmd_log.len() ==> (
                #[trigger] final(cluster)@.cmd_log[k]).cmd == spec_encode_command(
                    ClusterCommand::Start,
                ),
            forall|a: int, b: int|
                old(cluster)@.cmd_log.len() <= a < b < final(cluster)@.cmd_log.len() ==> (
                #[trigger] final(cluster)@.cmd_log[a]).core < (
                #[trigger] final(cluster)@.cmd_log[b]).core,
            ({
                let d = spec_dispatch(
                    old(self)@.in_flight,
                    old(self)@.backlog,
                    busy,
                    old(cluster)@.reject_starts,
                    0,
                );
                &&& final(self)@.in_flight == d.0
                &&& final(self)@.backlog == d.1
                &&& final(cluster)@.reject_starts == d.2
            }),
            final(cluster)@.starts.len() >= old(cluster)@.starts.len(),
            forall|k: int|
                0 <= k < old(cluster)@.starts.len() ==> #[trigger] final(cluster)@.starts[k]
                    == old(cluster)@.starts[k],
            forall|k: int|
                old(cluster)@.starts.len() <= k < final(cluster)@.starts.len() ==> {
                    let l = #[trigger] final(cluster)@.starts[k];
                    &&& l.core < old(self)@.cores_count
                    &&& final(self)@.in_flight[l.core as int] is Some
                    &&& final(self)@.in_flight[l.core as int]->Some_0.x == l.x
                    &&& final(self)@.in_flight[l.core as int]->Some_0.y == l.y
                    &&& final(self)@.in_flight[l.core as int]->Some_0.itterations_max
                        == l.itterations_max
                },
    {
        let cores_count = self.cores_count;
        let ghost n0 = old(cluster)@.cmd_log.len() as int;
        let ghost m0 = old(cluster)@.starts.len() as int;
        let mut i: u64 = 0;
        while i < cores_count
            invariant
                self.wf(),
                cluster.wf(),
                i <= cores_count,
                cores_count == old(self)@.cores_count,
                self@.cores_count == cores_count,
                self@.in_flight.len() == cores_count,
                old(self)@.in_flight.len() == cores_count,
                cluster@.regs.cores_count == cores_count,
                cluster@.results == old(cluster)@.results,
                queue_ids(self@.backlog).add(slot_ids(self@.in_flight)) == live_ids(old(self)@),
                forall|j: int|
                    0 <= j < cores_count && old(self)@.in_flight[j] is Some ==> self@.in_flight[j]
                        == old(self)@.in_flight[j],
                forall|j: int|
                    0 <= j < cores_count && self@.in_flight[j] is Some ==> bit_set(
                        cluster@.regs.cores_busy_flags,
                        j as u128,
                    ),
                forall|j: u128|
                    j < 128 && bit_set(busy, j) ==> bit_set(cluster@.regs.cores_busy_flags, j),
                forall|j: u128|
                    i as u128 <= j < 128 ==> bit_set(cluster@.regs.cores_busy_flags, j) == bit_set(
                        busy,
                        j,
                    ),
                forall|j: u128|
                    j < 128 && bit_set(cluster@.regs.cores_busy_flags, j) ==> bit_set(busy, j) || (
                    j < cores_count && self@.in_flight[j as int] is Some),
                n0 == old(cluster)@.cmd_log.len() as int,
                cluster@.cmd_log.len() >= n0,
                forall|k: int|
                    0 <= k < n0 ==> #[trigger] cluster@.cmd_log[k] == old(cluster)@.cmd_log[k],
                forall|k: int|
                    n0 <= k < cluster@.cmd_log.len() ==> (#[trigger] cluster@.cmd_log[k]).cmd
                        == spec_encode_command(ClusterCommand::Start),
                forall|k: int|
                    n0 <= k < cluster@.cmd_log.len() ==> (#[trigger] cluster@.cmd_log[k]).core < i,
                forall|a: int, b: int|
                    n0 <= a < b < cluster@.cmd_log.len() ==> (#[trigger] cluster@.cmd_log[a]).core
                        < (#[trigger] cluster@.cmd_log[b]).core,
                spec_dispatch(
                    old(self)@.in_flight,
                    old(self)@.backlog,
                    busy,
                    old(cluster)@.reject_starts,
                    0,
                ) == spec_dispatch(
                    self@.in_flight,
                    self@.backlog,
                    busy,
                    cluster@.reject_starts,
                    i as int,
                ),
                m0 == old(cluster)@.starts.len() as int,
                cluster@.starts.len() >= m0,
                forall|k: int|
                    0 <= k < m0 ==> #[trigger] cluster@.starts[k] == old(cluster)@.starts[k],
                forall|k: int|
                    m0 <= k < cluster@.starts.len() ==> {
                        let l = #[trigger] cluster@.starts[k];
                        &&& l.core < cores_count
                        &&& self@.in_flight[l.core as int] is Some
                        &&& self@.in_flight[l.core as int]->Some_0.x == l.x
                        &&& self@.in_flight[l.core as int]->Some_0.y == l.y
                        &&& self@.in_flight[l.core as int]->Some_0.itterations_max
                            == l.itterations_max
                    },
            decreases cores_count - i,
        {
            let ghost pre_backlog = self@.backlog;
            let ghost pre_flight = self@.in_flight;
            let ghost pre_rejects = cluster@.reject_starts;
            if dispatch_wanted(
                flag_bit(busy, i),
                self.in_flight[i as usize].is_some(),
                self.backlog.len(),
            ) {
                let req = self.backlog.remove(0);
                proof {
                    assert(pre_backlog.remove(0) =~= pre_backlog.skip(1));
                    lemma_queue_ids_head(pre_backlog);
                }
                cluster.load_core_address(i);
                cluster.load_core_x(req.x);
                cluster.load_core_y(req.y);
                cluster.load_core_itterations_max(req.itterations_max);
                let ghost pre_log = cluster@.cmd_log;
                let ghost pre_busy = cluster@.regs.cores_busy_flags;
                cluster.load_command(ClusterCommand::Start.encode());
                proof {
                    let ev = CmdEvent { cmd: spec_encode_command(ClusterCommand::Start), core: i };
                    assert(cluster@.cmd_log == pre_log.push(ev));
                    assert forall|k: int|
                        0 <= k < pre_log.len() implies #[trigger] cluster@.cmd_log[k]
                        == pre_log[k] by {
                        assert(pre_log.push(ev)[k] == pre_log[k]);
                    }
                    assert(cluster@.cmd_log[pre_log.len() as int] == ev);
                    assert(bit_set(pre_busy, i as u128) == bit_set(busy, i as u128));
                }
                if command_succeeded(cluster.command_status()) {
                    let ghost pre_starts = cluster@.starts;
                    self.in_flight.set(i as usize, Some(req));
                    proof {
                        assert(cluster@.starts == pre_starts);
                        assert(pre_starts.last() == (StartLatch {
                            core: i,
                            x: req.x,
                            y: req.y,
                            itterations_max: req.itterations_max,
                        }));
                        lemma_slot_ids_update(pre_flight, i as int, Option::Some(req));
                        let s = Multiset::singleton(req.request_id);
                        assert forall|y: u64|
                            queue_ids(self@.backlog).add(slot_ids(self@.in_flight)).count(y)
                                == queue_ids(pre_backlog).add(slot_ids(pre_flight)).count(y) by {
                            assert(queue_ids(pre_backlog).count(y) == queue_ids(
                                self@.backlog,
                            ).add(s).count(y));
                            assert(slot_ids(self@.in_flight).add(opt_ids(Option::None)).count(y)
                                == slot_ids(pre_flight).add(opt_ids(Option::Some(req))).count(y));
                            assert(opt_ids(Option::<CalculationRequest>::None).count(y) == 0);
                            assert(opt_ids(Option::Some(req)).count(y) == Multiset::<
                                u64,
                            >::empty().add(s).count(y));
                        }
                        assert(queue_ids(self@.backlog).add(slot_ids(self@.in_flight))
                            =~= queue_ids(pre_backlog).add(slot_ids(pre_flight)));
                        assert forall|j: u128|
                            j < 128 implies bit_set(cluster@.regs.cores_busy_flags, j) == (j == (
                        i as u128) || bit_set(pre_busy, j)) by {
                            lemma_bit_or(pre_busy, i as u128, j);
                        }
                    }
                } else {
                    self.backlog.push(req);
                    proof {
                        lemma_queue_ids_push(self@.backlog.drop_last(), req);
                        assert(self@.backlog.drop_last() =~= pre_backlog.skip(1));
                        assert(queue_ids(self@.backlog) =~= queue_ids(pre_backlog));
                        assert(queue_ids(self@.backlog).add(slot_ids(self@.in_flight))
                            =~= queue_ids(pre_backlog).add(slot_ids(pre_flight)));
                        assert(self@.backlog == pre_backlog.skip(1).push(pre_backlog[0]));
                    }
                }
            }
            proof {
                if !bit_set(busy, i as u128) && pre_flight[i as int] is None
                    && pre_backlog.len() > 0 {
                    let head = pre_backlog[0];
                    if pre_rejects > 0 {
                        assert(self@.in_flight == pre_flight);
                        assert(self@.backlog == pre_backlog.skip(1).push(head));
                        assert(cluster@.reject_starts == pre_rejects - 1);
                    } else {
                        assert(self@.in_flight == pre_flight.update(
                            i as int,
                            Option::Some(head),
                        ));
                        assert(self@.backlog == pre_backlog.skip(1));
                        assert(cluster@.reject_starts == 0);
                    }
                } else {
                    assert(self@.in_flight == pre_flight);
                    assert(self@.backlog == pre_backlog);
                    assert(cluster@.reject_starts == pre_rejects);
                }
                assert(spec_dispatch(pre_flight, pre_backlog, busy, pre_rejects, i as int)
                    == spec_dispatch(
                    self@.in_flight,
                    self@.backlog,
                    busy,
                    cluster@.reject_starts,
                    i + 1,
                ));
            }
            i += 1;
        }
        proof {
            assert(spec_dispatch(
                self@.in_flight,
                self@.backlog,
                busy,
                cluster@.reject_starts,
                cores_count as int,
            ) == (self@.in_flight, self@.backlog, cluster@.reject_starts));
        }
    }

    /// One scheduler cycle: snapshot the busy and valid flag words once,
    /// harvest every in-flight core whose busy bit has fallen, then dispatch
    /// backlog heads to idle cores in ascending CoreId order. Returns the
    /// completions owed to submitters.
    ///
    /// The whole cycle is pinned: the completions are exactly those of
    /// [`spec_harvest`] over the snapshot, and the new in-flight map, backlog
    /// and pending rejections are exactly those of [`spec_dispatch`] applied
    /// to the harvested state — every stopped core is freed and its result
    /// delivered or its request requeued, and every idle core receives the
    /// backlog head unless the cluster rejects the Start. Every Start the
    /// cluster accepted had latched, out of the operand registers, exactly
    /// the point and iteration cap of the request now in flight on that
    /// core.
    ///
    /// The contract also carries the scheduler's laws: no response channel
    /// is lost or answered twice (the live ids of the old state are exactly
    /// those of the new state plus the completions); a terminal error is
    /// delivered only at the retry bound; every successful result is the one
    /// the harvested core offered; after the cycle every in-flight core is
    /// busy; in the commands this cycle issued, every LoadResult precedes
    /// every Start, so a result is always observed before the core is
    /// restarted; and Starts go to ascending CoreIds.
    #[verifier::rlimit(100)]
    pub fn cycle(&mut self, cluster: &mut MockCluster) -> (completions: Vec<Completion>)
        requires
            old(self).wf(),
            old(cluster).wf(),
            old(self)@.cores_count == old(cluster)@.regs.cores_count,
        ensures
            final(self).wf(),
            final(cluster).wf(),
            final(self)@.cores_count == old(self)@.cores_count,
            final(cluster)@.regs.cores_count == old(cluster)@.regs.cores_count,
            final(cluster)@.results == old(cluster)@.results,
            live_ids(old(self)@) == live_ids(final(self)@).add(completion_ids(completions@)),
            forall|k: int|
                0 <= k < completions@.len() && (#[trigger] completions@[k]).outcome is Err
                    ==> completions@[k].request.attempts == RETRY_LIMIT,
            forall|k: int|
                0 <= k < completions@.len() && (#[trigger] completions@[k]).outcome is Ok
                    ==> exists|j: int|
                    0 <= j < old(self)@.in_flight.len() && old(self)@.in_flight[j] == Some(
                        completions@[k].request,
                    ) && !bit_set(old(cluster)@.regs.cores_busy_flags, j as u128) && bit_set(
                        old(cluster)@.regs.cores_valid_flags,
                        j as u128,
                    ) && completions@[k].outcome->Ok_0 == old(cluster)@.results[j],
            forall|j: int|
                0 <= j < final(self)@.in_flight.len() && final(self)@.in_flight[j] is Some
                    ==> bit_set(final(cluster)@.regs.cores_busy_flags, j as u128),
            forall|j: u128|
                j < 128 && bit_set(final(cluster)@.regs.cores_busy_flags, j) ==> bit_set(
                    old(cluster)@.regs.cores_busy_flags,
                    j,
                ) || (j < old(self)@.cores_count && final(self)@.in_flight[j as int] is Some),
            final(cluster)@.cmd_log.len() >= old(cluster)@.cmd_log.len(),
            forall|k: int|
                0 <= k < old(cluster)@.cmd_log.len() ==> #[trigger] final(cluster)@.cmd_log[k]
                    == old(cluster)@.cmd_log[k],
            harvest_precedes_dispatch(
                final(cluster)@.cmd_log,
                old(cluster)@.cmd_log.len() as int,
            ),
            forall|a: int, b: int|
                old(cluster)@.cmd_log.len() <= a < b < final(cluster)@.cmd_log.len() && (
                #[trigger] final(cluster)@.cmd_log[a]).cmd == spec_encode_command(
                    ClusterCommand::Start,
                ) && (#[trigger] final(cluster)@.cmd_log[b]).cmd == spec_encode_command(
                    ClusterCommand::Start,
                ) ==> final(cluster)@.cmd_log[a].core < final(cluster)@.cmd_log[b].core,
            ({
                let h = spec_harvest(
                    old(self)@.in_flight,
                    old(self)@.backlog,
                    Seq::<Completion>::empty(),
                    old(cluster)@.regs.cores_busy_flags,
                    old(cluster)@.regs.cores_valid_flags,
                    old(cluster)@.results,
                    0,
                );
                let d = spec_dispatch(
                    h.0,
                    h.1,
                    old(cluster)@.regs.cores_busy_flags,
                    old(cluster)@.reject_starts,
                    0,
                );
                &&& completions@ == h.2
                &&& final(self)@.in_flight == d.0
                &&& final(self)@.backlog == d.1
                &&& final(cluster)@.reject_starts == d.2
            }),
            final(cluster)@.starts.len() >= old(cluster)@.starts.len(),
            forall|k: int|
                0 <= k < old(cluster)@.starts.len() ==> #[trigger] final(cluster)@.starts[k]
                    == old(cluster)@.starts[k],
            forall|k: int|
                old(cluster)@.starts.len() <= k < final(cluster)@.starts.len() ==> {
                    let l = #[trigger] final(cluster)@.starts[k];
                    &&& l.core < old(self)@.cores_count
                    &&& final(self)@.in_flight[l.core as int] is Some
                    &&& final(self)@.in_flight[l.core as int]->Some_0.x == l.x
                    &&& final(self)@.in_flight[l.core as int]->Some_0.y == l.y
                    &&& final(self)@.in_flight[l.core as int]->Some_0.itterations_max
                        == l.itterations_max
                },
    {
        let busy = cluster.cores_busy_flags();
        let valid = cluster.cores_valid_flags();
        let ghost n0 = old(cluster)@.cmd_log.len() as int;
        let completions = self.harvest(cluster, busy, valid);
        let ghost mid_self = self@;
        let ghost mid_cluster = cluster@;
        let ghost n1 = cluster@.cmd_log.len() as int;
        self.dispatch(cluster, busy);
        proof {
            let ghost n2 = cluster@.cmd_log.len() as int;
            // Conservation composes across the two passes.
            assert(live_ids(mid_self) == live_ids(self@));
            // In the appended commands, every LoadResult precedes every Start.
            assert forall|a: int, b: int|
                n0 <= a < b < n2 && (#[trigger] cluster@.cmd_log[b]).cmd == spec_encode_command(
                    ClusterCommand::LoadResult,
                ) implies (#[trigger] cluster@.cmd_log[a]).cmd != spec_encode_command(
                ClusterCommand::Start,
            ) by {
                if b >= n1 {
                    assert(cluster@.cmd_log[b].cmd == spec_encode_command(ClusterCommand::Start));
                } else {
                    assert(cluster@.cmd_log[a] == mid_cluster.cmd_log[a]);
                    assert(mid_cluster.cmd_log[a].cmd == spec_encode_command(
                        ClusterCommand::LoadResult,
                    ));
                }
            }
            // Start commands go to ascending CoreIds: all of them belong to
            // the dispatch pass, which walks the cores upward.
            assert forall|a: int, b: int|
                n0 <= a < b < n2 && (#[trigger] cluster@.cmd_log[a]).cmd == spec_encode_command(
                    ClusterCommand::Start,
                ) && (#[trigger] cluster@.cmd_log[b]).cmd == spec_encode_command(
                    ClusterCommand::Start,
                ) implies cluster@.cmd_log[a].core < cluster@.cmd_log[b].core by {
                if a < n1 {
                    assert(cluster@.cmd_log[a] == mid_cluster.cmd_log[a]);
                    assert(mid_cluster.cmd_log[a].cmd == spec_encode_command(
                        ClusterCommand::LoadResult,
                    ));
                }
            }
        }
        completions
    }

    /// How many requests await a free core.
    pub fn backlog_len(&self) -> (n: usize)
        ensures
            n == self@.backlog.len(),
    {
        self.backlog.len()
    }
}

proof fn lemma_slot_ids_all_none(s: Seq<Option<CalculationRequest>>)
    requires
        forall|i: int| 0 <= i < s.len() ==> #[trigger] s[i] is None,
    ensures
        slot_ids(s) == Multiset::<u64>::empty(),
    decreases s.len(),
{
    if s.len() > 0 {
        lemma_slot_ids_all_none(s.drop_last());
        assert(s.last() is None);
        assert(Multiset::<u64>::empty().add(opt_ids(s.last())) =~= Multiset::<u64>::empty());
    }
}

/// At most one request is in flight per core: the InFlight map holds one
/// slot per CoreId, so two requests found under the same CoreId are the same
/// request.
pub proof fn lemma_at_most_one_per_core(
    v: SchedulerView,
    i: int,
    r1: CalculationRequest,
    r2: CalculationRequest,
)
    requires
        0 <= i < v.in_flight.len(),
        v.in_flight[i] == Some(r1),
        v.in_flight[i] == Some(r2),
    ensures
        r1 == r2,
{
}

/// The InFlight map never holds more requests than there are cores.
pub proof fn lemma_in_flight_bounded(v: SchedulerView)
    requires
        v.in_flight.len() == v.cores_count,
    ensures
        in_flight_total(v.in_flight) <= v.cores_count,
{
    lemma_in_flight_total_le_len(v.in_flight);
}

/// No request's retry counter passes [`RETRY_LIMIT`], whether it waits in
/// the backlog or is in flight; [`ClusterScheduler::cycle`] adds that a
/// terminal error is delivered exactly at that bound.
pub proof fn lemma_reset_bound(s: ClusterScheduler)
    requires
        s.wf(),
    ensures
        forall|i: int|
            0 <= i < s@.in_flight.len() && s@.in_flight[i] is Some ==> (
            #[trigger] s@.in_flight[i])->Some_0.attempts <= RETRY_LIMIT,
        forall|k: int|
            0 <= k < s@.backlog.len() ==> (#[trigger] s@.backlog[k]).attempts <= RETRY_LIMIT,
{
}

/// Harvest before dispatch: when one cycle both observed a result through
/// LoadResult and issued a Start, the LoadResult came strictly earlier, for
/// any pair of cores and in particular for the same core.
pub proof fn lemma_harvest_before_dispatch(log: Seq<CmdEvent>, from: int, a: int, b: int)
    requires
        harvest_precedes_dispatch(log, from),
        from <= a < log.len(),
        from <= b < log.len(),
        log[a].cmd == spec_encode_command(ClusterCommand::Start),
        log[b].cmd == spec_encode_command(ClusterCommand::LoadResult),
    ensures
        b < a,
{
    if a < b {
        assert(log[a].cmd != spec_encode_command(ClusterCommand::Start));
    }
}

/// Startup: select each core in turn and issue Reset, as the protocol asks
/// before any dispatch; reports whether every Reset returned Success. When it
/// did, no core is left busy or holding a stale result.
pub fn reset_all_cores(cluster: &mut MockCluster) -> (ok: bool)
    requires
        old(cluster).wf(),
    ensures
        final(cluster).wf(),
        final(cluster)@.regs.cores_count == old(cluster)@.regs.cores_count,
        final(cluster)@.results == old(cluster)@.results,
        final(cluster)@.reject_starts == old(cluster)@.reject_starts,
        ok == true,
        forall|j: u128|
            j < final(cluster)@.regs.cores_count ==> !bit_set(
                final(cluster)@.regs.cores_busy_flags,
                j,
            ) && !bit_set(final(cluster)@.regs.cores_valid_flags, j),
        final(cluster)@.cmd_log == old(cluster)@.cmd_log + Seq::new(
            old(cluster)@.regs.cores_count as nat,
            |k: int| CmdEvent { cmd: spec_encode_command(ClusterCommand::Reset), core: k as u64 },
        ),
{
    let cores_count = cluster.cores_count();
    let ghost reset_events = |k: int| CmdEvent {
        cmd: spec_encode_command(ClusterCommand::Reset),
        core: k as u64,
    };
    let mut i: u64 = 0;
    while i < cores_count
        invariant
            cluster.wf(),
            i <= cores_count,
            cores_count == cluster@.regs.cores_count,
            cluster@.results == old(cluster)@.results,
            cluster@.reject_starts == old(cluster)@.reject_starts,
            reset_events == (|k: int| CmdEvent {
                cmd: spec_encode_command(ClusterCommand::Reset),
                core: k as u64,
            }),
            cluster@.cmd_log == old(cluster)@.cmd_log + Seq::new(i as nat, reset_events),
            forall|j: u128|
                j < i ==> !bit_set(cluster@.regs.cores_busy_flags, j) && !bit_set(
                    cluster@.regs.cores_valid_flags,
                    j,
                ),
        decreases cores_count - i,
    {
        let ghost pre_busy = cluster@.regs.cores_busy_flags;
        let ghost pre_valid = cluster@.regs.cores_valid_flags;
        let ghost pre_log = cluster@.cmd_log;
        cluster.load_core_address(i);
        cluster.load_command(ClusterCommand::Reset.encode());
        // The model's Reset succeeds on every core below the count.
        if !command_succeeded(cluster.command_status()) {
            return false;
        }
        proof {
            assert forall|j: u128| j < i + 1 implies !bit_set(cluster@.regs.cores_busy_flags, j)
                && !bit_set(cluster@.regs.cores_valid_flags, j) by {
                lemma_bit_clear(pre_busy, i as u128, j);
                lemma_bit_clear(pre_valid, i as u128, j);
            }
            assert(cluster@.cmd_log == pre_log.push(reset_events(i as int)));
            assert(cluster@.cmd_log =~= old(cluster)@.cmd_log + Seq::new((i + 1) as nat, reset_events));
        }
        i += 1;
    }
    proof {
        assert(cluster@.cmd_log =~= old(cluster)@.cmd_log + Seq::new(
            cores_count as nat,
            |k: int| CmdEvent { cmd: spec_encode_command(ClusterCommand::Reset), core: k as u64 },
        ));
    }
    true
}

} // verus!
