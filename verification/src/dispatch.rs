//! The fuzz dispatcher's admission gate and result store.
//!
//! A `Dispatcher` holds the targets of a run and decides when the request
//! for the next one may start, so that never more than the configured number
//! are in flight. The caller sends each admitted request and hands its
//! outcome back; the dispatcher classifies it and retains what matches.

use crate::classify::{
    classify, is_logged, is_retained, record_of, FailurePolicy, FuzzResult, FuzzResultView,
    Outcome,
};
use crate::text::{decimal, decimal_digits, push_chars, string_from_chars, string_views};
use vstd::prelude::*;

verus! {

/// Where one target stands in a run.
#[derive(Clone, Copy, Debug, PartialEq, Eq, Structural)]
pub enum Phase {
    /// Not admitted yet.
    Waiting,
    /// Admitted; its request holds a slot.
    InFlight,
    /// Settled, and its result retained.
    Kept,
    /// Settled, and nothing retained of it.
    Dropped,
}

/// How many of `phases` are `p`.
pub open spec fn count_phase(phases: Seq<Phase>, p: Phase) -> nat
    decreases phases.len(),
{
    if phases.len() == 0 {
        0
    } else if phases.last() == p {
        count_phase(phases.drop_last(), p) + 1
    } else {
        count_phase(phases.drop_last(), p)
    }
}

/// Changing one phase moves one unit between two counts.
pub proof fn lemma_count_update(phases: Seq<Phase>, i: int, q: Phase, p: Phase)
    requires
        0 <= i < phases.len(),
    ensures
        count_phase(phases.update(i, q), p) + (if phases[i] == p {
            1nat
        } else {
            0nat
        }) == count_phase(phases, p) + (if q == p {
            1nat
        } else {
            0nat
        }),
    decreases phases.len(),
{
    let updated = phases.update(i, q);
    if i == phases.len() - 1 {
        assert(updated.drop_last() =~= phases.drop_last());
    } else {
        lemma_count_update(phases.drop_last(), i, q, p);
        assert(updated.drop_last() =~= phases.drop_last().update(i, q));
    }
}

/// The records of a result list.
pub open spec fn result_views(results: Seq<FuzzResult>) -> Seq<FuzzResultView> {
    results.map_values(|r: FuzzResult| r@)
}

/// The state of a run as plain values.
pub struct DispatcherView {
    pub targets: Seq<Seq<char>>,
    pub phases: Seq<Phase>,
    pub limit: nat,
    pub delay_ms: u64,
    pub matcher: Seq<u16>,
    pub policy: FailurePolicy,
    pub results: Seq<FuzzResultView>,
}

impl DispatcherView {
    /// The requests that hold a slot.
    pub open spec fn in_flight(self) -> nat {
        count_phase(self.phases, Phase::InFlight)
    }

    /// The targets whose outcome is known: the progress of the run.
    pub open spec fn settled(self) -> nat {
        count_phase(self.phases, Phase::Kept) + count_phase(self.phases, Phase::Dropped)
    }

    /// The targets admitted so far, in flight or settled.
    pub open spec fn admitted(self) -> nat {
        self.in_flight() + self.settled()
    }

    /// A slot is free and a target is waiting for it.
    pub open spec fn can_start(self) -> bool {
        self.admitted() < self.targets.len() && self.in_flight() < self.limit
    }

    /// Every target has settled.
    pub open spec fn is_finished(self) -> bool {
        self.settled() == self.targets.len()
    }

    /// Target `index` holds a slot.
    pub open spec fn is_in_flight(self, index: int) -> bool {
        0 <= index < self.phases.len() && self.phases[index] == Phase::InFlight
    }
}

/// The next step of a run.
#[derive(Debug, PartialEq, Eq)]
pub enum Admission {
    /// A slot was taken for target `index`: wait `delay_ms`, then send.
    Start { index: usize, target: String, delay_ms: u64 },
    /// Nothing can start before a request in flight settles.
    Wait,
    /// Every target has settled.
    Finished,
}

/// Why an outcome was not accepted.
#[derive(Clone, Copy, Debug, PartialEq, Eq, Structural)]
pub enum SettleError {
    /// No request for this target is in flight.
    NotInFlight,
}

/// What to log of a settled request.
#[derive(Debug, PartialEq, Eq)]
pub enum Notice {
    /// A retained response.
    Hit { status: u16, url: String, reflected: bool, error: bool },
    /// A failure below HTTP.
    Failed { url: String, reason: String },
}

/// The admission gate and result store of one run.
pub struct Dispatcher {
    targets: Vec<String>,
    phases: Vec<Phase>,
    limit: usize,
    delay_ms: u64,
    matcher: Vec<u16>,
    policy: FailurePolicy,
    admitted: usize,
    in_flight: usize,
    settled: usize,
    results: Vec<FuzzResult>,
}

impl View for Dispatcher {
    type V = DispatcherView;

    closed spec fn view(&self) -> DispatcherView {
        DispatcherView {
            targets: string_views(self.targets@),
            phases: self.phases@,
            limit: self.limit as nat,
            delay_ms: self.delay_ms,
            matcher: self.matcher@,
            policy: self.policy,
            results: result_views(self.results@),
        }
    }
}

impl Dispatcher {
    /// The invariant of a run: targets are admitted in order, the counters
    /// agree with the phases, no more requests are in flight than the limit
    /// admits, and one result is held for each target whose outcome was
    /// retained.
    pub closed spec fn wf(&self) -> bool {
        &&& self.phases@.len() == self.targets@.len()
        &&& self.limit >= 1
        &&& self.admitted <= self.targets@.len()
        &&& forall|i: int|
            0 <= i < self.phases@.len() ==> (#[trigger] self.phases@[i] == Phase::Waiting <==> i
                >= self.admitted)
        &&& self.in_flight == count_phase(self.phases@, Phase::InFlight)
        &&& self.in_flight <= self.limit
        &&& self.settled == count_phase(self.phases@, Phase::Kept) + count_phase(
            self.phases@,
            Phase::Dropped,
        )
        &&& self.admitted == self.in_flight + self.settled
        &&& self.results@.len() == count_phase(self.phases@, Phase::Kept)
    }

    /// A run over `targets` with at most `limit` requests in flight, each
    /// delayed by `delay_ms` after it has taken its slot.
    pub fn new(
        targets: Vec<String>,
        limit: usize,
        delay_ms: u64,
        matcher: Vec<u16>,
        policy: FailurePolicy,
    ) -> (d: Dispatcher)
        requires
            limit >= 1,
        ensures
            d.wf(),
            d@.targets == string_views(targets@),
            d@.phases == Seq::new(targets@.len(), |i: int| Phase::Waiting),
            d@.limit == limit,
            d@.delay_ms == delay_ms,
            d@.matcher == matcher@,
            d@.policy == policy,
            d@.results == Seq::<FuzzResultView>::empty(),
            d@.in_flight() == 0,
            d@.settled() == 0,
    {
        let mut phases: Vec<Phase> = Vec::new();
        let mut k: usize = 0;
        while k < targets.len()
            invariant
                k <= targets.len(),
                phases@ == Seq::new(k as nat, |i: int| Phase::Waiting),
                count_phase(phases@, Phase::InFlight) == 0,
                count_phase(phases@, Phase::Kept) == 0,
                count_phase(phases@, Phase::Dropped) == 0,
            decreases targets.len() - k,
        {
            let ghost before = phases@;
            phases.push(Phase::Waiting);
            proof {
                assert(phases@.drop_last() =~= before);
                assert(phases@ =~= Seq::new((k + 1) as nat, |i: int| Phase::Waiting));
            }
            k += 1;
        }
        let d = Dispatcher {
            targets,
            phases,
            limit,
            delay_ms,
            matcher,
            policy,
            admitted: 0,
            in_flight: 0,
            settled: 0,
            results: Vec::new(),
        };
        proof {
            assert(d@.results =~= Seq::<FuzzResultView>::empty());
        }
        d
    }

    /// How many targets the run has.
    pub fn total(&self) -> (n: usize)
        ensures
            n == self@.targets.len(),
    {
        self.targets.len()
    }

    /// How many requests hold a slot.
    pub fn in_flight(&self) -> (n: usize)
        requires
            self.wf(),
        ensures
            n == self@.in_flight(),
    {
        self.in_flight
    }

    /// How many targets have settled, retained or not.
    pub fn progress(&self) -> (n: usize)
        requires
            self.wf(),
        ensures
            n == self@.settled(),
    {
        self.settled
    }

    /// Whether every target has settled.
    pub fn is_finished(&self) -> (r: bool)
        requires
            self.wf(),
        ensures
            r == self@.is_finished(),
    {
        self.settled == self.targets.len()
    }

    /// Takes a slot for the next waiting target, if one is free.
    ///
    /// Targets start in the order of the list. The delay of the run is handed
    /// out with the slot, so that the wait occupies the slot.
    pub fn acquire(&mut self) -> (a: Admission)
        requires
            old(self).wf(),
        ensures
            final(self).wf(),
            (a is Start) == old(self)@.can_start(),
            (a is Finished) == old(self)@.is_finished(),
            !(a is Start) ==> final(self)@ == old(self)@,
            a matches Admission::Start { index, target, delay_ms } ==> {
                &&& index == old(self)@.admitted()
                &&& old(self)@.phases[index as int] == Phase::Waiting
                &&& target@ == old(self)@.targets[index as int]
                &&& delay_ms == old(self)@.delay_ms
                &&& final(self)@ == DispatcherView {
                    phases: old(self)@.phases.update(index as int, Phase::InFlight),
                    ..old(self)@
                }
                &&& final(self)@.in_flight() == old(self)@.in_flight() + 1
                &&& final(self)@.settled() == old(self)@.settled()
            },
    {
        if self.admitted < self.targets.len() && self.in_flight < self.limit {
            let index = self.admitted;
            let target = self.targets[index].clone();
            proof {
                lemma_count_update(self.phases@, index as int, Phase::InFlight, Phase::InFlight);
                lemma_count_update(self.phases@, index as int, Phase::InFlight, Phase::Kept);
                lemma_count_update(self.phases@, index as int, Phase::InFlight, Phase::Dropped);
            }
            self.phases.set(index, Phase::InFlight);
            self.admitted = self.admitted + 1;
            self.in_flight = self.in_flight + 1;
            Admission::Start { index, target, delay_ms: self.delay_ms }
        } else if self.settled == self.targets.len() {
            Admission::Finished
        } else {
            Admission::Wait
        }
    }

    /// Accepts the outcome of the request for target `index`, frees its slot
    /// and advances the progress by one.
    ///
    /// A response is retained exactly when its status is in the matcher set,
    /// whatever its body holds: then one record is appended, else none. A
    /// failure below HTTP is retained only where the policy collects them.
    /// An outcome for a target that holds no slot changes nothing.
    pub fn settle(&mut self, index: usize, outcome: Outcome) -> (r: Result<
        Option<Notice>,
        SettleError,
    >)
        requires
            old(self).wf(),
        ensures
            final(self).wf(),
            (r is Ok) == old(self)@.is_in_flight(index as int),
            r is Err ==> final(self)@ == old(self)@,
            r matches Ok(notice) ==> {
                let kept = is_retained(outcome, old(self)@.matcher, old(self)@.policy);
                let record = record_of(old(self)@.targets[index as int], outcome);
                &&& final(self)@ == DispatcherView {
                    phases: old(self)@.phases.update(
                        index as int,
                        if kept {
                            Phase::Kept
                        } else {
                            Phase::Dropped
                        },
                    ),
                    results: if kept {
                        old(self)@.results.push(record)
                    } else {
                        old(self)@.results
                    },
                    ..old(self)@
                }
                &&& final(self)@.in_flight() == old(self)@.in_flight() - 1
                &&& final(self)@.settled() == old(self)@.settled() + 1
                &&& (notice is Some) == is_logged(outcome, old(self)@.matcher, old(self)@.policy)
                &&& notice matches Some(n) ==> notice_matches(n, record, outcome)
            },
    {
        if index >= self.phases.len() || self.phases[index] != Phase::InFlight {
            return Err(SettleError::NotInFlight);
        }
        let verdict = classify(self.targets[index].as_str(), &outcome, &self.matcher, self.policy);
        let ghost record = record_of(self@.targets[index as int], outcome);
        let notice = if verdict.logged {
            match &outcome {
                Outcome::Response { status, .. } => {
                    match &verdict.record {
                        Some(r) => Some(
                            Notice::Hit {
                                status: *status,
                                url: r.url.clone(),
                                reflected: r.reflected,
                                error: r.error.is_some(),
                            },
                        ),
                        None => None,
                    }
                },
                Outcome::Failure { reason } => Some(
                    Notice::Failed { url: self.targets[index].clone(), reason: reason.clone() },
                ),
            }
        } else {
            None
        };
        let phase = if verdict.record.is_some() {
            Phase::Kept
        } else {
            Phase::Dropped
        };
        proof {
            lemma_count_update(self.phases@, index as int, phase, Phase::InFlight);
            lemma_count_update(self.phases@, index as int, phase, Phase::Kept);
            lemma_count_update(self.phases@, index as int, phase, Phase::Dropped);
        }
        let ghost before = self.results@;
        self.phases.set(index, phase);
        match verdict.record {
            Some(r) => {
                self.results.push(r);
                proof {
                    assert(result_views(self.results@) =~= result_views(before).push(record));
                }
            },
            None => {},
        }
        self.in_flight = self.in_flight - 1;
        self.settled = self.settled + 1;
        Ok(notice)
    }

    /// The results of the run, once every target has settled; before that
    /// nothing of them is handed out.
    pub fn finish(self) -> (r: Result<Vec<FuzzResult>, Dispatcher>)
        requires
            self.wf(),
        ensures
            (r is Ok) == self@.is_finished(),
            r matches Ok(results) ==> result_views(results@) == self@.results,
            r matches Err(d) ==> d == self,
    {
        if self.settled == self.targets.len() {
            Ok(self.results)
        } else {
            Err(self)
        }
    }
}

/// The line that reports a notice: for a retained response its status, its
/// URL and a mark for each of reflection and error signature; for a failure
/// its URL and its reason.
pub open spec fn notice_line(n: Notice) -> Seq<char> {
    match n {
        Notice::Hit { status, url, reflected, error } => decimal_digits(status as nat) + " - "@
            + url@ + (if reflected {
            " [REFLECTED]"@
        } else {
            Seq::<char>::empty()
        }) + (if error {
            " [ERROR]"@
        } else {
            Seq::<char>::empty()
        }),
        Notice::Failed { url, reason } => "ERR  - "@ + url@ + " [error: "@ + reason@ + "]"@,
    }
}

impl Notice {
    /// The line to log for this notice.
    pub fn line(&self) -> (text: String)
        ensures
            text@ == notice_line(*self),
    {
        let mut cs: Vec<char> = Vec::new();
        match self {
            Notice::Hit { status, url, reflected, error } => {
                cs = decimal(*status);
                push_chars(&mut cs, " - ");
                push_chars(&mut cs, url.as_str());
                if *reflected {
                    push_chars(&mut cs, " [REFLECTED]");
                }
                if *error {
                    push_chars(&mut cs, " [ERROR]");
                }
                proof {
                    assert(cs@ =~= notice_line(*self));
                }
            },
            Notice::Failed { url, reason } => {
                push_chars(&mut cs, "ERR  - ");
                push_chars(&mut cs, url.as_str());
                push_chars(&mut cs, " [error: ");
                push_chars(&mut cs, reason.as_str());
                push_chars(&mut cs, "]");
                proof {
                    assert(cs@ =~= notice_line(*self));
                }
            },
        }
        string_from_chars(&cs)
    }
}

/// The notice that reports `record`, the record of `outcome`.
pub open spec fn notice_matches(n: Notice, record: FuzzResultView, outcome: Outcome) -> bool {
    match n {
        Notice::Hit { status, url, reflected, error } => {
            &&& outcome is Response
            &&& status == record.status
            &&& url@ == record.url
            &&& reflected == record.reflected
            &&& error == record.error is Some
        },
        Notice::Failed { url, reason } => {
            &&& outcome matches Outcome::Failure { reason: why }
            &&& url@ == record.url
            &&& reason@ == why@
        },
    }
}

/// In every state of a run the requests in flight are no more than the
/// limit, the targets admitted are those in flight and those settled, and
/// one result is held for each target that was retained.
pub proof fn law_in_flight_within_limit(d: Dispatcher)
    requires
        d.wf(),
    ensures
        d@.limit >= 1,
        d@.in_flight() <= d@.limit,
        d@.admitted() <= d@.targets.len(),
        d@.phases.len() == d@.targets.len(),
        d@.results.len() == count_phase(d@.phases, Phase::Kept),
        d@.results.len() <= d@.settled(),
        forall|i: int|
            0 <= i < d@.phases.len() ==> (#[trigger] d@.phases[i] == Phase::Waiting <==> i
                >= d@.admitted()),
{
}

/// A run that is not finished can always go on: either a target can be
/// admitted or a request is in flight whose outcome is awaited.
pub proof fn law_no_deadlock(d: Dispatcher)
    requires
        d.wf(),
        !d@.is_finished(),
    ensures
        d@.can_start() || d@.in_flight() > 0,
{
}

} // verus!
