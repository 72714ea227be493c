//! Policy evaluation, and the token that proves it happened.
//!
//! The policies are evaluated against live workcell state, so locking the
//! sterile zone or stepping into the cell changes what the next intent is
//! allowed to do.

use vstd::prelude::*;

use crate::{Intent, IntentId, N_STATIONS};

verus! {

/// Evaluated in this order; the first match refuses. A refusal record names
/// exactly one policy, and which one must not depend on anything but this
/// order.
pub const POLICY_IDS: [PolicyId; 5] = [
    PolicyId::SterileZoneLocked,
    PolicyId::FixtureOccupied,
    PolicyId::DwellTimeExceeded,
    PolicyId::HumanLockout,
    PolicyId::MissingDescriptor,
];

#[derive(Debug, Clone, Copy, PartialEq, Eq, Structural)]
pub enum PolicyId {
    SterileZoneLocked,
    FixtureOccupied,
    DwellTimeExceeded,
    HumanLockout,
    MissingDescriptor,
}

impl PolicyId {
    pub fn as_str(self) -> (r: &'static str)
        ensures
            r@ == match self {
                PolicyId::SterileZoneLocked => "STERILE_ZONE_LOCKED"@,
                PolicyId::FixtureOccupied => "FIXTURE_OCCUPIED"@,
                PolicyId::DwellTimeExceeded => "DWELL_TIME_EXCEEDED"@,
                PolicyId::HumanLockout => "HUMAN_LOCKOUT"@,
                PolicyId::MissingDescriptor => "MISSING_DESCRIPTOR"@,
            },
    {
        match self {
            PolicyId::SterileZoneLocked => "STERILE_ZONE_LOCKED",
            PolicyId::FixtureOccupied => "FIXTURE_OCCUPIED",
            PolicyId::DwellTimeExceeded => "DWELL_TIME_EXCEEDED",
            PolicyId::HumanLockout => "HUMAN_LOCKOUT",
            PolicyId::MissingDescriptor => "MISSING_DESCRIPTOR",
        }
    }

    /// Why this intent was refused, in the words an operator needs.
    pub fn rationale(self) -> (r: &'static str)
        ensures
            r@ == match self {
                PolicyId::SterileZoneLocked => "destination is inside a locked sterile zone"@,
                PolicyId::FixtureOccupied => "destination fixture already holds a plate"@,
                PolicyId::DwellTimeExceeded => "dwell time exceeds the limit for this sample"@,
                PolicyId::HumanLockout => "an operator is present in the workspace"@,
                PolicyId::MissingDescriptor => "intent carries no descriptor to govern it by"@,
            },
    {
        match self {
            PolicyId::SterileZoneLocked => "destination is inside a locked sterile zone",
            PolicyId::FixtureOccupied => "destination fixture already holds a plate",
            PolicyId::DwellTimeExceeded => "dwell time exceeds the limit for this sample",
            PolicyId::HumanLockout => "an operator is present in the workspace",
            PolicyId::MissingDescriptor => "intent carries no descriptor to govern it by",
        }
    }
}

/// What the environment says at the moment of evaluation.
#[derive(Debug, Clone, Copy)]
pub struct WorldFacts {
    pub sterile_zone_locked: bool,
    pub in_sterile_zone: [bool; 4],
    pub occupied: [bool; 4],
    pub human_in_cell: bool,
    pub max_dwell_ms: u32,
}

impl Default for WorldFacts {
    /// Nothing locked, nobody in the cell, station 2 the sterile bench, an
    /// eight-second dwell limit.
    fn default() -> (r: Self)
        ensures
            !r.sterile_zone_locked,
            r.in_sterile_zone@ == seq![false, false, true, false],
            r.occupied@ == seq![false, false, false, false],
            !r.human_in_cell,
            r.max_dwell_ms == 8000,
    {
        let r = WorldFacts {
            sterile_zone_locked: false,
            in_sterile_zone: [false, false, true, false],
            occupied: [false, false, false, false],
            human_in_cell: false,
            max_dwell_ms: 8000,
        };
        assert(r.in_sterile_zone@ =~= seq![false, false, true, false]);
        assert(r.occupied@ =~= seq![false, false, false, false]);
        r
    }
}

#[derive(Debug, Clone, Copy, PartialEq, Eq, Structural)]
pub struct Refusal {
    pub policy: PolicyId,
}

/// Proof that the policy authority approved a specific intent.
///
/// Its fields are private to this module and [`evaluate`] is the only code
/// here that builds one, so no other code can hold an `Approved` for an
/// intent that policy did not pass.
#[derive(Debug, PartialEq, Eq)]
pub struct Approved {
    intent: IntentId,
    trace: String,
}

impl Approved {
    /// The intent this token approves.
    pub closed spec fn approved_intent(&self) -> IntentId {
        self.intent
    }

    /// The trace of the intent this token approves.
    pub closed spec fn approved_trace(&self) -> Seq<char> {
        self.trace@
    }

    pub fn intent(&self) -> (r: IntentId)
        ensures
            r == self.approved_intent(),
    {
        self.intent
    }

    pub fn trace(&self) -> (r: &str)
        ensures
            r@ == self.approved_trace(),
    {
        self.trace.as_str()
    }
}

/// Why the authority could not answer. Deliberately not a [`PolicyId`]: no
/// policy refused the intent.
#[derive(Debug, Clone, Copy, PartialEq, Eq, Structural)]
pub enum IndeterminateReason {
    /// The authority was not reachable at all.
    EvaluatorUnavailable,
    /// The authority was reachable and did not answer inside the budget.
    EvaluatorTimeout,
}

impl IndeterminateReason {
    pub fn as_str(self) -> (r: &'static str)
        ensures
            r@ == match self {
                IndeterminateReason::EvaluatorUnavailable => "EVALUATOR_UNAVAILABLE"@,
                IndeterminateReason::EvaluatorTimeout => "EVALUATOR_TIMEOUT"@,
            },
    {
        match self {
            IndeterminateReason::EvaluatorUnavailable => "EVALUATOR_UNAVAILABLE",
            IndeterminateReason::EvaluatorTimeout => "EVALUATOR_TIMEOUT",
        }
    }

    pub fn rationale(self) -> (r: &'static str)
        ensures
            r@ == match self {
                IndeterminateReason::EvaluatorUnavailable => "the policy authority could not be reached"@,
                IndeterminateReason::EvaluatorTimeout => "the policy authority did not answer within the budget"@,
            },
    {
        match self {
            IndeterminateReason::EvaluatorUnavailable => "the policy authority could not be reached",
            IndeterminateReason::EvaluatorTimeout => "the policy authority did not answer within the budget",
        }
    }
}

/// An outcome that is neither permission nor refusal.
#[derive(Debug, Clone, Copy, PartialEq, Eq, Structural)]
pub struct Indeterminate {
    pub reason: IndeterminateReason,
}

/// The three things adjudication can conclude.
#[derive(Debug, PartialEq, Eq)]
pub enum Verdict {
    Approved(Approved),
    Refused(Refusal),
    Indeterminate(Indeterminate),
}

impl Verdict {
    /// Only an approval yields the token that starts motion.
    pub fn approved(self) -> (r: Option<Approved>)
        ensures
            match self {
                Verdict::Approved(a) => r == Some(a),
                _ => r is None,
            },
    {
        match self {
            Verdict::Approved(a) => Some(a),
            _ => None,
        }
    }
}

/// Whether the policy authority can answer, and how long it takes.
#[derive(Debug, Clone, Copy, PartialEq, Eq, Structural)]
pub struct Evaluator {
    pub reachable: bool,
    pub latency_ms: u32,
}

impl Default for Evaluator {
    fn default() -> (r: Self)
        ensures
            r.reachable,
            r.latency_ms == 0,
    {
        Evaluator { reachable: true, latency_ms: 0 }
    }
}

/// The policies in evaluation order.
pub open spec fn policy_order() -> Seq<PolicyId> {
    seq![
        PolicyId::SterileZoneLocked,
        PolicyId::FixtureOccupied,
        PolicyId::DwellTimeExceeded,
        PolicyId::HumanLockout,
        PolicyId::MissingDescriptor,
    ]
}

/// Whether `intent` violates policy `p` under `facts`.
pub open spec fn violates(p: PolicyId, intent: Intent, facts: WorldFacts) -> bool {
    match p {
        PolicyId::SterileZoneLocked => facts.sterile_zone_locked
            && facts.in_sterile_zone@[intent.dest as int],
        PolicyId::FixtureOccupied => facts.occupied@[intent.dest as int],
        PolicyId::DwellTimeExceeded => intent.dwell_ms > facts.max_dwell_ms,
        PolicyId::HumanLockout => facts.human_in_cell,
        PolicyId::MissingDescriptor => !intent.descriptor,
    }
}

/// The first policy of `ps` that `intent` violates.
pub open spec fn first_violation_in(ps: Seq<PolicyId>, intent: Intent, facts: WorldFacts) -> Option<PolicyId>
    decreases ps.len(),
{
    if ps.len() == 0 {
        None
    } else if violates(ps[0], intent, facts) {
        Some(ps[0])
    } else {
        first_violation_in(ps.drop_first(), intent, facts)
    }
}

/// The first policy, in [`POLICY_IDS`] order, that `intent` violates.
pub open spec fn first_violation(intent: Intent, facts: WorldFacts) -> Option<PolicyId> {
    first_violation_in(policy_order(), intent, facts)
}

/// The verdict adjudication reaches, with an approval standing for any token
/// minted for the intent.
pub enum VerdictKind {
    Approved,
    Refused(PolicyId),
    Indeterminate(IndeterminateReason),
}

/// What adjudication concludes: unreachable authority first, then a slow one,
/// then the policy decision.
pub open spec fn adjudication(intent: Intent, facts: WorldFacts, evaluator: Evaluator, budget_ms: u32) -> VerdictKind {
    if !evaluator.reachable {
        VerdictKind::Indeterminate(IndeterminateReason::EvaluatorUnavailable)
    } else if evaluator.latency_ms > budget_ms {
        VerdictKind::Indeterminate(IndeterminateReason::EvaluatorTimeout)
    } else {
        match first_violation(intent, facts) {
            Some(p) => VerdictKind::Refused(p),
            None => VerdictKind::Approved,
        }
    }
}

/// Whether `v` is the verdict `k` for `intent`: an approval must be a token
/// for that intent and its trace.
pub open spec fn verdict_is(v: Verdict, k: VerdictKind, intent: Intent) -> bool {
    match k {
        VerdictKind::Approved => v matches Verdict::Approved(a)
            && a.approved_intent() == intent.id && a.approved_trace() == intent.trace@,
        VerdictKind::Refused(p) => v == Verdict::Refused(Refusal { policy: p }),
        VerdictKind::Indeterminate(r) => v == Verdict::Indeterminate(Indeterminate { reason: r }),
    }
}

/// Adjudication: consult the authority, and if it cannot answer, say so.
pub fn adjudicate(intent: &Intent, facts: &WorldFacts, evaluator: &Evaluator, budget_ms: u32) -> (r: Verdict)
    requires
        evaluator.reachable && evaluator.latency_ms <= budget_ms ==> intent.dest < N_STATIONS,
    ensures
        verdict_is(r, adjudication(*intent, *facts, *evaluator, budget_ms), *intent),
{
    if !evaluator.reachable {
        return Verdict::Indeterminate(
            Indeterminate { reason: IndeterminateReason::EvaluatorUnavailable },
        );
    }
    if evaluator.latency_ms > budget_ms {
        return Verdict::Indeterminate(Indeterminate { reason: IndeterminateReason::EvaluatorTimeout });
    }
    match evaluate(intent, facts) {
        Ok(a) => Verdict::Approved(a),
        Err(r) => Verdict::Refused(r),
    }
}

fn violated(policy: PolicyId, intent: &Intent, facts: &WorldFacts) -> (r: bool)
    requires
        intent.dest < N_STATIONS,
    ensures
        r == violates(policy, *intent, *facts),
{
    match policy {
        PolicyId::SterileZoneLocked => facts.sterile_zone_locked && facts.in_sterile_zone[intent.dest],
        PolicyId::FixtureOccupied => facts.occupied[intent.dest],
        PolicyId::DwellTimeExceeded => intent.dwell_ms > facts.max_dwell_ms,
        PolicyId::HumanLockout => facts.human_in_cell,
        PolicyId::MissingDescriptor => !intent.descriptor,
    }
}

/// The reasoning phase, and the only door to [`Approved`]: approves exactly
/// when no policy is violated, and otherwise names the first violated policy
/// in [`POLICY_IDS`] order.
pub fn evaluate(intent: &Intent, facts: &WorldFacts) -> (r: Result<Approved, Refusal>)
    requires
        intent.dest < N_STATIONS,
    ensures
        match r {
            Ok(a) => first_violation(*intent, *facts) is None
                && a.approved_intent() == intent.id
                && a.approved_trace() == intent.trace@,
            Err(refusal) => first_violation(*intent, *facts) == Some(refusal.policy),
        },
{
    assert(POLICY_IDS@ =~= policy_order());
    assert(policy_order().skip(0) =~= policy_order());
    let mut i: usize = 0;
    while i < 5
        invariant
            0 <= i <= 5,
            intent.dest < N_STATIONS,
            POLICY_IDS@ == policy_order(),
            first_violation(*intent, *facts) == first_violation_in(
                policy_order().skip(i as int),
                *intent,
                *facts,
            ),
        decreases 5 - i,
    {
        let policy = POLICY_IDS[i];
        assert(policy_order().skip(i as int).drop_first() =~= policy_order().skip(i + 1));
        if violated(policy, intent, facts) {
            return Err(Refusal { policy });
        }
        i = i + 1;
    }
    Ok(Approved { intent: intent.id, trace: intent.trace.clone() })
}

/// An authority that answers in time adjudicates exactly as [`evaluate`]
/// decides: an approval when no policy is violated, otherwise a refusal
/// naming the first violated policy. A latency equal to the budget is in time.
pub proof fn answered_adjudication_is_evaluation(
    intent: Intent,
    facts: WorldFacts,
    evaluator: Evaluator,
    budget_ms: u32,
)
    requires
        evaluator.reachable,
        evaluator.latency_ms <= budget_ms,
    ensures
        adjudication(intent, facts, evaluator, budget_ms) == match first_violation(intent, facts) {
            Some(p) => VerdictKind::Refused(p),
            None => VerdictKind::Approved,
        },
{
}

/// Adjudication approves only what evaluation would approve, and an
/// authority that cannot be reached leaves every intent undecided.
pub proof fn approval_needs_evaluation(intent: Intent, facts: WorldFacts, evaluator: Evaluator, budget_ms: u32)
    ensures
        adjudication(intent, facts, evaluator, budget_ms) is Approved ==> first_violation(intent, facts) is None,
        !evaluator.reachable ==> adjudication(intent, facts, evaluator, budget_ms)
            == VerdictKind::Indeterminate(IndeterminateReason::EvaluatorUnavailable),
{
}

/// Evaluation reads the facts as the policies say, in [`POLICY_IDS`] order:
/// the sterile-zone policy refuses exactly when the zone is locked *and* the
/// destination lies in it, then an occupied destination fixture, then a dwell
/// over the limit, then a person in the cell, then a missing descriptor; an
/// intent none of these catch is approved.
pub proof fn evaluation_reads_the_facts(intent: Intent, facts: WorldFacts)
    ensures
        first_violation(intent, facts) == if facts.sterile_zone_locked && facts.in_sterile_zone@[intent.dest as int] {
            Some(PolicyId::SterileZoneLocked)
        } else if facts.occupied@[intent.dest as int] {
            Some(PolicyId::FixtureOccupied)
        } else if intent.dwell_ms > facts.max_dwell_ms {
            Some(PolicyId::DwellTimeExceeded)
        } else if facts.human_in_cell {
            Some(PolicyId::HumanLockout)
        } else if !intent.descriptor {
            Some(PolicyId::MissingDescriptor)
        } else {
            None
        },
{
    let o = policy_order();
    assert(o.drop_first() =~= seq![
        PolicyId::FixtureOccupied,
        PolicyId::DwellTimeExceeded,
        PolicyId::HumanLockout,
        PolicyId::MissingDescriptor,
    ]);
    assert(o.drop_first().drop_first() =~= seq![
        PolicyId::DwellTimeExceeded,
        PolicyId::HumanLockout,
        PolicyId::MissingDescriptor,
    ]);
    assert(o.drop_first().drop_first().drop_first() =~= seq![
        PolicyId::HumanLockout,
        PolicyId::MissingDescriptor,
    ]);
    assert(o.drop_first().drop_first().drop_first().drop_first() =~= seq![PolicyId::MissingDescriptor]);
    assert(o.drop_first().drop_first().drop_first().drop_first().drop_first() =~= Seq::<PolicyId>::empty());
    reveal_with_fuel(first_violation_in, 6);
}

/// Locking the sterile zone changes nothing for an intent whose destination
/// lies outside it.
pub proof fn locking_leaves_unsterile_destinations_alone(intent: Intent, facts: WorldFacts)
    requires
        !facts.in_sterile_zone@[intent.dest as int],
    ensures
        first_violation(intent, WorldFacts { sterile_zone_locked: true, ..facts }) == first_violation(
            intent,
            WorldFacts { sterile_zone_locked: false, ..facts },
        ),
{
    evaluation_reads_the_facts(intent, WorldFacts { sterile_zone_locked: true, ..facts });
    evaluation_reads_the_facts(intent, WorldFacts { sterile_zone_locked: false, ..facts });
}

/// A reachable authority slower than the budget leaves every intent
/// undecided with a timeout, whatever the intent and the facts: no policy's
/// name is put on an outcome no policy produced.
pub proof fn slow_authority_times_out(intent: Intent, facts: WorldFacts, evaluator: Evaluator, budget_ms: u32)
    requires
        evaluator.reachable,
        evaluator.latency_ms > budget_ms,
    ensures
        adjudication(intent, facts, evaluator, budget_ms) == VerdictKind::Indeterminate(
            IndeterminateReason::EvaluatorTimeout,
        ),
{
}

} // verus!
