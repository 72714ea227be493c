//! Invariants over a recorded log.
//!
//! An unperturbed run emits a compliant log by construction, so a checker that
//! only ever agrees with it proves nothing; see [`crate::fault`] for the
//! corruptions each invariant must catch.

use vstd::prelude::*;

use crate::log::{
    actuation_kind, mentions, planning_kind, terminal_kind, Event, EventKind, EventLog,
};
use crate::IntentId;

verus! {

#[derive(Debug, Clone, Copy, PartialEq, Eq, Structural)]
pub enum Invariant {
    /// Every event carries a trace id.
    TraceId,
    /// Every intent reaches a terminal event.
    TerminalReconstructable,
    /// Every refusal names the policy it violated.
    PolicyIdOnRefusal,
    /// No intent both refuses and plans.
    NoPlanAfterRefusal,
    /// No intent both refuses and actuates. The headline property.
    NoActuationAfterRefusal,
    /// Every indeterminate outcome names why nobody decided.
    ReasonOnIndeterminate,
    /// No intent both goes undecided and actuates.
    NoActuationAfterIndeterminate,
}

impl Invariant {
    pub fn as_str(self) -> (r: &'static str)
        ensures
            r@ == match self {
                Invariant::TraceId => "trace_id present on every event"@,
                Invariant::TerminalReconstructable => "every intent reaches a terminal event"@,
                Invariant::PolicyIdOnRefusal => "every refusal names its policy"@,
                Invariant::NoPlanAfterRefusal => "no planning after a refusal"@,
                Invariant::NoActuationAfterRefusal => "no actuation after a refusal"@,
                Invariant::ReasonOnIndeterminate => "every indeterminate outcome names its reason"@,
                Invariant::NoActuationAfterIndeterminate => "no actuation after an indeterminate outcome"@,
            },
    {
        match self {
            Invariant::TraceId => "trace_id present on every event",
            Invariant::TerminalReconstructable => "every intent reaches a terminal event",
            Invariant::PolicyIdOnRefusal => "every refusal names its policy",
            Invariant::NoPlanAfterRefusal => "no planning after a refusal",
            Invariant::NoActuationAfterRefusal => "no actuation after a refusal",
            Invariant::ReasonOnIndeterminate => "every indeterminate outcome names its reason",
            Invariant::NoActuationAfterIndeterminate => "no actuation after an indeterminate outcome",
        }
    }
}

pub const ALL: [Invariant; 7] = [
    Invariant::TraceId,
    Invariant::TerminalReconstructable,
    Invariant::PolicyIdOnRefusal,
    Invariant::NoPlanAfterRefusal,
    Invariant::NoActuationAfterRefusal,
    Invariant::ReasonOnIndeterminate,
    Invariant::NoActuationAfterIndeterminate,
];

/// The invariants in declaration order.
pub open spec fn invariant_order() -> Seq<Invariant> {
    seq![
        Invariant::TraceId,
        Invariant::TerminalReconstructable,
        Invariant::PolicyIdOnRefusal,
        Invariant::NoPlanAfterRefusal,
        Invariant::NoActuationAfterRefusal,
        Invariant::ReasonOnIndeterminate,
        Invariant::NoActuationAfterIndeterminate,
    ]
}

/// Classes of events that the invariants ask about, per intent.
pub enum KindClass {
    Refusal,
    Planning,
    Actuation,
    Undecided,
    Terminal,
}

pub open spec fn in_class(k: EventKind, c: KindClass) -> bool {
    match c {
        KindClass::Refusal => k == EventKind::PolicyRefuse,
        KindClass::Planning => planning_kind(k),
        KindClass::Actuation => actuation_kind(k),
        KindClass::Undecided => k == EventKind::PolicyIndeterminate,
        KindClass::Terminal => terminal_kind(k),
    }
}

/// Whether intent `id` has an event of class `c` in `s`.
pub open spec fn logged(s: Seq<Event>, id: IntentId, c: KindClass) -> bool {
    exists|i: int| 0 <= i < s.len() && #[trigger] s[i].intent == id && in_class(s[i].kind, c)
}

/// What it means for invariant `inv` to hold over the events `s`, with the
/// intent `in_flight` (if any) not yet required to have finished.
pub open spec fn holds(s: Seq<Event>, inv: Invariant, in_flight: Option<IntentId>) -> bool {
    match inv {
        Invariant::TraceId => forall|i: int| 0 <= i < s.len() ==> #[trigger] s[i].trace@.len() > 0,
        Invariant::TerminalReconstructable => forall|id: IntentId|
            #[trigger] mentions(s, id) && in_flight != Some(id) ==> logged(s, id, KindClass::Terminal),
        Invariant::PolicyIdOnRefusal => forall|i: int|
            0 <= i < s.len() && #[trigger] s[i].kind == EventKind::PolicyRefuse ==> s[i].policy is Some,
        Invariant::NoPlanAfterRefusal => forall|id: IntentId|
            !(#[trigger] logged(s, id, KindClass::Refusal) && logged(s, id, KindClass::Planning)),
        Invariant::NoActuationAfterRefusal => forall|id: IntentId|
            !(#[trigger] logged(s, id, KindClass::Refusal) && logged(s, id, KindClass::Actuation)),
        Invariant::ReasonOnIndeterminate => forall|i: int|
            0 <= i < s.len() && #[trigger] s[i].kind == EventKind::PolicyIndeterminate
                ==> s[i].reason is Some,
        Invariant::NoActuationAfterIndeterminate => forall|id: IntentId|
            !(#[trigger] logged(s, id, KindClass::Undecided) && logged(s, id, KindClass::Actuation)),
    }
}

fn class_of(k: EventKind, c: &KindClass) -> (r: bool)
    ensures
        r == in_class(k, *c),
{
    match c {
        KindClass::Refusal => k == EventKind::PolicyRefuse,
        KindClass::Planning => matches!(k, EventKind::StatePlanning | EventKind::PlanComputed),
        KindClass::Actuation => k.is_actuation(),
        KindClass::Undecided => k == EventKind::PolicyIndeterminate,
        KindClass::Terminal => k.is_terminal(),
    }
}

fn any_of(log: &EventLog, id: IntentId, c: KindClass) -> (r: bool)
    ensures
        r == logged(log.events@, id, c),
{
    let mut i: usize = 0;
    while i < log.events.len()
        invariant
            0 <= i <= log.events@.len(),
            forall|k: int|
                0 <= k < i ==> !(#[trigger] log.events@[k].intent == id && in_class(
                    log.events@[k].kind,
                    c,
                )),
        decreases log.events@.len() - i,
    {
        if log.events[i].intent == id && class_of(log.events[i].kind, &c) {
            return true;
        }
        i = i + 1;
    }
    false
}

/// `true` means the invariant holds over this log.
///
/// `in_flight` is the intent currently being processed, if any; it is excluded
/// from the terminal-event check, since a log read while the system is running
/// always has one intent that has not finished yet.
pub fn check(log: &EventLog, inv: Invariant, in_flight: Option<IntentId>) -> (r: bool)
    ensures
        r == holds(log.events@, inv, in_flight),
{
    let s = Ghost(log.events@);
    match inv {
        Invariant::TraceId => {
            let mut i: usize = 0;
            while i < log.events.len()
                invariant
                    0 <= i <= log.events@.len(),
                    inv == Invariant::TraceId,
                    forall|k: int| 0 <= k < i ==> #[trigger] log.events@[k].trace@.len() > 0,
                decreases log.events@.len() - i,
            {
                if log.events[i].trace.as_str().is_empty() {
                    return false;
                }
                i = i + 1;
            }
            true
        },
        Invariant::PolicyIdOnRefusal | Invariant::ReasonOnIndeterminate => {
            let refusal = inv == Invariant::PolicyIdOnRefusal;
            let mut i: usize = 0;
            while i < log.events.len()
                invariant
                    0 <= i <= log.events@.len(),
                    refusal == (inv == Invariant::PolicyIdOnRefusal),
                    inv == Invariant::PolicyIdOnRefusal || inv == Invariant::ReasonOnIndeterminate,
                    forall|k: int|
                        0 <= k < i ==> if refusal {
                            #[trigger] log.events@[k].kind == EventKind::PolicyRefuse
                                ==> log.events@[k].policy is Some
                        } else {
                            log.events@[k].kind == EventKind::PolicyIndeterminate
                                ==> log.events@[k].reason is Some
                        },
                decreases log.events@.len() - i,
            {
                let e = &log.events[i];
                if refusal {
                    if e.kind == EventKind::PolicyRefuse && e.policy.is_none() {
                        return false;
                    }
                } else {
                    if e.kind == EventKind::PolicyIndeterminate && e.reason.is_none() {
                        return false;
                    }
                }
                i = i + 1;
            }
            true
        },
        _ => {
            let ids = log.intent_ids();
            let mut i: usize = 0;
            while i < ids.len()
                invariant
                    0 <= i <= ids@.len(),
                    forall|id: IntentId| ids@.contains(id) <==> mentions(s@, id),
                    s@ == log.events@,
                    inv != Invariant::TraceId && inv != Invariant::PolicyIdOnRefusal && inv
                        != Invariant::ReasonOnIndeterminate,
                    forall|k: int|
                        0 <= k < i ==> match inv {
                            Invariant::TerminalReconstructable => in_flight != Some(
                                #[trigger] ids@[k],
                            ) ==> logged(s@, ids@[k], KindClass::Terminal),
                            Invariant::NoPlanAfterRefusal => !(logged(s@, ids@[k], KindClass::Refusal)
                                && logged(s@, ids@[k], KindClass::Planning)),
                            Invariant::NoActuationAfterRefusal => !(logged(
                                s@,
                                ids@[k],
                                KindClass::Refusal,
                            ) && logged(s@, ids@[k], KindClass::Actuation)),
                            _ => !(logged(s@, ids@[k], KindClass::Undecided) && logged(
                                s@,
                                ids@[k],
                                KindClass::Actuation,
                            )),
                        },
                decreases ids@.len() - i,
            {
                let id = ids[i];
                let ok = match inv {
                    Invariant::TerminalReconstructable => {
                        let excluded = match in_flight {
                            Some(f) => f == id,
                            None => false,
                        };
                        excluded || any_of(log, id, KindClass::Terminal)
                    },
                    Invariant::NoPlanAfterRefusal => !(any_of(log, id, KindClass::Refusal) && any_of(
                        log,
                        id,
                        KindClass::Planning,
                    )),
                    Invariant::NoActuationAfterRefusal => !(any_of(log, id, KindClass::Refusal)
                        && any_of(log, id, KindClass::Actuation)),
                    _ => !(any_of(log, id, KindClass::Undecided) && any_of(
                        log,
                        id,
                        KindClass::Actuation,
                    )),
                };
                if !ok {
                    assert(mentions(s@, id));
                    return false;
                }
                i = i + 1;
            }
            proof {
                assert forall|id: IntentId| mentions(s@, id) implies ids@.contains(id) by {}
                if inv == Invariant::TerminalReconstructable {
                    assert forall|id: IntentId|
                        #[trigger] mentions(s@, id) && in_flight != Some(id) implies logged(
                        s@,
                        id,
                        KindClass::Terminal,
                    ) by {
                        assert(ids@.contains(id));
                        let k = choose|k: int| 0 <= k < ids@.len() && ids@[k] == id;
                    }
                } else if inv == Invariant::NoPlanAfterRefusal {
                    assert forall|id: IntentId|
                        !(#[trigger] logged(s@, id, KindClass::Refusal) && logged(s@, id, KindClass::Planning)) by {
                        if logged(s@, id, KindClass::Refusal) {
                            let j = choose|j: int| 0 <= j < s@.len() && #[trigger] s@[j].intent == id && in_class(s@[j].kind, KindClass::Refusal);
                            assert(mentions(s@, id));
                            let k = choose|k: int| 0 <= k < ids@.len() && ids@[k] == id;
                        }
                    }
                } else if inv == Invariant::NoActuationAfterRefusal {
                    assert forall|id: IntentId|
                        !(#[trigger] logged(s@, id, KindClass::Refusal) && logged(s@, id, KindClass::Actuation)) by {
                        if logged(s@, id, KindClass::Refusal) {
                            let j = choose|j: int| 0 <= j < s@.len() && #[trigger] s@[j].intent == id && in_class(s@[j].kind, KindClass::Refusal);
                            assert(mentions(s@, id));
                            let k = choose|k: int| 0 <= k < ids@.len() && ids@[k] == id;
                        }
                    }
                } else {
                    assert forall|id: IntentId|
                        !(#[trigger] logged(s@, id, KindClass::Undecided) && logged(s@, id, KindClass::Actuation)) by {
                        if logged(s@, id, KindClass::Undecided) {
                            let j = choose|j: int| 0 <= j < s@.len() && #[trigger] s@[j].intent == id && in_class(s@[j].kind, KindClass::Undecided);
                            assert(mentions(s@, id));
                            let k = choose|k: int| 0 <= k < ids@.len() && ids@[k] == id;
                        }
                    }
                }
            }
            true
        },
    }
}

/// Every invariant, in declaration order, paired with whether it holds.
pub fn check_all(log: &EventLog, in_flight: Option<IntentId>) -> (r: Vec<(Invariant, bool)>)
    ensures
        r@.len() == 7,
        forall|k: int|
            0 <= k < 7 ==> #[trigger] r@[k] == (invariant_order()[k], holds(
                log.events@,
                invariant_order()[k],
                in_flight,
            )),
{
    assert(ALL@ =~= invariant_order());
    let mut out: Vec<(Invariant, bool)> = Vec::new();
    let mut i: usize = 0;
    while i < 7
        invariant
            0 <= i <= 7,
            ALL@ == invariant_order(),
            out@.len() == i,
            forall|k: int|
                0 <= k < i ==> #[trigger] out@[k] == (invariant_order()[k], holds(
                    log.events@,
                    invariant_order()[k],
                    in_flight,
                )),
        decreases 7 - i,
    {
        let inv = ALL[i];
        out.push((inv, check(log, inv, in_flight)));
        i = i + 1;
    }
    out
}

/// Some intent of `s` has an event of class `a` and an event of class `b`.
spec fn shared_intent(s: Seq<Event>, a: KindClass, b: KindClass) -> bool {
    exists|i: int, j: int|
        #![trigger s[i], s[j]]
        0 <= i < s.len() && 0 <= j < s.len() && s[i].intent == s[j].intent && in_class(s[i].kind, a)
            && in_class(s[j].kind, b)
}

proof fn lemma_shared_intent(s: Seq<Event>, a: KindClass, b: KindClass)
    ensures
        shared_intent(s, a, b) <==> exists|id: IntentId| #[trigger] logged(s, id, a) && logged(s, id, b),
{
    if shared_intent(s, a, b) {
        let (i, j) = choose|i: int, j: int|
            #![trigger s[i], s[j]]
            0 <= i < s.len() && 0 <= j < s.len() && s[i].intent == s[j].intent && in_class(s[i].kind, a)
                && in_class(s[j].kind, b);
        let id = s[i].intent;
        assert(logged(s, id, a));
        assert(logged(s, id, b));
    }
    if exists|id: IntentId| #[trigger] logged(s, id, a) && logged(s, id, b) {
        let id = choose|id: IntentId| #[trigger] logged(s, id, a) && logged(s, id, b);
        let i = choose|i: int| 0 <= i < s.len() && #[trigger] s[i].intent == id && in_class(s[i].kind, a);
        let j = choose|j: int| 0 <= j < s.len() && #[trigger] s[j].intent == id && in_class(s[j].kind, b);
        assert(s[i].intent == s[j].intent && in_class(s[i].kind, a) && in_class(s[j].kind, b));
    }
}

/// The headline invariant fails exactly on a log in which one intent has a
/// `PolicyRefuse` event and an event that drives the manipulator, whether
/// `StateExecuting` or `DriverCommand`.
pub proof fn actuation_after_refusal_is_caught(s: Seq<Event>, in_flight: Option<IntentId>)
    ensures
        !holds(s, Invariant::NoActuationAfterRefusal, in_flight) <==> exists|i: int, j: int|
            #![trigger s[i], s[j]]
            0 <= i < s.len() && 0 <= j < s.len() && s[i].intent == s[j].intent && s[i].kind
                == EventKind::PolicyRefuse && (s[j].kind == EventKind::StateExecuting || s[j].kind
                == EventKind::DriverCommand),
{
    lemma_shared_intent(s, KindClass::Refusal, KindClass::Actuation);
}

/// Actuation after an unanswered intent fails exactly on a log in which one
/// intent has a `PolicyIndeterminate` event and a `StateExecuting` or
/// `DriverCommand` event.
pub proof fn actuation_after_indeterminate_is_caught(s: Seq<Event>, in_flight: Option<IntentId>)
    ensures
        !holds(s, Invariant::NoActuationAfterIndeterminate, in_flight) <==> exists|i: int, j: int|
            #![trigger s[i], s[j]]
            0 <= i < s.len() && 0 <= j < s.len() && s[i].intent == s[j].intent && s[i].kind
                == EventKind::PolicyIndeterminate && (s[j].kind == EventKind::StateExecuting
                || s[j].kind == EventKind::DriverCommand),
{
    lemma_shared_intent(s, KindClass::Undecided, KindClass::Actuation);
}

/// Planning after a refusal fails exactly on a log in which one intent has a
/// `PolicyRefuse` event and a `StatePlanning` or `PlanComputed` event.
pub proof fn plan_after_refusal_is_caught(s: Seq<Event>, in_flight: Option<IntentId>)
    ensures
        !holds(s, Invariant::NoPlanAfterRefusal, in_flight) <==> exists|i: int, j: int|
            #![trigger s[i], s[j]]
            0 <= i < s.len() && 0 <= j < s.len() && s[i].intent == s[j].intent && s[i].kind
                == EventKind::PolicyRefuse && (s[j].kind == EventKind::StatePlanning || s[j].kind
                == EventKind::PlanComputed),
{
    lemma_shared_intent(s, KindClass::Refusal, KindClass::Planning);
}

/// An intent other than the one in flight that the log mentions must have an
/// `IntentRefused`, `IntentComplete` or `IntentIndeterminate` event.
pub proof fn unfinished_intent_is_caught(s: Seq<Event>, in_flight: Option<IntentId>)
    ensures
        holds(s, Invariant::TerminalReconstructable, in_flight) <==> forall|i: int|
            #![trigger s[i]]
            0 <= i < s.len() && in_flight != Some(s[i].intent) ==> exists|j: int|
                #![trigger s[j]]
                0 <= j < s.len() && s[j].intent == s[i].intent && (s[j].kind == EventKind::IntentRefused
                    || s[j].kind == EventKind::IntentComplete || s[j].kind
                    == EventKind::IntentIndeterminate),
{
    if holds(s, Invariant::TerminalReconstructable, in_flight) {
        assert forall|i: int|
            #![trigger s[i]]
            0 <= i < s.len() && in_flight != Some(s[i].intent) implies exists|j: int|
                #![trigger s[j]]
                0 <= j < s.len() && s[j].intent == s[i].intent && (s[j].kind == EventKind::IntentRefused
                    || s[j].kind == EventKind::IntentComplete || s[j].kind
                    == EventKind::IntentIndeterminate) by {
            assert(mentions(s, s[i].intent));
            assert(logged(s, s[i].intent, KindClass::Terminal));
        }
    } else {
        let id = choose|id: IntentId|
            !(#[trigger] mentions(s, id) && in_flight != Some(id) ==> logged(s, id, KindClass::Terminal));
        let i = choose|i: int| 0 <= i < s.len() && #[trigger] s[i].intent == id;
        if exists|j: int|
            #![trigger s[j]]
            0 <= j < s.len() && s[j].intent == s[i].intent && (s[j].kind == EventKind::IntentRefused
                || s[j].kind == EventKind::IntentComplete || s[j].kind
                == EventKind::IntentIndeterminate) {
            let j = choose|j: int|
                #![trigger s[j]]
                0 <= j < s.len() && s[j].intent == s[i].intent && (s[j].kind == EventKind::IntentRefused
                    || s[j].kind == EventKind::IntentComplete || s[j].kind
                    == EventKind::IntentIndeterminate);
            assert(in_class(s[j].kind, KindClass::Terminal));
        }
    }
}

} // verus!
