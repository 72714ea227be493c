//! The event log: what happened, to which intent, under which trace.
//!
//! Every event carries a trace id; that is what makes the causal chain
//! reconstructable after the fact.

use vstd::prelude::*;

use crate::policy::{IndeterminateReason, PolicyId};
use crate::IntentId;

verus! {

#[derive(Debug, Clone, Copy, PartialEq, Eq, Structural)]
pub enum EventKind {
    MeshRoute,
    EnvResolve,
    StateIdle,
    StateReasoning,
    StatePlanning,
    StateExecuting,
    StatePublishing,
    PolicyOk,
    PolicyRefuse,
    IntentRefused,
    /// The authority could not answer.
    PolicyIndeterminate,
    /// Terminal record of an intent nobody decided.
    IntentIndeterminate,
    PlanComputed,
    DriverCommand,
    Telemetry,
    IntentComplete,
}

/// The events that mean a manipulator was actually driven.
pub open spec fn actuation_kind(k: EventKind) -> bool {
    k == EventKind::StateExecuting || k == EventKind::DriverCommand
}

/// The events that end an intent.
pub open spec fn terminal_kind(k: EventKind) -> bool {
    k == EventKind::IntentRefused || k == EventKind::IntentComplete
        || k == EventKind::IntentIndeterminate
}

/// The events that mean a plan was being made.
pub open spec fn planning_kind(k: EventKind) -> bool {
    k == EventKind::StatePlanning || k == EventKind::PlanComputed
}

impl EventKind {
    pub fn as_str(self) -> (r: &'static str)
        ensures
            r@ == match self {
                EventKind::MeshRoute => "MESH_ROUTE"@,
                EventKind::EnvResolve => "ENV_RESOLVE"@,
                EventKind::StateIdle => "STATE_IDLE"@,
                EventKind::StateReasoning => "STATE_REASONING"@,
                EventKind::StatePlanning => "STATE_PLANNING"@,
                EventKind::StateExecuting => "STATE_EXECUTING"@,
                EventKind::StatePublishing => "STATE_PUBLISHING"@,
                EventKind::PolicyOk => "POLICY_OK"@,
                EventKind::PolicyRefuse => "POLICY_REFUSE"@,
                EventKind::IntentRefused => "INTENT_REFUSED"@,
                EventKind::PolicyIndeterminate => "POLICY_INDETERMINATE"@,
                EventKind::IntentIndeterminate => "INTENT_INDETERMINATE"@,
                EventKind::PlanComputed => "PLAN_COMPUTED"@,
                EventKind::DriverCommand => "DRIVER_COMMAND"@,
                EventKind::Telemetry => "TELEMETRY"@,
                EventKind::IntentComplete => "INTENT_COMPLETE"@,
            },
    {
        match self {
            EventKind::MeshRoute => "MESH_ROUTE",
            EventKind::EnvResolve => "ENV_RESOLVE",
            EventKind::StateIdle => "STATE_IDLE",
            EventKind::StateReasoning => "STATE_REASONING",
            EventKind::StatePlanning => "STATE_PLANNING",
            EventKind::StateExecuting => "STATE_EXECUTING",
            EventKind::StatePublishing => "STATE_PUBLISHING",
            EventKind::PolicyOk => "POLICY_OK",
            EventKind::PolicyRefuse => "POLICY_REFUSE",
            EventKind::IntentRefused => "INTENT_REFUSED",
            EventKind::PolicyIndeterminate => "POLICY_INDETERMINATE",
            EventKind::IntentIndeterminate => "INTENT_INDETERMINATE",
            EventKind::PlanComputed => "PLAN_COMPUTED",
            EventKind::DriverCommand => "DRIVER_COMMAND",
            EventKind::Telemetry => "TELEMETRY",
            EventKind::IntentComplete => "INTENT_COMPLETE",
        }
    }

    /// The two events that mean a manipulator was actually driven.
    pub fn is_actuation(self) -> (r: bool)
        ensures
            r == actuation_kind(self),
    {
        matches!(self, EventKind::StateExecuting | EventKind::DriverCommand)
    }

    pub fn is_terminal(self) -> (r: bool)
        ensures
            r == terminal_kind(self),
    {
        matches!(self, EventKind::IntentRefused | EventKind::IntentComplete | EventKind::IntentIndeterminate)
    }

    fn is_planning(self) -> (r: bool)
        ensures
            r == planning_kind(self),
    {
        matches!(self, EventKind::StatePlanning | EventKind::PlanComputed)
    }
}

#[derive(Debug)]
pub struct Event {
    pub t_ms: u64,
    pub kind: EventKind,
    pub source: String,
    pub intent: IntentId,
    /// Empty only when a fault has been injected to remove it.
    pub trace: String,
    /// The policy a refusal names.
    pub policy: Option<PolicyId>,
    /// Why nobody decided, on an indeterminate outcome. Kept apart from
    /// `policy`: no rule produced it.
    pub reason: Option<IndeterminateReason>,
}

impl Clone for Event {
    fn clone(&self) -> (r: Self)
        ensures
            r == *self,
    {
        Event {
            t_ms: self.t_ms,
            kind: self.kind,
            source: self.source.clone(),
            intent: self.intent,
            trace: self.trace.clone(),
            policy: self.policy,
            reason: self.reason,
        }
    }
}

/// Whether `e` is the event with these fields.
pub open spec fn is_event(
    e: Event,
    t_ms: u64,
    kind: EventKind,
    source: Seq<char>,
    intent: IntentId,
    trace: Seq<char>,
    policy: Option<PolicyId>,
    reason: Option<IndeterminateReason>,
) -> bool {
    &&& e.t_ms == t_ms
    &&& e.kind == kind
    &&& e.source@ == source
    &&& e.intent == intent
    &&& e.trace@ == trace
    &&& e.policy == policy
    &&& e.reason == reason
}

/// The events of `s` that belong to intent `id`, in order.
pub open spec fn events_of(s: Seq<Event>, id: IntentId) -> Seq<Event>
    decreases s.len(),
{
    if s.len() == 0 {
        Seq::empty()
    } else if s.last().intent == id {
        events_of(s.drop_last(), id).push(s.last())
    } else {
        events_of(s.drop_last(), id)
    }
}

/// Whether some event of `s` carries intent `id`.
pub open spec fn mentions(s: Seq<Event>, id: IntentId) -> bool {
    exists|i: int| 0 <= i < s.len() && #[trigger] s[i].intent == id
}

#[derive(Debug)]
pub struct EventLog {
    pub events: Vec<Event>,
}

impl Default for EventLog {
    fn default() -> (r: Self)
        ensures
            r.events@ == Seq::<Event>::empty(),
    {
        EventLog { events: Vec::new() }
    }
}

impl Clone for EventLog {
    fn clone(&self) -> (r: Self)
        ensures
            r.events@ == self.events@,
    {
        let mut out: Vec<Event> = Vec::new();
        let mut i: usize = 0;
        while i < self.events.len()
            invariant
                0 <= i <= self.events@.len(),
                out@ == self.events@.subrange(0, i as int),
            decreases self.events@.len() - i,
        {
            out.push(self.events[i].clone());
            assert(out@ =~= self.events@.subrange(0, i + 1));
            i = i + 1;
        }
        assert(out@ =~= self.events@);
        EventLog { events: out }
    }
}

impl EventLog {
    pub fn record(&mut self, t_ms: u64, kind: EventKind, source: &str, intent: IntentId, trace: &str)
        ensures
            final(self).events@.len() == old(self).events@.len() + 1,
            final(self).events@.drop_last() == old(self).events@,
            is_event(final(self).events@.last(), t_ms, kind, source@, intent, trace@, None, None),
    {
        self.events.push(
            Event {
                t_ms,
                kind,
                source: String::from_str(source),
                intent,
                trace: String::from_str(trace),
                policy: None,
                reason: None,
            },
        );
        assert(self.events@.drop_last() =~= old(self).events@);
    }

    /// A decision of the policy authority that names its policy.
    pub fn record_policy(&mut self, t_ms: u64, kind: EventKind, intent: IntentId, trace: &str, policy: PolicyId)
        ensures
            final(self).events@.len() == old(self).events@.len() + 1,
            final(self).events@.drop_last() == old(self).events@,
            is_event(
                final(self).events@.last(),
                t_ms,
                kind,
                "policy_authority"@,
                intent,
                trace@,
                Some(policy),
                None,
            ),
    {
        self.events.push(
            Event {
                t_ms,
                kind,
                source: String::from_str("policy_authority"),
                intent,
                trace: String::from_str(trace),
                policy: Some(policy),
                reason: None,
            },
        );
        assert(self.events@.drop_last() =~= old(self).events@);
    }

    /// An outcome nobody decided: it carries its reason and no policy.
    pub fn record_indeterminate(
        &mut self,
        t_ms: u64,
        kind: EventKind,
        intent: IntentId,
        trace: &str,
        reason: IndeterminateReason,
    )
        ensures
            final(self).events@.len() == old(self).events@.len() + 1,
            final(self).events@.drop_last() == old(self).events@,
            is_event(
                final(self).events@.last(),
                t_ms,
                kind,
                "policy_authority"@,
                intent,
                trace@,
                None,
                Some(reason),
            ),
    {
        self.events.push(
            Event {
                t_ms,
                kind,
                source: String::from_str("policy_authority"),
                intent,
                trace: String::from_str(trace),
                policy: None,
                reason: Some(reason),
            },
        );
        assert(self.events@.drop_last() =~= old(self).events@);
    }

    /// The events of one intent, in log order.
    pub fn for_intent(&self, intent: IntentId) -> (r: Vec<&Event>)
        ensures
            r@.map_values(|e: &Event| *e) == events_of(self.events@, intent),
    {
        let mut out: Vec<&Event> = Vec::new();
        let mut i: usize = 0;
        while i < self.events.len()
            invariant
                0 <= i <= self.events@.len(),
                out@.map_values(|e: &Event| *e) == events_of(self.events@.subrange(0, i as int), intent),
            decreases self.events@.len() - i,
        {
            let e = &self.events[i];
            let ghost pre = out@;
            if e.intent == intent {
                out.push(e);
                assert(out@.map_values(|e: &Event| *e) =~= pre.map_values(|e: &Event| *e).push(*e));
            }
            assert(self.events@.subrange(0, i + 1).drop_last() =~= self.events@.subrange(0, i as int));
            i = i + 1;
        }
        assert(self.events@.subrange(0, self.events@.len() as int) =~= self.events@);
        out
    }

    /// Every intent the log mentions, once each, in increasing order.
    pub fn intent_ids(&self) -> (r: Vec<IntentId>)
        ensures
            forall|a: int, b: int| 0 <= a < b < r@.len() ==> r@[a] < r@[b],
            forall|id: IntentId| r@.contains(id) <==> mentions(self.events@, id),
    {
        let mut ids: Vec<IntentId> = Vec::new();
        let mut i: usize = 0;
        while i < self.events.len()
            invariant
                0 <= i <= self.events@.len(),
                forall|a: int, b: int| 0 <= a < b < ids@.len() ==> ids@[a] < ids@[b],
                forall|id: IntentId|
                    ids@.contains(id) <==> mentions(self.events@.subrange(0, i as int), id),
            decreases self.events@.len() - i,
        {
            let id = self.events[i].intent;
            let mut j: usize = 0;
            while j < ids.len() && ids[j] < id
                invariant
                    0 <= j <= ids@.len(),
                    forall|k: int| 0 <= k < j ==> ids@[k] < id,
                decreases ids@.len() - j,
            {
                j = j + 1;
            }
            let ghost pre = ids@;
            if j < ids.len() && ids[j] == id {
            } else {
                ids.insert(j, id);
                assert forall|a: int, b: int| 0 <= a < b < ids@.len() implies ids@[a] < ids@[b] by {
                    if b < j {
                    } else if a < j && b == j {
                    } else if a < j {
                        assert(ids@[b] == pre[b - 1]);
                    } else if a == j {
                        assert(ids@[b] == pre[b - 1]);
                        assert(pre[j as int] > id);
                        if b - 1 > j {
                            assert(pre[j as int] < pre[b - 1]);
                        }
                    } else {
                        assert(ids@[a] == pre[a - 1]);
                        assert(ids@[b] == pre[b - 1]);
                    }
                }
            }
            let ghost sub = self.events@.subrange(0, i as int);
            let ghost sub1 = self.events@.subrange(0, i + 1);
            assert forall|x: IntentId| ids@.contains(x) <==> mentions(sub1, x) by {
                if mentions(sub1, x) && x != id {
                    let k = choose|k: int| 0 <= k < sub1.len() && #[trigger] sub1[k].intent == x;
                    assert(sub[k].intent == x);
                    assert(pre.contains(x));
                    let m = choose|m: int| 0 <= m < pre.len() && pre[m] == x;
                    if ids@ != pre {
                        if m < j {
                            assert(ids@[m] == pre[m]);
                        } else {
                            assert(ids@[m + 1] == pre[m]);
                        }
                    }
                    assert(ids@.contains(pre[m]));
                }
                if x == id {
                    assert(sub1[i as int].intent == id);
                    if !(j < pre.len() && pre[j as int] == id) {
                        assert(ids@[j as int] == id);
                    }
                    assert(ids@.contains(x));
                }
                if ids@.contains(x) && x != id {
                    let m = choose|m: int| 0 <= m < ids@.len() && ids@[m] == x;
                    if ids@ != pre {
                        if m < j {
                            assert(pre[m] == x);
                        } else {
                            assert(pre[m - 1] == x);
                        }
                    }
                    assert(pre.contains(x));
                    assert(mentions(sub, x));
                    let k = choose|k: int| 0 <= k < sub.len() && #[trigger] sub[k].intent == x;
                    assert(sub1[k].intent == x);
                }
            }
            i = i + 1;
        }
        assert(self.events@.subrange(0, self.events@.len() as int) =~= self.events@);
        ids
    }

    /// Keeps only the newest `cap` events.
    pub fn keep_newest(&mut self, cap: usize)
        ensures
            old(self).events@.len() <= cap ==> final(self).events@ == old(self).events@,
            old(self).events@.len() > cap ==> final(self).events@ == old(self).events@.subrange(
                old(self).events@.len() - cap,
                old(self).events@.len() as int,
            ),
    {
        if self.events.len() > cap {
            let at = self.events.len() - cap;
            let tail = self.events.split_off(at);
            self.events = tail;
        }
    }
}

/// The events of an intent are exactly the log's events that carry its id,
/// in log order: `idx` gives, for each of them, its position in the log;
/// positions increase, and every position whose event carries the id is
/// among them.
pub proof fn events_of_selects_in_order(s: Seq<Event>, id: IntentId) -> (idx: Seq<int>)
    ensures
        idx.len() == events_of(s, id).len(),
        forall|k: int|
            0 <= k < idx.len() ==> 0 <= #[trigger] idx[k] < s.len() && events_of(s, id)[k] == s[idx[k]]
                && s[idx[k]].intent == id,
        forall|a: int, b: int| 0 <= a < b < idx.len() ==> idx[a] < idx[b],
        forall|i: int| 0 <= i < s.len() && #[trigger] s[i].intent == id ==> idx.contains(i),
    decreases s.len(),
{
    if s.len() == 0 {
        Seq::empty()
    } else {
        let rest = events_of_selects_in_order(s.drop_last(), id);
        let n = s.len() - 1;
        if s.last().intent == id {
            let idx = rest.push(n);
            assert forall|i: int| 0 <= i < s.len() && #[trigger] s[i].intent == id implies idx.contains(i) by {
                if i < n {
                    assert(s.drop_last()[i].intent == id);
                    let k = choose|k: int| 0 <= k < rest.len() && rest[k] == i;
                    assert(idx[k] == i);
                } else {
                    assert(idx[rest.len() as int] == i);
                }
            }
            idx
        } else {
            assert forall|i: int| 0 <= i < s.len() && #[trigger] s[i].intent == id implies rest.contains(i) by {
                assert(s.drop_last()[i].intent == id);
            }
            rest
        }
    }
}

} // verus!
