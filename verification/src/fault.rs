//! Synthetic faults, applied to a copy of a recorded log.
//!
//! These do not break the running system; they corrupt its record, which is
//! what the invariant checker reads. Each fault must drop its own invariant
//! and no other.

use vstd::prelude::*;

use crate::invariants::{holds, in_class, logged, Invariant, KindClass};
use crate::log::{is_event, mentions, terminal_kind, Event, EventKind, EventLog};
use crate::IntentId;

verus! {

#[derive(Debug, Clone, Copy, PartialEq, Eq, Structural)]
pub enum Fault {
    /// The unperturbed log.
    NoFault,
    DropTrace,
    NoTerminal,
    NoPolicyId,
    LeakPlanner,
    LeakDriver,
    NoIndeterminateReason,
    NoIndeterminateTerminal,
}

impl Fault {
    pub fn as_str(self) -> (r: &'static str)
        ensures
            r@ == fault_name(self),
    {
        match self {
            Fault::NoFault => "none",
            Fault::DropTrace => "drop-trace",
            Fault::NoTerminal => "no-terminal",
            Fault::NoPolicyId => "no-policy-id",
            Fault::LeakPlanner => "leak-planner",
            Fault::LeakDriver => "leak-driver",
            Fault::NoIndeterminateReason => "no-indeterminate-reason",
            Fault::NoIndeterminateTerminal => "no-indeterminate-terminal",
        }
    }

    pub fn describe(self) -> (r: &'static str)
        ensures
            r@ == match self {
                Fault::NoFault => "unperturbed log"@,
                Fault::DropTrace => "an event loses its trace id"@,
                Fault::NoTerminal => "an intent never reaches a terminal event"@,
                Fault::NoPolicyId => "a refusal is recorded without naming its policy"@,
                Fault::LeakPlanner => "a refused intent shows planning activity"@,
                Fault::LeakDriver => "a refused intent shows the driver being commanded"@,
                Fault::NoIndeterminateReason => "an unanswered intent is recorded without its reason"@,
                Fault::NoIndeterminateTerminal => "an unanswered intent loses its terminal record"@,
            },
    {
        match self {
            Fault::NoFault => "unperturbed log",
            Fault::DropTrace => "an event loses its trace id",
            Fault::NoTerminal => "an intent never reaches a terminal event",
            Fault::NoPolicyId => "a refusal is recorded without naming its policy",
            Fault::LeakPlanner => "a refused intent shows planning activity",
            Fault::LeakDriver => "a refused intent shows the driver being commanded",
            Fault::NoIndeterminateReason => "an unanswered intent is recorded without its reason",
            Fault::NoIndeterminateTerminal => "an unanswered intent loses its terminal record",
        }
    }

    /// The fault whose name is `name`, if any.
    pub fn from_name(name: &str) -> (r: Option<Fault>)
        ensures
            match r {
                Some(f) => fault_name(f) == name@,
                None => forall|f: Fault| fault_name(f) != name@,
            },
    {
        let wanted = String::from_str(name);
        let mut i: usize = 0;
        assert(ALL@ =~= fault_order());
        while i < 8
            invariant
                0 <= i <= 8,
                wanted@ == name@,
                ALL@ == fault_order(),
                forall|k: int| 0 <= k < i ==> fault_name(#[trigger] fault_order()[k]) != name@,
            decreases 8 - i,
        {
            let f = ALL[i];
            let candidate = String::from_str(f.as_str());
            if candidate.eq(&wanted) {
                return Some(f);
            }
            i = i + 1;
        }
        assert forall|f: Fault| fault_name(f) != name@ by {
            let k: int = match f {
                Fault::NoFault => 0,
                Fault::DropTrace => 1,
                Fault::NoTerminal => 2,
                Fault::NoPolicyId => 3,
                Fault::LeakPlanner => 4,
                Fault::LeakDriver => 5,
                Fault::NoIndeterminateReason => 6,
                Fault::NoIndeterminateTerminal => 7,
            };
            assert(fault_order()[k] == f);
        }
        None
    }
}

/// The name of fault `f`.
pub open spec fn fault_name(f: Fault) -> Seq<char> {
    match f {
        Fault::NoFault => "none"@,
        Fault::DropTrace => "drop-trace"@,
        Fault::NoTerminal => "no-terminal"@,
        Fault::NoPolicyId => "no-policy-id"@,
        Fault::LeakPlanner => "leak-planner"@,
        Fault::LeakDriver => "leak-driver"@,
        Fault::NoIndeterminateReason => "no-indeterminate-reason"@,
        Fault::NoIndeterminateTerminal => "no-indeterminate-terminal"@,
    }
}

pub const ALL: [Fault; 8] = [
    Fault::NoFault,
    Fault::DropTrace,
    Fault::NoTerminal,
    Fault::NoPolicyId,
    Fault::LeakPlanner,
    Fault::LeakDriver,
    Fault::NoIndeterminateReason,
    Fault::NoIndeterminateTerminal,
];

/// The faults in declaration order.
pub open spec fn fault_order() -> Seq<Fault> {
    seq![
        Fault::NoFault,
        Fault::DropTrace,
        Fault::NoTerminal,
        Fault::NoPolicyId,
        Fault::LeakPlanner,
        Fault::LeakDriver,
        Fault::NoIndeterminateReason,
        Fault::NoIndeterminateTerminal,
    ]
}

/// The events of `s` that satisfy `p`, in order.
pub open spec fn select(s: Seq<Event>, p: spec_fn(Event) -> bool) -> Seq<Event>
    decreases s.len(),
{
    if s.len() == 0 {
        s
    } else if p(s.last()) {
        select(s.drop_last(), p).push(s.last())
    } else {
        select(s.drop_last(), p)
    }
}

/// Selects the events stamped at time `v`.
pub open spec fn stamped(v: u64) -> spec_fn(Event) -> bool {
    |e: Event| e.t_ms == v
}

/// The events of `s` stamped at time `v`, in order.
pub open spec fn at_time(s: Seq<Event>, v: u64) -> Seq<Event> {
    select(s, stamped(v))
}

/// Whether `s` is in nondecreasing time order.
pub open spec fn time_sorted(s: Seq<Event>) -> bool {
    forall|a: int, b: int| 0 <= a <= b < s.len() ==> #[trigger] s[a].t_ms <= #[trigger] s[b].t_ms
}

/// `out` is `s` stably sorted by time: in time order, and with the events of
/// each timestamp in their original order.
pub open spec fn stably_sorted(s: Seq<Event>, out: Seq<Event>) -> bool {
    &&& time_sorted(out)
    &&& forall|v: u64| #[trigger] at_time(out, v) == at_time(s, v)
}

/// Whether kind `k` is the one `want` names, or terminal when it names none.
pub open spec fn wanted(k: EventKind, want: Option<EventKind>) -> bool {
    match want {
        Some(w) => k == w,
        None => terminal_kind(k),
    }
}

/// Keeps every event except those of intent `id` whose kind is `want`ed.
pub open spec fn keeps(id: IntentId, want: Option<EventKind>) -> spec_fn(Event) -> bool {
    |e: Event| !(e.intent == id && wanted(e.kind, want))
}

/// The index of the first event of `s` whose kind is `want`ed, or `s.len()`.
pub open spec fn first_where(s: Seq<Event>, want: Option<EventKind>) -> int
    decreases s.len(),
{
    if s.len() == 0 {
        0
    } else if wanted(s[0].kind, want) {
        0
    } else {
        1 + first_where(s.drop_first(), want)
    }
}

proof fn lemma_first_where(s: Seq<Event>, want: Option<EventKind>)
    ensures
        0 <= first_where(s, want) <= s.len(),
        first_where(s, want) < s.len() ==> wanted(s[first_where(s, want)].kind, want),
        forall|k: int| 0 <= k < first_where(s, want) ==> !wanted(#[trigger] s[k].kind, want),
    decreases s.len(),
{
    if s.len() > 0 && !wanted(s[0].kind, want) {
        lemma_first_where(s.drop_first(), want);
        assert forall|k: int| 0 <= k < first_where(s, want) implies !wanted(#[trigger] s[k].kind, want) by {
            if k > 0 {
                assert(s[k] == s.drop_first()[k - 1]);
            }
        }
    }
}

pub proof fn lemma_select_add(a: Seq<Event>, b: Seq<Event>, p: spec_fn(Event) -> bool)
    ensures
        select(a + b, p) == select(a, p) + select(b, p),
    decreases b.len(),
{
    if b.len() == 0 {
        assert(a + b =~= a);
        assert(select(a, p) + select(b, p) =~= select(a, p));
    } else {
        lemma_select_add(a, b.drop_last(), p);
        assert((a + b).drop_last() =~= a + b.drop_last());
        assert((a + b).last() == b.last());
        if p(b.last()) {
            assert(select(a, p) + select(b.drop_last(), p).push(b.last()) =~= (select(a, p) + select(
                b.drop_last(),
                p,
            )).push(b.last()));
        }
    }
}

pub proof fn lemma_select_none(b: Seq<Event>, p: spec_fn(Event) -> bool)
    requires
        forall|k: int| 0 <= k < b.len() ==> !p(#[trigger] b[k]),
    ensures
        select(b, p) == Seq::<Event>::empty(),
    decreases b.len(),
{
    if b.len() > 0 {
        assert forall|k: int| 0 <= k < b.drop_last().len() implies !p(#[trigger] b.drop_last()[k]) by {
            assert(b.drop_last()[k] == b[k]);
        }
        lemma_select_none(b.drop_last(), p);
        assert(!p(b[b.len() - 1]));
    }
}

pub proof fn lemma_select_contains(s: Seq<Event>, p: spec_fn(Event) -> bool, e: Event)
    ensures
        select(s, p).contains(e) <==> (s.contains(e) && p(e)),
    decreases s.len(),
{
    if s.len() > 0 {
        lemma_select_contains(s.drop_last(), p, e);
        let d = s.drop_last();
        if s.contains(e) && p(e) {
            let k = choose|k: int| 0 <= k < s.len() && s[k] == e;
            if k < d.len() {
                assert(d[k] == e);
                assert(d.contains(e));
                assert(select(d, p).contains(e));
                let m = choose|m: int| 0 <= m < select(d, p).len() && select(d, p)[m] == e;
                assert(select(s, p)[m] == e);
            } else {
                assert(select(s, p)[select(s, p).len() - 1] == e);
            }
        }
        if select(s, p).contains(e) {
            let k = choose|k: int| 0 <= k < select(s, p).len() && select(s, p)[k] == e;
            if p(s.last()) && k == select(s, p).len() - 1 {
                assert(s[s.len() - 1] == e);
            } else {
                assert(select(d, p)[k] == e);
                assert(select(d, p).contains(e));
                assert(d.contains(e));
                let j = choose|j: int| 0 <= j < d.len() && d[j] == e;
                assert(s[j] == e);
            }
        }
    }
}

fn is_wanted(k: EventKind, want: Option<EventKind>) -> (r: bool)
    ensures
        r == wanted(k, want),
{
    match want {
        Some(w) => k == w,
        None => k.is_terminal(),
    }
}

fn position(events: &Vec<Event>, want: Option<EventKind>) -> (r: usize)
    ensures
        r == first_where(events@, want),
{
    proof {
        lemma_first_where(events@, want);
    }
    let mut i: usize = 0;
    while i < events.len()
        invariant
            0 <= i <= events@.len(),
            i <= first_where(events@, want),
            0 <= first_where(events@, want) <= events@.len(),
            forall|k: int| 0 <= k < first_where(events@, want) ==> !wanted(#[trigger] events@[k].kind, want),
            first_where(events@, want) < events@.len() ==> wanted(events@[first_where(events@, want)].kind, want),
        decreases events@.len() - i,
    {
        if is_wanted(events[i].kind, want) {
            return i;
        }
        i = i + 1;
    }
    i
}

fn strip(events: &Vec<Event>, id: IntentId, want: Option<EventKind>) -> (r: Vec<Event>)
    ensures
        r@ == select(events@, keeps(id, want)),
{
    let mut out: Vec<Event> = Vec::new();
    let mut i: usize = 0;
    while i < events.len()
        invariant
            0 <= i <= events@.len(),
            out@ == select(events@.subrange(0, i as int), keeps(id, want)),
        decreases events@.len() - i,
    {
        let e = &events[i];
        assert(events@.subrange(0, i + 1).drop_last() =~= events@.subrange(0, i as int));
        if !(e.intent == id && is_wanted(e.kind, want)) {
            out.push(e.clone());
        }
        i = i + 1;
    }
    assert(events@.subrange(0, events@.len() as int) =~= events@);
    out
}

proof fn lemma_stamped_single(e: Event, v: u64)
    ensures
        at_time(seq![e], v) == if e.t_ms == v { seq![e] } else { Seq::<Event>::empty() },
{
    let one = seq![e];
    assert(one.drop_last() =~= Seq::<Event>::empty());
    assert(one.last() == e);
    assert(select(one.drop_last(), stamped(v)) == Seq::<Event>::empty());
    assert(stamped(v)(e) == (e.t_ms == v));
    if e.t_ms == v {
        assert(Seq::<Event>::empty().push(e) =~= one);
    }
}

/// Stable sort by time: insertion after every event stamped no later.
fn sort_by_time(events: &Vec<Event>) -> (r: Vec<Event>)
    ensures
        stably_sorted(events@, r@),
        r@.len() == events@.len(),
{
    let mut out: Vec<Event> = Vec::new();
    let mut i: usize = 0;
    while i < events.len()
        invariant
            0 <= i <= events@.len(),
            out@.len() == i,
            time_sorted(out@),
            forall|v: u64| #[trigger] at_time(out@, v) == at_time(events@.subrange(0, i as int), v),
        decreases events@.len() - i,
    {
        let e = events[i].clone();
        let mut j: usize = 0;
        while j < out.len() && out[j].t_ms <= e.t_ms
            invariant
                0 <= j <= out@.len(),
                forall|k: int| 0 <= k < j ==> #[trigger] out@[k].t_ms <= e.t_ms,
            decreases out@.len() - j,
        {
            j = j + 1;
        }
        let ghost pre = out@;
        proof {
            assert forall|k: int| j <= k < pre.len() implies #[trigger] pre[k].t_ms > e.t_ms by {
                assert(pre[j as int].t_ms > e.t_ms);
                assert(pre[j as int].t_ms <= pre[k].t_ms);
            }
        }
        out.insert(j, e);
        proof {
            let left = pre.subrange(0, j as int);
            let right = pre.subrange(j as int, pre.len() as int);
            assert(pre =~= left + right);
            assert(out@ =~= left + seq![e] + right);
            assert(events@.subrange(0, i + 1) =~= events@.subrange(0, i as int) + seq![e]);
            assert forall|a: int, b: int| 0 <= a <= b < out@.len() implies #[trigger] out@[a].t_ms
                <= #[trigger] out@[b].t_ms by {
                if a < j && b < j {
                    assert(out@[a] == pre[a] && out@[b] == pre[b]);
                } else if a < j && b == j {
                    assert(out@[a] == pre[a]);
                } else if a < j {
                    assert(out@[a] == pre[a] && out@[b] == pre[b - 1]);
                } else if a == j && b > j {
                    assert(out@[b] == pre[b - 1]);
                } else if a > j {
                    assert(out@[a] == pre[a - 1] && out@[b] == pre[b - 1]);
                }
            }
            assert forall|v: u64| #[trigger] at_time(out@, v) == at_time(events@.subrange(0, i + 1), v) by {
                lemma_select_add(left + seq![e], right, stamped(v));
                lemma_select_add(left, seq![e], stamped(v));
                lemma_select_add(left, right, stamped(v));
                lemma_select_add(events@.subrange(0, i as int), seq![e], stamped(v));
                lemma_stamped_single(e, v);
                let sl = at_time(left, v);
                let sr = at_time(right, v);
                let se = at_time(seq![e], v);
                let si = at_time(events@.subrange(0, i as int), v);
                assert(at_time(out@, v) == sl + se + sr);
                assert(si == at_time(pre, v));
                assert(at_time(pre, v) == sl + sr);
                assert(at_time(events@.subrange(0, i + 1), v) == si + se);
                if e.t_ms == v {
                    assert forall|k: int| 0 <= k < right.len() implies !stamped(v)(#[trigger] right[k]) by {
                        assert(right[k] == pre[j + k]);
                    }
                    lemma_select_none(right, stamped(v));
                    assert(sr == Seq::<Event>::empty());
                    assert(sl + sr =~= sl);
                    assert(sl + se + sr =~= sl + se);
                } else {
                    assert(se == Seq::<Event>::empty());
                    assert(sl + se + sr =~= sl + sr);
                    assert(si + se =~= si);
                }
            }
        }
        i = i + 1;
    }
    assert(events@.subrange(0, events@.len() as int) =~= events@);
    out
}

/// `t + 10`, held at the top of the `u64` range.
pub open spec fn ten_after(t: u64) -> u64 {
    if t + 10 <= u64::MAX {
        (t + 10) as u64
    } else {
        u64::MAX
    }
}

/// `out` is `s` with an event of `kind` from `source` spliced into the history
/// of the first refused intent, ten milliseconds after its refusal, and then
/// stably sorted by time; `s` itself when nothing was refused.
pub open spec fn leaked(s: Seq<Event>, out: Seq<Event>, kind: EventKind, source: Seq<char>) -> bool {
    let i = first_where(s, Some(EventKind::PolicyRefuse));
    if i < s.len() {
        exists|e: Event|
            #[trigger] is_event(e, ten_after(s[i].t_ms), kind, source, s[i].intent, s[i].trace@, None, None)
                && stably_sorted(s.push(e), out)
    } else {
        out == s
    }
}

/// `a` and `b` agree on everything but the trace.
pub open spec fn same_but_trace(a: Event, b: Event) -> bool {
    &&& a.t_ms == b.t_ms
    &&& a.kind == b.kind
    &&& a.source == b.source
    &&& a.intent == b.intent
    &&& a.policy == b.policy
    &&& a.reason == b.reason
}

/// `out` is what fault `f` makes of the events `s`.
pub open spec fn injected(s: Seq<Event>, f: Fault, out: Seq<Event>) -> bool {
    match f {
        Fault::NoFault => out == s,
        Fault::DropTrace => if s.len() == 0 {
            out == s
        } else {
            &&& out.len() == s.len()
            &&& out.drop_first() == s.drop_first()
            &&& same_but_trace(out[0], s[0])
            &&& out[0].trace@ == Seq::<char>::empty()
        },
        Fault::NoTerminal => {
            let i = first_where(s, None);
            if i < s.len() {
                out == select(s, keeps(s[i].intent, None))
            } else {
                out == s
            }
        },
        Fault::NoPolicyId => {
            let i = first_where(s, Some(EventKind::PolicyRefuse));
            if i < s.len() {
                out == s.update(i, Event { policy: None, ..s[i] })
            } else {
                out == s
            }
        },
        Fault::LeakPlanner => leaked(s, out, EventKind::StatePlanning, "planner"@),
        Fault::LeakDriver => leaked(s, out, EventKind::DriverCommand, "driver"@),
        Fault::NoIndeterminateReason => {
            let i = first_where(s, Some(EventKind::PolicyIndeterminate));
            if i < s.len() {
                out == s.update(i, Event { reason: None, ..s[i] })
            } else {
                out == s
            }
        },
        Fault::NoIndeterminateTerminal => {
            let i = first_where(s, Some(EventKind::IntentIndeterminate));
            if i < s.len() {
                out == select(s, keeps(s[i].intent, Some(EventKind::IntentIndeterminate)))
            } else {
                out == s
            }
        },
    }
}

/// Splices an event of `kind` into a refused intent's history: the shape a
/// broken implementation would leave behind if the policy decision did not hold.
fn leak(log: &mut EventLog, kind: EventKind, source: &str)
    ensures
        leaked(old(log).events@, final(log).events@, kind, source@),
{
    let i = position(&log.events, Some(EventKind::PolicyRefuse));
    if i < log.events.len() {
        let refused = &log.events[i];
        let e = Event {
            t_ms: refused.t_ms.saturating_add(10),
            kind,
            source: String::from_str(source),
            intent: refused.intent,
            trace: refused.trace.clone(),
            policy: None,
            reason: None,
        };
        let ghost spliced = e;
        log.events.push(e);
        let sorted = sort_by_time(&log.events);
        log.events = sorted;
        assert(is_event(spliced, ten_after(old(log).events@[i as int].t_ms), kind, source@,
            old(log).events@[i as int].intent, old(log).events@[i as int].trace@, None, None));
    }
}

/// Returns a corrupted copy. The original is never touched: a fault must not
/// be able to change the system's behaviour, only its record.
pub fn inject(log: &EventLog, fault: Fault) -> (r: EventLog)
    ensures
        injected(log.events@, fault, r.events@),
{
    let mut out = log.clone();
    match fault {
        Fault::NoFault => {},
        Fault::DropTrace => {
            if out.events.len() > 0 {
                let mut first = out.events.remove(0);
                first.trace = String::new();
                out.events.insert(0, first);
                assert(out.events@.drop_first() =~= log.events@.drop_first());
            }
        },
        Fault::NoTerminal => {
            let i = position(&out.events, None);
            if i < out.events.len() {
                let victim = out.events[i].intent;
                out.events = strip(&out.events, victim, None);
            }
        },
        Fault::NoPolicyId => {
            let i = position(&out.events, Some(EventKind::PolicyRefuse));
            if i < out.events.len() {
                let mut e = out.events.remove(i);
                e.policy = None;
                out.events.insert(i, e);
                assert(out.events@ =~= log.events@.update(i as int, Event { policy: None, ..log.events@[i as int] }));
            }
        },
        Fault::LeakPlanner => leak(&mut out, EventKind::StatePlanning, "planner"),
        Fault::LeakDriver => leak(&mut out, EventKind::DriverCommand, "driver"),
        Fault::NoIndeterminateReason => {
            let i = position(&out.events, Some(EventKind::PolicyIndeterminate));
            if i < out.events.len() {
                let mut e = out.events.remove(i);
                e.reason = None;
                out.events.insert(i, e);
                assert(out.events@ =~= log.events@.update(i as int, Event { reason: None, ..log.events@[i as int] }));
            }
        },
        Fault::NoIndeterminateTerminal => {
            let i = position(&out.events, Some(EventKind::IntentIndeterminate));
            if i < out.events.len() {
                let victim = out.events[i].intent;
                out.events = strip(&out.events, victim, Some(EventKind::IntentIndeterminate));
            }
        },
    }
    out
}

/// The invariant fault `f` is built to break.
pub open spec fn victim(f: Fault) -> Option<Invariant> {
    match f {
        Fault::NoFault => None,
        Fault::DropTrace => Some(Invariant::TraceId),
        Fault::NoTerminal => Some(Invariant::TerminalReconstructable),
        Fault::NoPolicyId => Some(Invariant::PolicyIdOnRefusal),
        Fault::LeakPlanner => Some(Invariant::NoPlanAfterRefusal),
        Fault::LeakDriver => Some(Invariant::NoActuationAfterRefusal),
        Fault::NoIndeterminateReason => Some(Invariant::ReasonOnIndeterminate),
        Fault::NoIndeterminateTerminal => Some(Invariant::TerminalReconstructable),
    }
}

/// The log `s` holds what fault `f` bites on, with `in_flight` the intent
/// exempt from finishing: an event at all; an intent that finished and has
/// other events besides; a refusal (for the driver leak, of an intent that was
/// not also left undecided); an undecided outcome; an intent whose only ending
/// is an indeterminate record and that has other events besides.
pub open spec fn exposes(s: Seq<Event>, f: Fault, in_flight: Option<IntentId>) -> bool {
    match f {
        Fault::NoFault => true,
        Fault::DropTrace => s.len() > 0,
        Fault::NoTerminal => {
            let i = first_where(s, None);
            &&& i < s.len()
            &&& in_flight != Some(s[i].intent)
            &&& exists|k: int| 0 <= k < s.len() && #[trigger] s[k].intent == s[i].intent && !terminal_kind(s[k].kind)
        },
        Fault::NoPolicyId | Fault::LeakPlanner => first_where(s, Some(EventKind::PolicyRefuse)) < s.len(),
        Fault::LeakDriver => {
            let i = first_where(s, Some(EventKind::PolicyRefuse));
            &&& i < s.len()
            &&& !logged(s, s[i].intent, KindClass::Undecided)
        },
        Fault::NoIndeterminateReason => first_where(s, Some(EventKind::PolicyIndeterminate)) < s.len(),
        Fault::NoIndeterminateTerminal => {
            let i = first_where(s, Some(EventKind::IntentIndeterminate));
            &&& i < s.len()
            &&& in_flight != Some(s[i].intent)
            &&& exists|k: int| 0 <= k < s.len() && #[trigger] s[k].intent == s[i].intent && s[k].kind != EventKind::IntentIndeterminate
            &&& forall|k: int|
                0 <= k < s.len() && #[trigger] s[k].intent == s[i].intent && terminal_kind(s[k].kind)
                    ==> s[k].kind == EventKind::IntentIndeterminate
        },
    }
}

proof fn lemma_stably_sorted_same_elements(a: Seq<Event>, b: Seq<Event>)
    requires
        stably_sorted(a, b),
    ensures
        forall|e: Event| a.contains(e) <==> b.contains(e),
{
    assert forall|e: Event| a.contains(e) <==> b.contains(e) by {
        lemma_select_contains(a, stamped(e.t_ms), e);
        lemma_select_contains(b, stamped(e.t_ms), e);
        assert(at_time(a, e.t_ms) == at_time(b, e.t_ms));
    }
}

/// Every invariant but the terminal one survives dropping events.
proof fn lemma_subset_holds(s: Seq<Event>, out: Seq<Event>, inv: Invariant, fl: Option<IntentId>)
    requires
        forall|e: Event| out.contains(e) ==> s.contains(e),
        inv != Invariant::TerminalReconstructable,
        holds(s, inv, fl),
    ensures
        holds(out, inv, fl),
{
    assert forall|k: int| 0 <= k < out.len() implies exists|j: int| 0 <= j < s.len() && s[j] == #[trigger] out[k] by {
        assert(out.contains(out[k]));
    }
    match inv {
        Invariant::TraceId => {
            assert forall|k: int| 0 <= k < out.len() implies #[trigger] out[k].trace@.len() > 0 by {
                let j = choose|j: int| 0 <= j < s.len() && s[j] == out[k];
            }
        },
        Invariant::PolicyIdOnRefusal => {
            assert forall|k: int| 0 <= k < out.len() && #[trigger] out[k].kind == EventKind::PolicyRefuse implies out[k].policy is Some by {
                let j = choose|j: int| 0 <= j < s.len() && s[j] == out[k];
            }
        },
        Invariant::ReasonOnIndeterminate => {
            assert forall|k: int| 0 <= k < out.len() && #[trigger] out[k].kind == EventKind::PolicyIndeterminate implies out[k].reason is Some by {
                let j = choose|j: int| 0 <= j < s.len() && s[j] == out[k];
            }
        },
        _ => {
            assert forall|id: IntentId, c: KindClass| #[trigger] logged(out, id, c) implies logged(s, id, c) by {
                let k = choose|k: int| 0 <= k < out.len() && #[trigger] out[k].intent == id && in_class(out[k].kind, c);
                let j = choose|j: int| 0 <= j < s.len() && s[j] == out[k];
                assert(s[j].intent == id);
            }
        },
    }
}

/// Every invariant survives a reshuffle that keeps the same events.
proof fn lemma_same_elements_holds(s: Seq<Event>, out: Seq<Event>, inv: Invariant, fl: Option<IntentId>)
    requires
        forall|e: Event| out.contains(e) <==> s.contains(e),
        holds(s, inv, fl),
    ensures
        holds(out, inv, fl),
{
    if inv == Invariant::TerminalReconstructable {
        assert forall|id: IntentId| #[trigger] mentions(out, id) && fl != Some(id) implies logged(out, id, KindClass::Terminal) by {
            let k = choose|k: int| 0 <= k < out.len() && #[trigger] out[k].intent == id;
            assert(out.contains(out[k]));
            let j = choose|j: int| 0 <= j < s.len() && s[j] == out[k];
            assert(s[j].intent == id);
            assert(mentions(s, id));
            let m = choose|m: int| 0 <= m < s.len() && #[trigger] s[m].intent == id && in_class(s[m].kind, KindClass::Terminal);
            assert(s.contains(s[m]));
            let n = choose|n: int| 0 <= n < out.len() && out[n] == s[m];
            assert(out[n].intent == id);
        }
    } else {
        lemma_subset_holds(s, out, inv, fl);
    }
}

/// Logs that agree event by event on intent and kind agree on what each
/// intent logged and on which intents they mention.
proof fn lemma_same_shape(s: Seq<Event>, out: Seq<Event>)
    requires
        out.len() == s.len(),
        forall|k: int| 0 <= k < s.len() ==> #[trigger] out[k].intent == s[k].intent && out[k].kind == s[k].kind,
    ensures
        forall|id: IntentId, c: KindClass| #[trigger] logged(out, id, c) == logged(s, id, c),
        forall|id: IntentId| #[trigger] mentions(out, id) == mentions(s, id),
{
    assert forall|id: IntentId, c: KindClass| #[trigger] logged(out, id, c) == logged(s, id, c) by {
        if logged(out, id, c) {
            let k = choose|k: int| 0 <= k < out.len() && #[trigger] out[k].intent == id && in_class(out[k].kind, c);
            assert(s[k].intent == id);
        }
        if logged(s, id, c) {
            let k = choose|k: int| 0 <= k < s.len() && #[trigger] s[k].intent == id && in_class(s[k].kind, c);
            assert(out[k].intent == id);
        }
    }
    assert forall|id: IntentId| #[trigger] mentions(out, id) == mentions(s, id) by {
        if mentions(out, id) {
            let k = choose|k: int| 0 <= k < out.len() && #[trigger] out[k].intent == id;
            assert(s[k].intent == id);
        }
        if mentions(s, id) {
            let k = choose|k: int| 0 <= k < s.len() && #[trigger] s[k].intent == id;
            assert(out[k].intent == id);
        }
    }
}

proof fn lemma_push_logged(s: Seq<Event>, e: Event)
    ensures
        forall|id: IntentId, c: KindClass|
            #[trigger] logged(s.push(e), id, c) == (logged(s, id, c) || (e.intent == id && in_class(e.kind, c))),
        forall|id: IntentId| #[trigger] mentions(s.push(e), id) == (mentions(s, id) || e.intent == id),
        forall|k: int| 0 <= k < s.len() ==> #[trigger] s.push(e)[k] == s[k],
{
    let t = s.push(e);
    assert forall|id: IntentId, c: KindClass|
        #[trigger] logged(t, id, c) == (logged(s, id, c) || (e.intent == id && in_class(e.kind, c))) by {
        if logged(t, id, c) {
            let k = choose|k: int| 0 <= k < t.len() && #[trigger] t[k].intent == id && in_class(t[k].kind, c);
            if k < s.len() {
                assert(s[k].intent == id);
            }
        }
        if logged(s, id, c) {
            let k = choose|k: int| 0 <= k < s.len() && #[trigger] s[k].intent == id && in_class(s[k].kind, c);
            assert(t[k].intent == id);
        }
        if e.intent == id && in_class(e.kind, c) {
            assert(t[s.len() as int].intent == id);
        }
    }
    assert forall|id: IntentId| #[trigger] mentions(t, id) == (mentions(s, id) || e.intent == id) by {
        if mentions(t, id) {
            let k = choose|k: int| 0 <= k < t.len() && #[trigger] t[k].intent == id;
            if k < s.len() {
                assert(s[k].intent == id);
            }
        }
        if mentions(s, id) {
            let k = choose|k: int| 0 <= k < s.len() && #[trigger] s[k].intent == id;
            assert(t[k].intent == id);
        }
        if e.intent == id {
            assert(t[s.len() as int].intent == id);
        }
    }
}

proof fn lemma_leak_discriminates(
    s: Seq<Event>,
    f: Fault,
    out: Seq<Event>,
    inv: Invariant,
    fl: Option<IntentId>,
)
    requires
        f == Fault::LeakPlanner || f == Fault::LeakDriver,
        injected(s, f, out),
        forall|i: Invariant| #[trigger] holds(s, i, fl),
        exposes(s, f, fl),
    ensures
        holds(out, inv, fl) == (victim(f) != Some(inv)),
{
    lemma_first_where(s, Some(EventKind::PolicyRefuse));
    let i = first_where(s, Some(EventKind::PolicyRefuse));
    let kind = if f == Fault::LeakPlanner { EventKind::StatePlanning } else { EventKind::DriverCommand };
    let source = if f == Fault::LeakPlanner { "planner"@ } else { "driver"@ };
    let e = choose|e: Event|
        #[trigger] is_event(e, ten_after(s[i].t_ms), kind, source, s[i].intent, s[i].trace@, None, None)
            && stably_sorted(s.push(e), out);
    let t = s.push(e);
    let v = s[i].intent;
    lemma_stably_sorted_same_elements(t, out);
    lemma_push_logged(s, e);
    assert(holds(s, Invariant::TraceId, fl));
    assert(holds(s, Invariant::TerminalReconstructable, fl));
    assert(holds(s, Invariant::PolicyIdOnRefusal, fl));
    assert(holds(s, Invariant::NoPlanAfterRefusal, fl));
    assert(holds(s, Invariant::NoActuationAfterRefusal, fl));
    assert(holds(s, Invariant::ReasonOnIndeterminate, fl));
    assert(holds(s, Invariant::NoActuationAfterIndeterminate, fl));
    assert(logged(s, v, KindClass::Refusal)) by {
        assert(s[i].intent == v);
    }
    assert(mentions(s, v)) by {
        assert(s[i].intent == v);
    }
    let holds_t = match inv {
        Invariant::TraceId => {
            assert forall|k: int| 0 <= k < t.len() implies #[trigger] t[k].trace@.len() > 0 by {
                if k < s.len() {
                    assert(t[k] == s[k]);
                }
            }
            true
        },
        Invariant::TerminalReconstructable => true,
        Invariant::PolicyIdOnRefusal => {
            assert forall|k: int| 0 <= k < t.len() && #[trigger] t[k].kind == EventKind::PolicyRefuse implies t[k].policy is Some by {
                if k < s.len() {
                    assert(t[k] == s[k]);
                }
            }
            true
        },
        Invariant::ReasonOnIndeterminate => {
            assert forall|k: int| 0 <= k < t.len() && #[trigger] t[k].kind == EventKind::PolicyIndeterminate implies t[k].reason is Some by {
                if k < s.len() {
                    assert(t[k] == s[k]);
                }
            }
            true
        },
        _ => true,
    };
    if victim(f) == Some(inv) {
        assert(!holds(t, inv, fl)) by {
            assert(logged(t, v, KindClass::Refusal));
        }
        if holds(out, inv, fl) {
            lemma_same_elements_holds(out, t, inv, fl);
        }
    } else {
        assert(holds(t, inv, fl));
        lemma_same_elements_holds(t, out, inv, fl);
    }
}

/// Each fault drops exactly the invariant it is built to break and leaves the
/// others standing, on any log that satisfies every invariant and holds what
/// the fault bites on.
pub proof fn each_fault_drops_exactly_its_own_invariant(
    s: Seq<Event>,
    f: Fault,
    out: Seq<Event>,
    inv: Invariant,
    fl: Option<IntentId>,
)
    requires
        injected(s, f, out),
        forall|i: Invariant| #[trigger] holds(s, i, fl),
        exposes(s, f, fl),
    ensures
        holds(out, inv, fl) == (victim(f) != Some(inv)),
{
    assert(holds(s, inv, fl));
    match f {
        Fault::NoFault => {},
        Fault::DropTrace => {
            assert forall|k: int| 0 <= k < s.len() implies #[trigger] out[k].intent == s[k].intent && out[k].kind
                == s[k].kind && out[k].policy == s[k].policy && out[k].reason == s[k].reason by {
                if k > 0 {
                    assert(out[k] == out.drop_first()[k - 1]);
                    assert(s[k] == s.drop_first()[k - 1]);
                }
            }
            lemma_same_shape(s, out);
            if inv == Invariant::TraceId {
                assert(out[0].trace@.len() == 0);
            } else if inv == Invariant::PolicyIdOnRefusal {
                assert forall|k: int| 0 <= k < out.len() && #[trigger] out[k].kind == EventKind::PolicyRefuse implies out[k].policy is Some by {
                    assert(out[k].intent == s[k].intent);
                    assert(s[k].kind == EventKind::PolicyRefuse);
                }
            } else if inv == Invariant::ReasonOnIndeterminate {
                assert forall|k: int| 0 <= k < out.len() && #[trigger] out[k].kind == EventKind::PolicyIndeterminate implies out[k].reason is Some by {
                    assert(out[k].intent == s[k].intent);
                    assert(s[k].kind == EventKind::PolicyIndeterminate);
                }
            }
        },
        Fault::NoPolicyId | Fault::NoIndeterminateReason => {
            let want = if f == Fault::NoPolicyId { EventKind::PolicyRefuse } else { EventKind::PolicyIndeterminate };
            lemma_first_where(s, Some(want));
            let i = first_where(s, Some(want));
            assert forall|k: int| 0 <= k < s.len() implies #[trigger] out[k].intent == s[k].intent && out[k].kind
                == s[k].kind && out[k].trace == s[k].trace && (k != i ==> out[k] == s[k]) by {}
            lemma_same_shape(s, out);
            if inv == victim(f)->Some_0 {
                assert(out[i].kind == want);
            }
        },
        Fault::NoTerminal | Fault::NoIndeterminateTerminal => {
            let want = if f == Fault::NoTerminal { None } else { Some(EventKind::IntentIndeterminate) };
            lemma_first_where(s, want);
            let i = first_where(s, want);
            let v = s[i].intent;
            assert forall|e: Event| out.contains(e) implies s.contains(e) by {
                lemma_select_contains(s, keeps(v, want), e);
            }
            if inv == Invariant::TerminalReconstructable {
                let k = choose|k: int| 0 <= k < s.len() && #[trigger] s[k].intent == v && if f == Fault::NoTerminal {
                    !terminal_kind(s[k].kind)
                } else {
                    s[k].kind != EventKind::IntentIndeterminate
                };
                lemma_select_contains(s, keeps(v, want), s[k]);
                assert(s.contains(s[k]));
                assert(out.contains(s[k]));
                let m = choose|m: int| 0 <= m < out.len() && out[m] == s[k];
                assert(mentions(out, v)) by {
                    assert(out[m].intent == v);
                }
                assert(!logged(out, v, KindClass::Terminal)) by {
                    if logged(out, v, KindClass::Terminal) {
                        let n = choose|n: int| 0 <= n < out.len() && #[trigger] out[n].intent == v && in_class(out[n].kind, KindClass::Terminal);
                        assert(out.contains(out[n]));
                        lemma_select_contains(s, keeps(v, want), out[n]);
                        let j = choose|j: int| 0 <= j < s.len() && s[j] == out[n];
                        assert(s[j].intent == v);
                    }
                }
            } else {
                lemma_subset_holds(s, out, inv, fl);
            }
        },
        _ => {
            lemma_leak_discriminates(s, f, out, inv, fl);
        },
    }
}

} // verus!
