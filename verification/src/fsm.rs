//! The lifecycle state machine.
//!
//! `Idle → Reasoning → Planning → Executing → Publishing → Idle`, with a
//! refusal or an unanswered intent in `Reasoning` returning straight to
//! `Idle`. Planning and executing are the only phases with side effects, and
//! they sit past the policy decision.

use vstd::prelude::*;

use crate::invariants::{logged, holds, in_class, Invariant, KindClass};
use crate::log::{is_event, mentions, Event, EventKind, EventLog};
use crate::policy::{
    adjudicate, adjudication, first_violation, Approved, Evaluator, IndeterminateReason, PolicyId, Verdict,
    VerdictKind, WorldFacts,
};
use crate::{Intent, IntentId, N_STATIONS};

verus! {

/// How long each phase lasts. Realism is not the point; being able to see
/// each phase is.
pub const REASON_MS: u32 = 450;
pub const PLAN_MS: u32 = 550;
pub const PUBLISH_MS: u32 = 350;
pub const TELEMETRY_PERIOD_MS: u32 = 250;

#[derive(Debug, Clone, Copy, PartialEq, Eq, Structural)]
pub enum State {
    Idle,
    Reasoning,
    Planning,
    Executing,
    Publishing,
}

/// The event that records entering state `s`.
pub open spec fn state_event(s: State) -> EventKind {
    match s {
        State::Idle => EventKind::StateIdle,
        State::Reasoning => EventKind::StateReasoning,
        State::Planning => EventKind::StatePlanning,
        State::Executing => EventKind::StateExecuting,
        State::Publishing => EventKind::StatePublishing,
    }
}

impl State {
    pub fn as_str(self) -> (r: &'static str)
        ensures
            r@ == match self {
                State::Idle => "IDLE"@,
                State::Reasoning => "REASONING"@,
                State::Planning => "PLANNING"@,
                State::Executing => "EXECUTING"@,
                State::Publishing => "PUBLISHING"@,
            },
    {
        match self {
            State::Idle => "IDLE",
            State::Reasoning => "REASONING",
            State::Planning => "PLANNING",
            State::Executing => "EXECUTING",
            State::Publishing => "PUBLISHING",
        }
    }

    fn event(self) -> (r: EventKind)
        ensures
            r == state_event(self),
    {
        match self {
            State::Idle => EventKind::StateIdle,
            State::Reasoning => EventKind::StateReasoning,
            State::Planning => EventKind::StatePlanning,
            State::Executing => EventKind::StateExecuting,
            State::Publishing => EventKind::StatePublishing,
        }
    }
}

/// The thing being governed.
///
/// Both side-effecting methods demand an [`Approved`], so an implementor
/// cannot offer a way to move that skips the policy decision.
pub trait Manipulator {
    /// Compute a trajectory; returns the number of waypoints.
    fn plan(&mut self, approved: &Approved, intent: &Intent) -> u32;

    /// Start moving along the planned trajectory.
    fn begin(&mut self, approved: &Approved);

    /// Still moving?
    fn busy(&self) -> bool;

    /// Advance physical state by `dt_ms`.
    fn tick(&mut self, dt_ms: u32);
}

/// A call made on a governed manipulator, as its history records it.
pub enum Call {
    /// Physical state advanced by this many milliseconds.
    Tick(u32),
    /// A trajectory planned for `intent` under an approval of `approved`.
    Plan { approved: IntentId, intent: IntentId },
    /// Motion started under an approval of this intent.
    Begin(IntentId),
    /// Asked whether it is still moving; it answered this.
    Busy(bool),
}

/// A manipulator together with the history of every call made on it through
/// this wrapper, which is the only way [`Agent::tick`] reaches it.
pub struct Governed<M: Manipulator> {
    robot: M,
    history: Ghost<Seq<Call>>,
}

impl<M: Manipulator> Governed<M> {
    /// Every call made on the manipulator so far, in order.
    pub closed spec fn calls(&self) -> Seq<Call> {
        self.history@
    }

    pub fn new(robot: M) -> (r: Self)
        ensures
            r.calls() == Seq::<Call>::empty(),
    {
        Governed { robot, history: Ghost(Seq::empty()) }
    }

    /// The manipulator, to look at.
    pub fn robot(&self) -> &M {
        &self.robot
    }

    /// The manipulator, released from governance.
    pub fn into_robot(self) -> M {
        self.robot
    }

    fn plan(&mut self, approved: &Approved, intent: &Intent) -> (r: u32)
        ensures
            final(self).calls() == old(self).calls().push(
                Call::Plan { approved: approved.approved_intent(), intent: intent.id },
            ),
    {
        let r = self.robot.plan(approved, intent);
        self.history = Ghost(self.history@.push(Call::Plan { approved: approved.approved_intent(), intent: intent.id }));
        r
    }

    fn begin(&mut self, approved: &Approved)
        ensures
            final(self).calls() == old(self).calls().push(Call::Begin(approved.approved_intent())),
    {
        self.robot.begin(approved);
        self.history = Ghost(self.history@.push(Call::Begin(approved.approved_intent())));
    }

    fn busy(&mut self) -> (r: bool)
        ensures
            final(self).calls() == old(self).calls().push(Call::Busy(r)),
    {
        let r = self.robot.busy();
        self.history = Ghost(self.history@.push(Call::Busy(r)));
        r
    }

    fn tick(&mut self, dt_ms: u32)
        ensures
            final(self).calls() == old(self).calls().push(Call::Tick(dt_ms)),
    {
        self.robot.tick(dt_ms);
        self.history = Ghost(self.history@.push(Call::Tick(dt_ms)));
    }
}

/// The outcome of the most recent decision, for display.
#[derive(Debug, Clone, Copy, PartialEq, Eq, Structural)]
pub enum LastDecision {
    NoneYet,
    Approved { intent: IntentId },
    Refused { intent: IntentId, policy: PolicyId },
    /// Nobody decided; kept apart from `Refused`.
    Indeterminate { intent: IntentId, reason: IndeterminateReason },
}

pub struct Agent {
    pub name: &'static str,
    pub state: State,
    pub queue: Vec<Intent>,
    pub last: LastDecision,
    pub completed: u32,
    pub refused: u32,
    pub indeterminate: u32,
    /// Whether the policy authority can answer.
    pub evaluator: Evaluator,
    /// Where the agent is within the current intent.
    pub progress: Progress,
}

/// The agent's private bookkeeping: phase timers, the intent in flight, and
/// the approval held for it.
pub struct Progress {
    timer_ms: i64,
    telemetry_due_ms: i64,
    current: Option<Intent>,
    /// Held only between approval and the end of execution.
    approved: Option<Approved>,
}

/// `timer - dt`, held at the bottom of the `i64` range.
pub open spec fn after_ms(timer: i64, dt: u32) -> i64 {
    if timer - dt >= i64::MIN {
        (timer - dt) as i64
    } else {
        i64::MIN
    }
}

fn count_down(timer: i64, dt: u32) -> (r: i64)
    ensures
        r == after_ms(timer, dt),
{
    let d = dt as i64;
    if timer >= i64::MIN + d {
        timer - d
    } else {
        i64::MIN
    }
}

/// The source of the events that record a state change of agent `name`.
pub open spec fn state_source(name: &str) -> Seq<char> {
    "manipulator/"@ + name@
}

/// `post` is `pre` with `n` events appended.
pub open spec fn appended(pre: Seq<Event>, post: Seq<Event>, n: int) -> bool {
    &&& post.len() == pre.len() + n
    &&& post.subrange(0, pre.len() as int) == pre
}

impl Agent {
    /// The intent being processed, if any.
    pub closed spec fn current_intent(&self) -> Option<Intent> {
        self.progress.current
    }

    /// The approval held for the current intent, if any.
    pub closed spec fn approval(&self) -> Option<Approved> {
        self.progress.approved
    }

    /// Time left in the current phase.
    pub closed spec fn timer(&self) -> i64 {
        self.progress.timer_ms
    }

    /// Time left until the next telemetry row while executing.
    pub closed spec fn telemetry_due(&self) -> i64 {
        self.progress.telemetry_due_ms
    }

    /// The id of the intent in flight, if any.
    pub open spec fn in_flight(&self) -> Option<IntentId> {
        match self.current_intent() {
            Some(i) => Some(i.id),
            None => None,
        }
    }

    /// The agent's own consistency: an intent is in flight exactly outside
    /// `Idle`, an approval for it is held exactly in the phases past the policy decision,
    pub open spec fn wf(&self) -> bool {
        &&& (self.state == State::Idle) == (self.current_intent() is None)
        &&& (self.state == State::Idle || self.state == State::Reasoning) ==> self.approval() is None
        &&& (self.state == State::Planning || self.state == State::Executing || self.state
            == State::Publishing) ==> (self.approval() matches Some(a) && a.approved_intent()
            == self.current_intent()->Some_0.id)
    }

    /// `post` is `pre` with nothing changed but the phase timer, now `timer`.
    pub open spec fn waited(pre: Agent, post: Agent, timer: i64) -> bool {
        &&& post.state == pre.state
        &&& post.queue@ == pre.queue@
        &&& post.last == pre.last
        &&& post.completed == pre.completed
        &&& post.refused == pre.refused
        &&& post.indeterminate == pre.indeterminate
        &&& post.current_intent() == pre.current_intent()
        &&& post.approval() == pre.approval()
        &&& post.telemetry_due() == pre.telemetry_due()
        &&& post.timer() == timer
    }

    /// Idle with work queued: the head of the queue is routed, resolved and
    /// taken into reasoning.
    pub open spec fn took_next(pre: Agent, post: Agent, pl: Seq<Event>, ql: Seq<Event>, t: u64) -> bool {
        let i = pre.queue@[0];
        let n = pl.len() as int;
        &&& post.state == State::Reasoning
        &&& post.current_intent() == Some(i)
        &&& post.queue@ == pre.queue@.drop_first()
        &&& post.approval() is None
        &&& post.last == pre.last
        &&& post.completed == pre.completed
        &&& post.refused == pre.refused
        &&& post.indeterminate == pre.indeterminate
        &&& post.timer() == REASON_MS
        &&& post.telemetry_due() == pre.telemetry_due()
        &&& appended(pl, ql, 3)
        &&& is_event(ql[n], t, EventKind::MeshRoute, "mesh"@, i.id, i.trace@, None, None)
        &&& is_event(ql[n + 1], t, EventKind::EnvResolve, "environment"@, i.id, i.trace@, None, None)
        &&& is_event(ql[n + 2], t, EventKind::StateReasoning, state_source(pre.name), i.id, i.trace@, None, None)
    }

    /// Reasoning is over: policy adjudicates the intent in flight.
    pub open spec fn decided(
        pre: Agent,
        post: Agent,
        pl: Seq<Event>,
        ql: Seq<Event>,
        t: u64,
        timer: i64,
        facts: WorldFacts,
    ) -> bool {
        let i = pre.current_intent()->Some_0;
        let n = pl.len() as int;
        &&& post.queue@ == pre.queue@
        &&& post.telemetry_due() == pre.telemetry_due()
        &&& match adjudication(i, facts, pre.evaluator, REASON_MS) {
            VerdictKind::Indeterminate(r) => {
                &&& post.state == State::Idle
                &&& post.current_intent() is None
                &&& post.approval() is None
                &&& post.last == (LastDecision::Indeterminate { intent: i.id, reason: r })
                &&& post.indeterminate == pre.indeterminate + 1
                &&& post.refused == pre.refused
                &&& post.completed == pre.completed
                &&& post.timer() == timer
                &&& appended(pl, ql, 3)
                &&& is_event(ql[n], t, EventKind::PolicyIndeterminate, "policy_authority"@, i.id, i.trace@, None, Some(r))
                &&& is_event(ql[n + 1], t, EventKind::StateIdle, state_source(pre.name), i.id, i.trace@, None, None)
                &&& is_event(ql[n + 2], t, EventKind::IntentIndeterminate, "policy_authority"@, i.id, i.trace@, None, Some(r))
            },
            VerdictKind::Refused(p) => {
                &&& post.state == State::Idle
                &&& post.current_intent() is None
                &&& post.approval() is None
                &&& post.last == (LastDecision::Refused { intent: i.id, policy: p })
                &&& post.refused == pre.refused + 1
                &&& post.indeterminate == pre.indeterminate
                &&& post.completed == pre.completed
                &&& post.timer() == timer
                &&& appended(pl, ql, 3)
                &&& is_event(ql[n], t, EventKind::PolicyRefuse, "policy_authority"@, i.id, i.trace@, Some(p), None)
                &&& is_event(ql[n + 1], t, EventKind::StateIdle, state_source(pre.name), i.id, i.trace@, None, None)
                &&& is_event(ql[n + 2], t, EventKind::IntentRefused, "telemetry"@, i.id, i.trace@, None, None)
            },
            VerdictKind::Approved => {
                &&& post.state == State::Planning
                &&& post.current_intent() == pre.current_intent()
                &&& (post.approval() matches Some(a) && a.approved_intent() == i.id
                    && a.approved_trace() == i.trace@)
                &&& post.last == (LastDecision::Approved { intent: i.id })
                &&& post.refused == pre.refused
                &&& post.indeterminate == pre.indeterminate
                &&& post.completed == pre.completed
                &&& post.timer() == PLAN_MS
                &&& appended(pl, ql, 2)
                &&& is_event(ql[n], t, EventKind::PolicyOk, "policy_authority"@, i.id, i.trace@, None, None)
                &&& is_event(ql[n + 1], t, EventKind::StatePlanning, state_source(pre.name), i.id, i.trace@, None, None)
            },
        }
    }

    /// Planning is over: the plan is computed and the driver commanded.
    pub open spec fn dispatched(pre: Agent, post: Agent, pl: Seq<Event>, ql: Seq<Event>, t: u64, timer: i64) -> bool {
        let i = pre.current_intent()->Some_0;
        let n = pl.len() as int;
        &&& post.state == State::Executing
        &&& post.queue@ == pre.queue@
        &&& post.last == pre.last
        &&& post.completed == pre.completed
        &&& post.refused == pre.refused
        &&& post.indeterminate == pre.indeterminate
        &&& post.current_intent() == pre.current_intent()
        &&& post.approval() == pre.approval()
        &&& post.timer() == timer
        &&& post.telemetry_due() == TELEMETRY_PERIOD_MS
        &&& appended(pl, ql, 3)
        &&& is_event(ql[n], t, EventKind::PlanComputed, "planner"@, i.id, i.trace@, None, None)
        &&& is_event(ql[n + 1], t, EventKind::DriverCommand, "driver"@, i.id, i.trace@, None, None)
        &&& is_event(ql[n + 2], t, EventKind::StateExecuting, state_source(pre.name), i.id, i.trace@, None, None)
    }

    /// Executing: telemetry on its period, and publishing once the manipulator
    /// is no longer busy.
    pub open spec fn executed(
        pre: Agent,
        post: Agent,
        pl: Seq<Event>,
        ql: Seq<Event>,
        t: u64,
        dt: u32,
        timer: i64,
    ) -> bool {
        let i = pre.current_intent()->Some_0;
        let n = pl.len() as int;
        let due = after_ms(pre.telemetry_due(), dt);
        let ping = due <= 0;
        let m: int = if ping { 1 } else { 0 };
        &&& post.queue@ == pre.queue@
        &&& post.last == pre.last
        &&& post.completed == pre.completed
        &&& post.refused == pre.refused
        &&& post.indeterminate == pre.indeterminate
        &&& post.current_intent() == pre.current_intent()
        &&& post.approval() == pre.approval()
        &&& post.telemetry_due() == if ping { TELEMETRY_PERIOD_MS as i64 } else { due }
        &&& ping ==> is_event(ql[n], t, EventKind::Telemetry, "driver"@, i.id, i.trace@, None, None)
        &&& {
            ||| post.state == State::Executing && appended(pl, ql, m) && post.timer() == timer
            ||| post.state == State::Publishing && appended(pl, ql, m + 1) && post.timer() == PUBLISH_MS
                && is_event(ql[n + m], t, EventKind::StatePublishing, state_source(pre.name), i.id, i.trace@, None, None)
        }
    }

    /// Publishing is over: the intent completes and the agent is idle again.
    pub open spec fn published(pre: Agent, post: Agent, pl: Seq<Event>, ql: Seq<Event>, t: u64, timer: i64) -> bool {
        let i = pre.current_intent()->Some_0;
        let n = pl.len() as int;
        &&& post.state == State::Idle
        &&& post.queue@ == pre.queue@
        &&& post.last == pre.last
        &&& post.completed == pre.completed + 1
        &&& post.refused == pre.refused
        &&& post.indeterminate == pre.indeterminate
        &&& post.current_intent() is None
        &&& post.approval() is None
        &&& post.timer() == timer
        &&& post.telemetry_due() == pre.telemetry_due()
        &&& appended(pl, ql, 2)
        &&& is_event(ql[n], t, EventKind::IntentComplete, "telemetry"@, i.id, i.trace@, None, None)
        &&& is_event(ql[n + 1], t, EventKind::StateIdle, state_source(pre.name), i.id, i.trace@, None, None)
    }

    /// One lifecycle step from `pre` to `post` with the log going from `pl`
    /// to `ql`, `dt` milliseconds after the last, at time `t`.
    pub open spec fn step(
        pre: Agent,
        post: Agent,
        pl: Seq<Event>,
        ql: Seq<Event>,
        dt: u32,
        t: u64,
        facts: WorldFacts,
    ) -> bool {
        let timer = after_ms(pre.timer(), dt);
        &&& post.name == pre.name
        &&& post.evaluator == pre.evaluator
        &&& match pre.state {
            State::Idle => if pre.queue@.len() == 0 {
                Agent::waited(pre, post, timer) && ql == pl
            } else {
                Agent::took_next(pre, post, pl, ql, t)
            },
            State::Reasoning => if timer > 0 {
                Agent::waited(pre, post, timer) && ql == pl
            } else {
                Agent::decided(pre, post, pl, ql, t, timer, facts)
            },
            State::Planning => if timer > 0 {
                Agent::waited(pre, post, timer) && ql == pl
            } else {
                Agent::dispatched(pre, post, pl, ql, t, timer)
            },
            State::Executing => Agent::executed(pre, post, pl, ql, t, dt, timer),
            State::Publishing => if timer > 0 {
                Agent::waited(pre, post, timer) && ql == pl
            } else {
                Agent::published(pre, post, pl, ql, t, timer)
            },
        }
    }

    /// Whether the authority would evaluate the intent in flight: it is
    /// reachable and answers within the reasoning budget.
    pub open spec fn evaluates(a: Agent) -> bool {
        a.evaluator.reachable && a.evaluator.latency_ms <= REASON_MS
    }

    /// Whether a step `dt` after `pre` ends planning and drives the
    /// manipulator.
    pub open spec fn dispatching(pre: Agent, dt: u32) -> bool {
        pre.state == State::Planning && after_ms(pre.timer(), dt) <= 0
    }

    /// The calls that dispatching the intent in flight makes on the
    /// manipulator: plan it, then start it, both under its approval.
    pub open spec fn dispatch_calls(pre: Agent) -> Seq<Call> {
        let id = pre.current_intent()->Some_0.id;
        seq![Call::Plan { approved: id, intent: id }, Call::Begin(id)]
    }

    /// The calls a step from `pre` to `post`, `dt` later, makes on the
    /// manipulator after ticking it: plan and start the intent in flight when
    /// planning ends, ask whether it is still moving while executing (and
    /// publish exactly when it is not), and nothing otherwise.
    pub open spec fn robot_calls(pre: Agent, post: Agent, dt: u32) -> Seq<Call> {
        if Agent::dispatching(pre, dt) {
            Agent::dispatch_calls(pre)
        } else if pre.state == State::Executing {
            seq![Call::Busy(post.state != State::Publishing)]
        } else {
            Seq::empty()
        }
    }

    pub fn new(name: &'static str) -> (r: Self)
        ensures
            r.name == name,
            r.state == State::Idle,
            r.queue@.len() == 0,
            r.last == LastDecision::NoneYet,
            r.completed == 0,
            r.refused == 0,
            r.indeterminate == 0,
            r.evaluator == (Evaluator { reachable: true, latency_ms: 0 }),
            r.current_intent() is None,
            r.approval() is None,
            r.wf(),
            sound_record(r, Seq::empty()),
            approval_on_record(r, Seq::empty()),
    {
        Agent {
            name,
            state: State::Idle,
            queue: Vec::new(),
            last: LastDecision::NoneYet,
            completed: 0,
            refused: 0,
            indeterminate: 0,
            evaluator: Evaluator::default(),
            progress: Progress { timer_ms: 0, telemetry_due_ms: 0, current: None, approved: None },
        }
    }

    /// Queues `intent` behind whatever is already waiting.
    pub fn submit(&mut self, intent: Intent)
        ensures
            final(self).queue@ == old(self).queue@.push(intent),
            final(self).name == old(self).name,
            final(self).state == old(self).state,
            final(self).last == old(self).last,
            final(self).completed == old(self).completed,
            final(self).refused == old(self).refused,
            final(self).indeterminate == old(self).indeterminate,
            final(self).evaluator == old(self).evaluator,
            final(self).current_intent() == old(self).current_intent(),
            final(self).approval() == old(self).approval(),
            final(self).timer() == old(self).timer(),
            final(self).telemetry_due() == old(self).telemetry_due(),
            old(self).wf() ==> final(self).wf(),
            forall|s: Seq<Event>|
                sound_record(*old(self), s) && fresh(intent, *old(self), s) && unqueued(intent.id, *old(self))
                    ==> #[trigger] sound_record(*final(self), s),
            forall|s: Seq<Event>|
                approval_on_record(*old(self), s) ==> #[trigger] approval_on_record(*final(self), s),
    {
        self.queue.push(intent);
        proof {
            assert forall|s: Seq<Event>|
                sound_record(*old(self), s) && fresh(intent, *old(self), s) && unqueued(intent.id, *old(self))
                    implies #[trigger] sound_record(*self, s) by {
                assert forall|k: int| 0 <= k < self.queue@.len() implies fresh(#[trigger] self.queue@[k], *self, s) by {
                    if k < old(self).queue@.len() {
                        assert(self.queue@[k] == old(self).queue@[k]);
                        assert(fresh(old(self).queue@[k], *old(self), s));
                    }
                }
                assert forall|j: int, k: int|
                    0 <= j < k < self.queue@.len() implies #[trigger] self.queue@[j].id != #[trigger] self.queue@[k].id by {
                    assert(self.queue@[j] == old(self).queue@[j]);
                    if k < old(self).queue@.len() {
                        assert(self.queue@[k] == old(self).queue@[k]);
                    }
                }
            }
        }
    }

    pub fn current(&self) -> (r: Option<&Intent>)
        ensures
            match self.current_intent() {
                Some(i) => r matches Some(j) && *j == i,
                None => r is None,
            },
    {
        self.progress.current.as_ref()
    }

    fn transition(&mut self, to: State, t: u64, log: &mut EventLog)
        ensures
            final(self).state == to,
            final(self).name == old(self).name,
            final(self).queue@ == old(self).queue@,
            final(self).last == old(self).last,
            final(self).completed == old(self).completed,
            final(self).refused == old(self).refused,
            final(self).indeterminate == old(self).indeterminate,
            final(self).evaluator == old(self).evaluator,
            final(self).current_intent() == old(self).current_intent(),
            final(self).approval() == old(self).approval(),
            final(self).timer() == old(self).timer(),
            final(self).telemetry_due() == old(self).telemetry_due(),
            final(log).events@.len() == old(log).events@.len() + 1,
            final(log).events@.drop_last() == old(log).events@,
            match old(self).current_intent() {
                Some(i) => is_event(final(log).events@.last(), t, state_event(to), state_source(old(self).name), i.id, i.trace@, None, None),
                None => is_event(final(log).events@.last(), t, state_event(to), state_source(old(self).name), 0, Seq::empty(), None, None),
            },
    {
        self.state = to;
        let mut source = String::from_str("manipulator/");
        source.append(self.name);
        match &self.progress.current {
            Some(i) => log.record(t, to.event(), source.as_str(), i.id, i.trace.as_str()),
            None => {
                let empty = String::new();
                log.record(t, to.event(), source.as_str(), 0, empty.as_str());
            },
        }
    }
}

/// One more event at the end of the log keeps everything before it.
proof fn lemma_grew(a: Seq<Event>, b: Seq<Event>)
    requires
        b.len() == a.len() + 1,
        b.drop_last() == a,
    ensures
        forall|k: int| 0 <= k < a.len() ==> #[trigger] b[k] == a[k],
        b[a.len() as int] == b.last(),
        b.subrange(0, a.len() as int) == a,
{
    assert(forall|k: int| 0 <= k < a.len() ==> #[trigger] b[k] == b.drop_last()[k]);
    assert(b.subrange(0, a.len() as int) =~= a);
}

impl Agent {
    fn take_next(&mut self, t: u64, log: &mut EventLog)
        requires
            old(self).state == State::Idle,
            old(self).wf(),
            old(self).queue@.len() > 0,
        ensures
            Agent::took_next(*old(self), *final(self), old(log).events@, final(log).events@, t),
            final(self).name == old(self).name,
            final(self).evaluator == old(self).evaluator,
            final(self).wf(),
    {
        let ghost s0 = log.events@;
        let intent = self.queue.remove(0);
        log.record(t, EventKind::MeshRoute, "mesh", intent.id, intent.trace.as_str());
        let ghost s1 = log.events@;
        log.record(t, EventKind::EnvResolve, "environment", intent.id, intent.trace.as_str());
        let ghost s2 = log.events@;
        self.progress.current = Some(intent);
        self.transition(State::Reasoning, t, log);
        let ghost s3 = log.events@;
        self.progress.timer_ms = REASON_MS as i64;
        proof {
            lemma_grew(s0, s1);
            lemma_grew(s1, s2);
            lemma_grew(s2, s3);
            assert(s3.subrange(0, s0.len() as int) =~= s0);
            assert(self.queue@ =~= old(self).queue@.drop_first());
        }
    }

    fn decide(&mut self, t: u64, facts: &WorldFacts, log: &mut EventLog)
        requires
            old(self).state == State::Reasoning,
            old(self).wf(),
            old(self).refused < u32::MAX,
            old(self).indeterminate < u32::MAX,
            Agent::evaluates(*old(self)) ==> old(self).current_intent()->Some_0.dest < N_STATIONS,
        ensures
            Agent::decided(*old(self), *final(self), old(log).events@, final(log).events@, t, old(self).timer(), *facts),
            final(self).name == old(self).name,
            final(self).evaluator == old(self).evaluator,
            final(self).wf(),
    {
        let ghost s0 = log.events@;
        let cur = self.progress.current.as_ref().unwrap();
        let id = cur.id;
        let trace = cur.trace.clone();
        let verdict = adjudicate(cur, facts, &self.evaluator, REASON_MS);
        match verdict {
            Verdict::Indeterminate(ind) => {
                log.record_indeterminate(t, EventKind::PolicyIndeterminate, id, trace.as_str(), ind.reason);
                let ghost s1 = log.events@;
                self.transition(State::Idle, t, log);
                let ghost s2 = log.events@;
                log.record_indeterminate(t, EventKind::IntentIndeterminate, id, trace.as_str(), ind.reason);
                let ghost s3 = log.events@;
                self.indeterminate = self.indeterminate + 1;
                self.last = LastDecision::Indeterminate { intent: id, reason: ind.reason };
                self.progress.current = None;
                self.progress.approved = None;
                proof {
                    lemma_grew(s0, s1);
                    lemma_grew(s1, s2);
                    lemma_grew(s2, s3);
                    assert(s3.subrange(0, s0.len() as int) =~= s0);
                }
            },
            Verdict::Refused(refusal) => {
                log.record_policy(t, EventKind::PolicyRefuse, id, trace.as_str(), refusal.policy);
                let ghost s1 = log.events@;
                self.transition(State::Idle, t, log);
                let ghost s2 = log.events@;
                log.record(t, EventKind::IntentRefused, "telemetry", id, trace.as_str());
                let ghost s3 = log.events@;
                self.refused = self.refused + 1;
                self.last = LastDecision::Refused { intent: id, policy: refusal.policy };
                self.progress.current = None;
                self.progress.approved = None;
                proof {
                    lemma_grew(s0, s1);
                    lemma_grew(s1, s2);
                    lemma_grew(s2, s3);
                    assert(s3.subrange(0, s0.len() as int) =~= s0);
                }
            },
            Verdict::Approved(approved) => {
                log.record(t, EventKind::PolicyOk, "policy_authority", id, trace.as_str());
                let ghost s1 = log.events@;
                self.last = LastDecision::Approved { intent: id };
                self.progress.approved = Some(approved);
                self.transition(State::Planning, t, log);
                let ghost s2 = log.events@;
                self.progress.timer_ms = PLAN_MS as i64;
                proof {
                    lemma_grew(s0, s1);
                    lemma_grew(s1, s2);
                    assert(s2.subrange(0, s0.len() as int) =~= s0);
                }
            },
        }
    }

    fn dispatch<M: Manipulator>(&mut self, t: u64, robot: &mut Governed<M>, log: &mut EventLog)
        requires
            old(self).state == State::Planning,
            old(self).wf(),
        ensures
            Agent::dispatched(*old(self), *final(self), old(log).events@, final(log).events@, t, old(self).timer()),
            final(robot).calls() == old(robot).calls() + Agent::dispatch_calls(*old(self)),
            final(self).name == old(self).name,
            final(self).evaluator == old(self).evaluator,
            final(self).wf(),
    {
        let ghost s0 = log.events@;
        let cur = self.progress.current.as_ref().unwrap();
        let approved = self.progress.approved.as_ref().unwrap();
        let _waypoints = robot.plan(approved, cur);
        log.record(t, EventKind::PlanComputed, "planner", cur.id, cur.trace.as_str());
        let ghost s1 = log.events@;
        robot.begin(approved);
        log.record(t, EventKind::DriverCommand, "driver", cur.id, cur.trace.as_str());
        let ghost s2 = log.events@;
        self.transition(State::Executing, t, log);
        let ghost s3 = log.events@;
        self.progress.telemetry_due_ms = TELEMETRY_PERIOD_MS as i64;
        proof {
            lemma_grew(s0, s1);
            lemma_grew(s1, s2);
            lemma_grew(s2, s3);
            assert(s3.subrange(0, s0.len() as int) =~= s0);
            assert(robot.calls() =~= old(robot).calls() + Agent::dispatch_calls(*old(self)));
        }
    }

    fn execute<M: Manipulator>(&mut self, dt_ms: u32, t: u64, robot: &mut Governed<M>, log: &mut EventLog)
        requires
            old(self).state == State::Executing,
            old(self).wf(),
        ensures
            Agent::executed(*old(self), *final(self), old(log).events@, final(log).events@, t, dt_ms, old(self).timer()),
            final(robot).calls() == old(robot).calls().push(Call::Busy(final(self).state != State::Publishing)),
            final(self).name == old(self).name,
            final(self).evaluator == old(self).evaluator,
            final(self).wf(),
    {
        let ghost s0 = log.events@;
        self.progress.telemetry_due_ms = count_down(self.progress.telemetry_due_ms, dt_ms);
        if self.progress.telemetry_due_ms <= 0 {
            self.progress.telemetry_due_ms = TELEMETRY_PERIOD_MS as i64;
            let cur = self.progress.current.as_ref().unwrap();
            log.record(t, EventKind::Telemetry, "driver", cur.id, cur.trace.as_str());
            proof {
                lemma_grew(s0, log.events@);
            }
        }
        let ghost s1 = log.events@;
        if !robot.busy() {
            self.transition(State::Publishing, t, log);
            self.progress.timer_ms = PUBLISH_MS as i64;
            proof {
                lemma_grew(s1, log.events@);
            }
        }
        assert(log.events@.subrange(0, s0.len() as int) =~= s0);
    }

    fn publish(&mut self, t: u64, log: &mut EventLog)
        requires
            old(self).state == State::Publishing,
            old(self).wf(),
            old(self).completed < u32::MAX,
        ensures
            Agent::published(*old(self), *final(self), old(log).events@, final(log).events@, t, old(self).timer()),
            final(self).name == old(self).name,
            final(self).evaluator == old(self).evaluator,
            final(self).wf(),
    {
        let ghost s0 = log.events@;
        let cur = self.progress.current.as_ref().unwrap();
        log.record(t, EventKind::IntentComplete, "telemetry", cur.id, cur.trace.as_str());
        let ghost s1 = log.events@;
        self.completed = self.completed + 1;
        self.transition(State::Idle, t, log);
        let ghost s2 = log.events@;
        self.progress.current = None;
        self.progress.approved = None;
        proof {
            lemma_grew(s0, s1);
            lemma_grew(s1, s2);
            assert(s2.subrange(0, s0.len() as int) =~= s0);
        }
    }

    /// One step of the lifecycle, `dt_ms` after the last, at time `t_ms`.
    pub fn tick<M: Manipulator>(
        &mut self,
        dt_ms: u32,
        t_ms: u64,
        facts: &WorldFacts,
        robot: &mut Governed<M>,
        log: &mut EventLog,
    )
        requires
            old(self).wf(),
            old(self).state == State::Publishing ==> old(self).completed < u32::MAX,
            old(self).state == State::Reasoning ==> old(self).refused < u32::MAX
                && old(self).indeterminate < u32::MAX,
            old(self).state == State::Reasoning && Agent::evaluates(*old(self))
                ==> old(self).current_intent()->Some_0.dest < N_STATIONS,
        ensures
            final(self).wf(),
            Agent::step(*old(self), *final(self), old(log).events@, final(log).events@, dt_ms, t_ms, *facts),
            final(robot).calls() == old(robot).calls().push(Call::Tick(dt_ms)) + Agent::robot_calls(
                *old(self),
                *final(self),
                dt_ms,
            ),
            sound_record(*old(self), old(log).events@) ==> sound_record(*final(self), final(log).events@),
            approval_on_record(*old(self), old(log).events@) ==> approval_on_record(
                *final(self),
                final(log).events@,
            ),
    {
        let ghost pre = *self;
        let ghost pl = log.events@;
        robot.tick(dt_ms);
        let ghost ticked = robot.calls();
        self.progress.timer_ms = count_down(self.progress.timer_ms, dt_ms);
        match self.state {
            State::Idle => {
                if self.queue.len() == 0 {
                    assert(robot.calls() =~= ticked + Seq::<Call>::empty());
                    return;
                }
                self.take_next(t_ms, log);
                assert(robot.calls() =~= ticked + Seq::<Call>::empty());
            },
            State::Reasoning => {
                if self.progress.timer_ms > 0 {
                    assert(robot.calls() =~= ticked + Seq::<Call>::empty());
                    return;
                }
                self.decide(t_ms, facts, log);
                assert(robot.calls() =~= ticked + Seq::<Call>::empty());
            },
            State::Planning => {
                if self.progress.timer_ms > 0 {
                    assert(robot.calls() =~= ticked + Seq::<Call>::empty());
                    return;
                }
                self.dispatch(t_ms, robot, log);
            },
            State::Executing => {
                self.execute(dt_ms, t_ms, robot, log);
                assert(robot.calls() =~= ticked + Agent::robot_calls(pre, *self, dt_ms));
            },
            State::Publishing => {
                if self.progress.timer_ms > 0 {
                    assert(robot.calls() =~= ticked + Seq::<Call>::empty());
                    return;
                }
                self.publish(t_ms, log);
                assert(robot.calls() =~= ticked + Seq::<Call>::empty());
            },
        }
        proof {
            if sound_record(pre, pl) {
                step_keeps_record_sound(pre, *self, pl, log.events@, dt_ms, t_ms, *facts);
            }
            if approval_on_record(pre, pl) {
                step_keeps_approval_on_record(pre, *self, pl, log.events@, dt_ms, t_ms, *facts);
            }
        }
    }
}

/// Whether one of the events `pl` grew into `ql` by is of class `c`.
pub open spec fn tail_has(pl: Seq<Event>, ql: Seq<Event>, c: KindClass) -> bool {
    exists|k: int| pl.len() <= k < ql.len() && in_class(#[trigger] ql[k].kind, c)
}

/// The record `s` that agent `a` has written is sound: it satisfies every
/// invariant with `a`'s intent in flight, the intent in flight has not been
/// refused or left undecided (and, while reasoning, has not planned or moved),
/// and every queued intent is fresh: traced, distinct, and not yet in `s`.
pub open spec fn sound_record(a: Agent, s: Seq<Event>) -> bool {
    &&& holds(s, Invariant::TraceId, a.in_flight())
    &&& holds(s, Invariant::TerminalReconstructable, a.in_flight())
    &&& holds(s, Invariant::PolicyIdOnRefusal, a.in_flight())
    &&& holds(s, Invariant::NoPlanAfterRefusal, a.in_flight())
    &&& holds(s, Invariant::NoActuationAfterRefusal, a.in_flight())
    &&& holds(s, Invariant::ReasonOnIndeterminate, a.in_flight())
    &&& holds(s, Invariant::NoActuationAfterIndeterminate, a.in_flight())
    &&& a.current_intent() matches Some(i) ==> {
        &&& i.trace@.len() > 0
        &&& !logged(s, i.id, KindClass::Refusal)
        &&& !logged(s, i.id, KindClass::Undecided)
        &&& a.state == State::Reasoning ==> !logged(s, i.id, KindClass::Planning) && !logged(
            s,
            i.id,
            KindClass::Actuation,
        )
    }
    &&& forall|k: int| 0 <= k < a.queue@.len() ==> fresh(#[trigger] a.queue@[k], a, s)
    &&& forall|j: int, k: int|
        0 <= j < k < a.queue@.len() ==> #[trigger] a.queue@[j].id != #[trigger] a.queue@[k].id
}

/// `intent` may join agent `a`'s queue without spoiling the record `s`: it is
/// traced, and its id is nowhere in `s`, in flight, or already queued.
pub open spec fn fresh(intent: Intent, a: Agent, s: Seq<Event>) -> bool {
    &&& intent.trace@.len() > 0
    &&& !mentions(s, intent.id)
    &&& a.in_flight() != Some(intent.id)
}

/// Whether `id` is free to join agent `a`'s queue.
pub open spec fn unqueued(id: IntentId, a: Agent) -> bool {
    forall|k: int| 0 <= k < a.queue@.len() ==> #[trigger] a.queue@[k].id != id
}

proof fn lemma_tail(pl: Seq<Event>, ql: Seq<Event>, n: int, cur: IntentId)
    requires
        appended(pl, ql, n),
        0 <= n <= 3,
        forall|k: int| pl.len() <= k < ql.len() ==> #[trigger] ql[k].intent == cur,
    ensures
        forall|k: int| 0 <= k < pl.len() ==> #[trigger] ql[k] == pl[k],
        forall|id: IntentId, c: KindClass| id != cur ==> (#[trigger] logged(ql, id, c) == logged(pl, id, c)),
        forall|c: KindClass| #[trigger] logged(ql, cur, c) == (logged(pl, cur, c) || tail_has(pl, ql, c)),
        forall|id: IntentId| id != cur ==> (#[trigger] mentions(ql, id) == mentions(pl, id)),
        forall|c: KindClass| #![trigger tail_has(pl, ql, c)] tail_has(pl, ql, c) == (
            (n > 0 && in_class(ql[pl.len() as int].kind, c))
            || (n > 1 && in_class(ql[pl.len() as int + 1].kind, c))
            || (n > 2 && in_class(ql[pl.len() as int + 2].kind, c))),
{
    let m = pl.len() as int;
    assert forall|k: int| 0 <= k < pl.len() implies #[trigger] ql[k] == pl[k] by {
        assert(ql.subrange(0, m)[k] == ql[k]);
    }
    assert forall|id: IntentId, c: KindClass| id != cur implies (#[trigger] logged(ql, id, c) == logged(pl, id, c)) by {
        if logged(ql, id, c) {
            let k = choose|k: int| 0 <= k < ql.len() && #[trigger] ql[k].intent == id && in_class(ql[k].kind, c);
            assert(pl[k].intent == id);
        }
        if logged(pl, id, c) {
            let k = choose|k: int| 0 <= k < pl.len() && #[trigger] pl[k].intent == id && in_class(pl[k].kind, c);
            assert(ql[k].intent == id);
        }
    }
    assert forall|c: KindClass| #[trigger] logged(ql, cur, c) == (logged(pl, cur, c) || tail_has(pl, ql, c)) by {
        if logged(ql, cur, c) {
            let k = choose|k: int| 0 <= k < ql.len() && #[trigger] ql[k].intent == cur && in_class(ql[k].kind, c);
            if k < m {
                assert(pl[k].intent == cur);
            }
        }
        if logged(pl, cur, c) {
            let k = choose|k: int| 0 <= k < pl.len() && #[trigger] pl[k].intent == cur && in_class(pl[k].kind, c);
            assert(ql[k].intent == cur);
        }
        if tail_has(pl, ql, c) {
            let k = choose|k: int| m <= k < ql.len() && in_class(#[trigger] ql[k].kind, c);
            assert(ql[k].intent == cur);
        }
    }
    assert forall|id: IntentId| id != cur implies (#[trigger] mentions(ql, id) == mentions(pl, id)) by {
        if mentions(ql, id) {
            let k = choose|k: int| 0 <= k < ql.len() && #[trigger] ql[k].intent == id;
            assert(pl[k].intent == id);
        }
        if mentions(pl, id) {
            let k = choose|k: int| 0 <= k < pl.len() && #[trigger] pl[k].intent == id;
            assert(ql[k].intent == id);
        }
    }
    assert forall|c: KindClass| #![trigger tail_has(pl, ql, c)] tail_has(pl, ql, c) == (
        (n > 0 && in_class(ql[m].kind, c))
        || (n > 1 && in_class(ql[m + 1].kind, c))
        || (n > 2 && in_class(ql[m + 2].kind, c))) by {
        if tail_has(pl, ql, c) {
            let k = choose|k: int| m <= k < ql.len() && in_class(#[trigger] ql[k].kind, c);
        }
        if n > 0 && in_class(ql[m].kind, c) {
            assert(in_class(ql[m].kind, c));
        }
        if n > 1 && in_class(ql[m + 1].kind, c) {
            assert(in_class(ql[m + 1].kind, c));
        }
        if n > 2 && in_class(ql[m + 2].kind, c) {
            assert(in_class(ql[m + 2].kind, c));
        }
    }
}

/// The record stays sound when the events `pl` grows into `ql` all belong to
/// the intent `i`, which is in flight before or after the step, and the step
/// leaves the queue's freshness intact.
proof fn lemma_grown_record_sound(
    pre: Agent,
    post: Agent,
    pl: Seq<Event>,
    ql: Seq<Event>,
    n: int,
    i: Intent,
)
    requires
        sound_record(pre, pl),
        appended(pl, ql, n),
        0 <= n <= 3,
        forall|k: int| pl.len() <= k < ql.len() ==> #[trigger] ql[k].intent == i.id && ql[k].trace@
            == i.trace@,
        i.trace@.len() > 0,
        pre.in_flight() == Some(i.id) || (pre.in_flight() is None && !mentions(pl, i.id)),
        post.in_flight() == Some(i.id) || post.in_flight() is None,
        post.in_flight() is None ==> tail_has(pl, ql, KindClass::Terminal),
        forall|k: int|
            pl.len() <= k < ql.len() && #[trigger] ql[k].kind == EventKind::PolicyRefuse
                ==> ql[k].policy is Some,
        forall|k: int|
            pl.len() <= k < ql.len() && #[trigger] ql[k].kind == EventKind::PolicyIndeterminate
                ==> ql[k].reason is Some,
        !(tail_has(pl, ql, KindClass::Refusal) && (logged(pl, i.id, KindClass::Planning) || tail_has(
            pl,
            ql,
            KindClass::Planning,
        ))),
        !(tail_has(pl, ql, KindClass::Refusal) && (logged(pl, i.id, KindClass::Actuation) || tail_has(
            pl,
            ql,
            KindClass::Actuation,
        ))),
        !(tail_has(pl, ql, KindClass::Undecided) && (logged(pl, i.id, KindClass::Actuation)
            || tail_has(pl, ql, KindClass::Actuation))),
        !(tail_has(pl, ql, KindClass::Planning) && logged(pl, i.id, KindClass::Refusal)),
        !(tail_has(pl, ql, KindClass::Actuation) && (logged(pl, i.id, KindClass::Refusal) || logged(
            pl,
            i.id,
            KindClass::Undecided,
        ))),
        pre.in_flight() == Some(i.id) ==> !logged(pl, i.id, KindClass::Refusal) && !logged(
            pl,
            i.id,
            KindClass::Undecided,
        ),
        post.current_intent() matches Some(j) ==> {
            &&& j == i
            &&& !tail_has(pl, ql, KindClass::Refusal)
            &&& !tail_has(pl, ql, KindClass::Undecided)
            &&& post.state == State::Reasoning ==> !logged(ql, i.id, KindClass::Planning) && !logged(
                ql,
                i.id,
                KindClass::Actuation,
            )
        },
        forall|k: int| 0 <= k < post.queue@.len() ==> fresh(#[trigger] post.queue@[k], pre, pl)
            && post.queue@[k].id != i.id,
        forall|j: int, k: int|
            0 <= j < k < post.queue@.len() ==> #[trigger] post.queue@[j].id != #[trigger] post.queue@[k].id,
    ensures
        sound_record(post, ql),
{
    lemma_tail(pl, ql, n, i.id);
    let m = pl.len() as int;
    assert forall|k: int| 0 <= k < ql.len() implies #[trigger] ql[k].trace@.len() > 0 by {
        if k < m {
            assert(ql[k] == pl[k]);
            assert(pl[k].trace@.len() > 0);
        } else {
            assert(ql[k].intent == i.id);
        }
    }
    assert forall|k: int|
        0 <= k < ql.len() && #[trigger] ql[k].kind == EventKind::PolicyRefuse implies ql[k].policy is Some by {
        if k < m {
            assert(ql[k] == pl[k]);
        }
    }
    assert forall|k: int|
        0 <= k < ql.len() && #[trigger] ql[k].kind == EventKind::PolicyIndeterminate implies ql[k].reason is Some by {
        if k < m {
            assert(ql[k] == pl[k]);
        }
    }
    assert forall|id: IntentId|
        #[trigger] mentions(ql, id) && post.in_flight() != Some(id) implies logged(ql, id, KindClass::Terminal) by {
        if id != i.id {
            assert(mentions(pl, id));
        }
    }
    assert forall|id: IntentId|
        !(#[trigger] logged(ql, id, KindClass::Refusal) && logged(ql, id, KindClass::Planning)) by {
        if id != i.id {
        }
    }
    assert forall|id: IntentId|
        !(#[trigger] logged(ql, id, KindClass::Refusal) && logged(ql, id, KindClass::Actuation)) by {
        if id != i.id {
        }
    }
    assert forall|id: IntentId|
        !(#[trigger] logged(ql, id, KindClass::Undecided) && logged(ql, id, KindClass::Actuation)) by {
        if id != i.id {
        }
    }
    assert forall|k: int| 0 <= k < post.queue@.len() implies fresh(#[trigger] post.queue@[k], post, ql) by {
        assert(fresh(post.queue@[k], pre, pl));
    }
}

proof fn lemma_tail_of(pl: Seq<Event>, ql: Seq<Event>, n: int, i: Intent)
    requires
        appended(pl, ql, n),
        0 <= n <= 3,
        n > 0 ==> ql[pl.len() as int].intent == i.id && ql[pl.len() as int].trace@ == i.trace@,
        n > 1 ==> ql[pl.len() as int + 1].intent == i.id && ql[pl.len() as int + 1].trace@ == i.trace@,
        n > 2 ==> ql[pl.len() as int + 2].intent == i.id && ql[pl.len() as int + 2].trace@ == i.trace@,
    ensures
        forall|k: int| pl.len() <= k < ql.len() ==> #[trigger] ql[k].intent == i.id && ql[k].trace@
            == i.trace@,
{
    let m = pl.len() as int;
    assert forall|k: int| m <= k < ql.len() implies #[trigger] ql[k].intent == i.id && ql[k].trace@
        == i.trace@ by {
        if k == m {
        } else if k == m + 1 {
        } else {
            assert(k == m + 2);
        }
    }
}

/// One lifecycle step keeps the agent's record sound. This is the refusal
/// guarantee over the whole run: whatever the agent has written still
/// satisfies every invariant afterwards, so no refused or unanswered intent
/// ever shows planning or actuation.
pub proof fn step_keeps_record_sound(
    pre: Agent,
    post: Agent,
    pl: Seq<Event>,
    ql: Seq<Event>,
    dt: u32,
    t: u64,
    facts: WorldFacts,
)
    requires
        pre.wf(),
        Agent::step(pre, post, pl, ql, dt, t, facts),
        sound_record(pre, pl),
    ensures
        sound_record(post, ql),
{
    let timer = after_ms(pre.timer(), dt);
    let m = pl.len() as int;
    match pre.state {
        State::Idle => {
            if pre.queue@.len() > 0 {
                let i = pre.queue@[0];
                assert(fresh(i, pre, pl));
                lemma_tail_of(pl, ql, 3, i);
                lemma_tail(pl, ql, 3, i.id);
                assert forall|k: int| 0 <= k < post.queue@.len() implies fresh(#[trigger] post.queue@[k], pre, pl)
                    && post.queue@[k].id != i.id by {
                    assert(post.queue@[k] == pre.queue@[k + 1]);
                    assert(fresh(pre.queue@[k + 1], pre, pl));
                    assert(pre.queue@[0].id != pre.queue@[k + 1].id);
                }
                assert forall|j: int, k: int|
                    0 <= j < k < post.queue@.len() implies #[trigger] post.queue@[j].id != #[trigger] post.queue@[k].id by {
                    assert(post.queue@[j] == pre.queue@[j + 1]);
                    assert(post.queue@[k] == pre.queue@[k + 1]);
                }
                lemma_grown_record_sound(pre, post, pl, ql, 3, i);
            }
        },
        State::Reasoning => {
            if timer <= 0 {
                let i = pre.current_intent()->Some_0;
                let n: int = match adjudication(i, facts, pre.evaluator, REASON_MS) {
                    VerdictKind::Approved => 2,
                    _ => 3,
                };
                lemma_tail_of(pl, ql, n, i);
                lemma_tail(pl, ql, n, i.id);
                assert forall|k: int| 0 <= k < post.queue@.len() implies fresh(#[trigger] post.queue@[k], pre, pl)
                    && post.queue@[k].id != i.id by {
                    assert(fresh(pre.queue@[k], pre, pl));
                }
                lemma_grown_record_sound(pre, post, pl, ql, n, i);
            }
        },
        State::Planning => {
            if timer <= 0 {
                let i = pre.current_intent()->Some_0;
                lemma_tail_of(pl, ql, 3, i);
                lemma_tail(pl, ql, 3, i.id);
                assert forall|k: int| 0 <= k < post.queue@.len() implies fresh(#[trigger] post.queue@[k], pre, pl)
                    && post.queue@[k].id != i.id by {
                    assert(fresh(pre.queue@[k], pre, pl));
                }
                lemma_grown_record_sound(pre, post, pl, ql, 3, i);
            }
        },
        State::Executing => {
            let i = pre.current_intent()->Some_0;
            let due = after_ms(pre.telemetry_due(), dt);
            let mm: int = if due <= 0 { 1 } else { 0 };
            let n: int = if post.state == State::Publishing { mm + 1 } else { mm };
            lemma_tail_of(pl, ql, n, i);
            lemma_tail(pl, ql, n, i.id);
            assert forall|k: int| 0 <= k < post.queue@.len() implies fresh(#[trigger] post.queue@[k], pre, pl)
                && post.queue@[k].id != i.id by {
                assert(fresh(pre.queue@[k], pre, pl));
            }
            lemma_grown_record_sound(pre, post, pl, ql, n, i);
        },
        State::Publishing => {
            if timer <= 0 {
                let i = pre.current_intent()->Some_0;
                lemma_tail_of(pl, ql, 2, i);
                lemma_tail(pl, ql, 2, i.id);
                assert forall|k: int| 0 <= k < post.queue@.len() implies fresh(#[trigger] post.queue@[k], pre, pl)
                    && post.queue@[k].id != i.id by {
                    assert(fresh(pre.queue@[k], pre, pl));
                }
                lemma_grown_record_sound(pre, post, pl, ql, 2, i);
            }
        },
    }
}

/// Whatever an agent has written, if it came about through [`Agent::new`],
/// [`Agent::submit`] of fresh intents and [`Agent::tick`], satisfies every
/// invariant, with the intent in flight exempt from needing a terminal event.
pub proof fn sound_record_satisfies_every_invariant(a: Agent, s: Seq<Event>, inv: Invariant)
    requires
        sound_record(a, s),
    ensures
        holds(s, inv, a.in_flight()),
{
}

/// A refused or unanswered intent returns the agent to `Idle`, holding no
/// approval, without passing through `Planning` or `Executing`.
pub proof fn unapproved_intent_returns_to_idle(
    pre: Agent,
    post: Agent,
    pl: Seq<Event>,
    ql: Seq<Event>,
    dt: u32,
    t: u64,
    facts: WorldFacts,
)
    requires
        pre.wf(),
        Agent::step(pre, post, pl, ql, dt, t, facts),
        pre.state == State::Reasoning,
        after_ms(pre.timer(), dt) <= 0,
        !(adjudication(pre.current_intent()->Some_0, facts, pre.evaluator, REASON_MS) is Approved),
    ensures
        post.state == State::Idle,
        post.approval() is None,
        post.current_intent() is None,
{
}

/// Planning is entered only from `Reasoning` on an approval of the intent in
/// flight, and the agent then holds that approval.
pub proof fn planning_needs_approval(
    pre: Agent,
    post: Agent,
    pl: Seq<Event>,
    ql: Seq<Event>,
    dt: u32,
    t: u64,
    facts: WorldFacts,
)
    requires
        pre.wf(),
        Agent::step(pre, post, pl, ql, dt, t, facts),
        pre.state != State::Planning,
        post.state == State::Planning,
    ensures
        pre.state == State::Reasoning,
        adjudication(pre.current_intent()->Some_0, facts, pre.evaluator, REASON_MS) is Approved,
        post.approval() matches Some(a) && a.approved_intent() == pre.current_intent()->Some_0.id,
{
}

/// Executing is entered only from `Planning`, and never with the approval
/// missing.
pub proof fn executing_needs_planning(
    pre: Agent,
    post: Agent,
    pl: Seq<Event>,
    ql: Seq<Event>,
    dt: u32,
    t: u64,
    facts: WorldFacts,
)
    requires
        pre.wf(),
        Agent::step(pre, post, pl, ql, dt, t, facts),
        pre.state != State::Executing,
        post.state == State::Executing,
    ensures
        pre.state == State::Planning,
        post.approval() is Some,
{
}

/// Whether one of the events `pl` grew into `ql` by is of kind `k`.
pub open spec fn appended_kind(pl: Seq<Event>, ql: Seq<Event>, k: EventKind) -> bool {
    exists|i: int| pl.len() <= i < ql.len() && #[trigger] ql[i].kind == k
}

/// A step follows the lifecycle `Idle → Reasoning → Planning → Executing →
/// Publishing → Idle`, staying put or moving one phase on, except that
/// reasoning returns to `Idle` exactly when the verdict is not an approval.
pub proof fn step_follows_the_lifecycle(
    pre: Agent,
    post: Agent,
    pl: Seq<Event>,
    ql: Seq<Event>,
    dt: u32,
    t: u64,
    facts: WorldFacts,
)
    requires
        pre.wf(),
        Agent::step(pre, post, pl, ql, dt, t, facts),
    ensures
        match pre.state {
            State::Idle => post.state == State::Idle || post.state == State::Reasoning,
            State::Reasoning => post.state == State::Reasoning || post.state == State::Planning
                || post.state == State::Idle,
            State::Planning => post.state == State::Planning || post.state == State::Executing,
            State::Executing => post.state == State::Executing || post.state == State::Publishing,
            State::Publishing => post.state == State::Publishing || post.state == State::Idle,
        },
        pre.state == State::Reasoning && post.state == State::Idle ==> !(adjudication(
            pre.current_intent()->Some_0,
            facts,
            pre.evaluator,
            REASON_MS,
        ) is Approved),
{
}

/// A step only appends to the log, and takes queued intents first in, first
/// out: the head of the queue when an idle agent starts, and none otherwise.
pub proof fn step_appends_and_serves_in_order(
    pre: Agent,
    post: Agent,
    pl: Seq<Event>,
    ql: Seq<Event>,
    dt: u32,
    t: u64,
    facts: WorldFacts,
)
    requires
        pre.wf(),
        Agent::step(pre, post, pl, ql, dt, t, facts),
    ensures
        ql.len() >= pl.len(),
        ql.subrange(0, pl.len() as int) == pl,
        pre.state == State::Idle && pre.queue@.len() > 0 ==> post.queue@ == pre.queue@.drop_first()
            && post.current_intent() == Some(pre.queue@[0]),
        !(pre.state == State::Idle && pre.queue@.len() > 0) ==> post.queue@ == pre.queue@,
{
    if ql == pl {
        assert(pl.subrange(0, pl.len() as int) =~= pl);
    }
}

/// Each counter only grows, by at most one over all three per step, and each
/// grows exactly when its terminal record is appended.
pub proof fn step_counts_each_ending_once(
    pre: Agent,
    post: Agent,
    pl: Seq<Event>,
    ql: Seq<Event>,
    dt: u32,
    t: u64,
    facts: WorldFacts,
)
    requires
        pre.wf(),
        Agent::step(pre, post, pl, ql, dt, t, facts),
    ensures
        post.completed >= pre.completed,
        post.refused >= pre.refused,
        post.indeterminate >= pre.indeterminate,
        post.completed + post.refused + post.indeterminate <= pre.completed + pre.refused
            + pre.indeterminate + 1,
        (post.completed > pre.completed) == appended_kind(pl, ql, EventKind::IntentComplete),
        (post.refused > pre.refused) == appended_kind(pl, ql, EventKind::IntentRefused),
        (post.indeterminate > pre.indeterminate) == appended_kind(pl, ql, EventKind::IntentIndeterminate),
{
    let n = pl.len() as int;
    assert forall|k: EventKind|
        #![trigger appended_kind(pl, ql, k)]
        appended_kind(pl, ql, k) == (
            (ql.len() > n && ql[n].kind == k)
            || (ql.len() > n + 1 && ql[n + 1].kind == k)
            || (ql.len() > n + 2 && ql[n + 2].kind == k)) by {
        if appended_kind(pl, ql, k) {
            let i = choose|i: int| n <= i < ql.len() && #[trigger] ql[i].kind == k;
            assert(ql.len() <= n + 3);
        }
        if ql.len() > n && ql[n].kind == k {
            assert(ql[n].kind == k);
        }
        if ql.len() > n + 1 && ql[n + 1].kind == k {
            assert(ql[n + 1].kind == k);
        }
        if ql.len() > n + 2 && ql[n + 2].kind == k {
            assert(ql[n + 2].kind == k);
        }
    }
}

/// A step plans or starts the manipulator only when it ends planning, and
/// then only for the intent in flight, under the approval the agent holds for
/// it. An agent reaches planning only through an approval
/// ([`planning_needs_approval`]), so no refused or unanswered intent is ever
/// planned or driven.
pub proof fn driven_only_under_approval(pre: Agent, post: Agent, dt: u32, c: Call)
    requires
        pre.wf(),
        Agent::robot_calls(pre, post, dt).contains(c),
        c is Plan || c is Begin,
    ensures
        pre.state == State::Planning,
        Agent::dispatching(pre, dt),
        pre.approval() matches Some(a) && a.approved_intent() == pre.current_intent()->Some_0.id,
        c == (Call::Plan { approved: pre.current_intent()->Some_0.id, intent: pre.current_intent()->Some_0.id })
            || c == Call::Begin(pre.current_intent()->Some_0.id),
{
    if !Agent::dispatching(pre, dt) {
        let i = choose|i: int| 0 <= i < Agent::robot_calls(pre, post, dt).len() && Agent::robot_calls(pre, post, dt)[i] == c;
    } else {
        let i = choose|i: int| 0 <= i < Agent::robot_calls(pre, post, dt).len() && Agent::robot_calls(pre, post, dt)[i] == c;
        assert(i == 0 || i == 1);
    }
}

/// Whether `s` records a `PolicyOk` for intent `id`.
pub open spec fn approval_logged(s: Seq<Event>, id: IntentId) -> bool {
    exists|k: int| 0 <= k < s.len() && #[trigger] s[k].intent == id && s[k].kind == EventKind::PolicyOk
}

/// Past the policy decision, the record `s` already holds the `PolicyOk` of
/// agent `a`'s intent in flight.
pub open spec fn approval_on_record(a: Agent, s: Seq<Event>) -> bool {
    (a.state == State::Planning || a.state == State::Executing || a.state == State::Publishing)
        ==> approval_logged(s, a.current_intent()->Some_0.id)
}

/// One lifecycle step keeps the `PolicyOk` of the intent in flight on record
/// for as long as the agent is past the policy decision.
pub proof fn step_keeps_approval_on_record(
    pre: Agent,
    post: Agent,
    pl: Seq<Event>,
    ql: Seq<Event>,
    dt: u32,
    t: u64,
    facts: WorldFacts,
)
    requires
        pre.wf(),
        Agent::step(pre, post, pl, ql, dt, t, facts),
        approval_on_record(pre, pl),
    ensures
        approval_on_record(post, ql),
{
    step_appends_and_serves_in_order(pre, post, pl, ql, dt, t, facts);
    let id = post.current_intent()->Some_0.id;
    if post.state == State::Planning || post.state == State::Executing || post.state == State::Publishing {
        if pre.state == State::Reasoning {
            let n = pl.len() as int;
            assert(ql[n].intent == id && ql[n].kind == EventKind::PolicyOk);
        } else {
            let k = choose|k: int| 0 <= k < pl.len() && #[trigger] pl[k].intent == id && pl[k].kind == EventKind::PolicyOk;
            assert(ql.subrange(0, pl.len() as int)[k] == ql[k]);
            assert(ql[k].intent == id);
        }
    }
}

/// Whenever a step plans or starts the manipulator, the log it started from
/// already records the `PolicyOk` of the intent it does so for.
pub proof fn driven_only_after_policy_ok(
    pre: Agent,
    post: Agent,
    pl: Seq<Event>,
    ql: Seq<Event>,
    dt: u32,
    t: u64,
    facts: WorldFacts,
    c: Call,
)
    requires
        pre.wf(),
        Agent::step(pre, post, pl, ql, dt, t, facts),
        approval_on_record(pre, pl),
        Agent::robot_calls(pre, post, dt).contains(c),
        c is Plan || c is Begin,
    ensures
        approval_logged(pl, pre.current_intent()->Some_0.id),
        match c {
            Call::Plan { approved, intent } => approved == pre.current_intent()->Some_0.id && intent
                == approved,
            Call::Begin(id) => id == pre.current_intent()->Some_0.id,
            _ => false,
        },
{
    driven_only_under_approval(pre, post, dt, c);
}

/// When reasoning ends, the intent in flight is refused exactly when the
/// authority answers within the reasoning budget and the intent violates a
/// policy; the refusal then names, in `last` and on the `PolicyRefuse` event
/// it appends, the first violated policy in [`crate::policy::POLICY_IDS`]
/// order, the one [`crate::policy::evaluate`] refuses with. It goes on to
/// `Planning` exactly when the authority answers in time and no policy is
/// violated.
pub proof fn refusal_names_the_first_violated_policy(
    pre: Agent,
    post: Agent,
    pl: Seq<Event>,
    ql: Seq<Event>,
    dt: u32,
    t: u64,
    facts: WorldFacts,
)
    requires
        pre.wf(),
        Agent::step(pre, post, pl, ql, dt, t, facts),
        pre.state == State::Reasoning,
        after_ms(pre.timer(), dt) <= 0,
    ensures
        (post.refused == pre.refused + 1) <==> (Agent::evaluates(pre) && first_violation(
            pre.current_intent()->Some_0,
            facts,
        ) is Some),
        post.refused == pre.refused + 1 ==> post.last == (LastDecision::Refused {
            intent: pre.current_intent()->Some_0.id,
            policy: first_violation(pre.current_intent()->Some_0, facts)->Some_0,
        }),
        post.refused == pre.refused + 1 ==> ql[pl.len() as int].kind == EventKind::PolicyRefuse
            && ql[pl.len() as int].intent == pre.current_intent()->Some_0.id
            && ql[pl.len() as int].policy == Some(first_violation(pre.current_intent()->Some_0, facts)->Some_0),
        (post.state == State::Planning) <==> (Agent::evaluates(pre) && first_violation(
            pre.current_intent()->Some_0,
            facts,
        ) is None),
{
}

} // verus!
