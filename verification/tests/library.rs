use gov::cell::{
    apply_action, destination_for, first_loaded, occupancy, sterile_flags, valid_route, Action,
};
use gov::fault::{self, Fault};
use gov::fsm::{LastDecision, REASON_MS};
use gov::invariants::{self, Invariant};
use gov::policy::{adjudicate, IndeterminateReason, Verdict};
use gov::{
    trace_for, Agent, Approved, Evaluator, Event, EventKind, EventLog, Governed, Intent, Manipulator,
    PolicyId, Rng, State, WorldFacts,
};

struct Quick {
    busy_for: u32,
}

impl Manipulator for Quick {
    fn plan(&mut self, _a: &Approved, _i: &Intent) -> u32 {
        2
    }
    fn begin(&mut self, _a: &Approved) {
        self.busy_for = 3;
    }
    fn busy(&self) -> bool {
        self.busy_for > 0
    }
    fn tick(&mut self, _dt_ms: u32) {
        self.busy_for = self.busy_for.saturating_sub(1);
    }
}

fn event(t_ms: u64, kind: EventKind, intent: u32) -> Event {
    Event {
        t_ms,
        kind,
        source: "test".to_string(),
        intent,
        trace: format!("tr-{intent}"),
        policy: if kind == EventKind::PolicyRefuse {
            Some(PolicyId::HumanLockout)
        } else {
            None
        },
        reason: if kind == EventKind::PolicyIndeterminate {
            Some(IndeterminateReason::EvaluatorTimeout)
        } else {
            None
        },
    }
}

#[test]
fn trace_ids_are_four_or_more_lowercase_hex_digits() {
    assert_eq!(trace_for(0), "tr-0000");
    assert_eq!(trace_for(42), "tr-002a");
    assert_eq!(trace_for(255), "tr-00ff");
    assert_eq!(trace_for(4096), "tr-1000");
    assert_eq!(trace_for(0xabcde), "tr-abcde");
    assert_eq!(Intent::new(7, 0, 1, 3).trace, "tr-0007");
}

#[test]
fn intent_builders_change_one_field() {
    let i = Intent::new(9, 1, 2, 5);
    assert!(i.descriptor && i.operator_authorized);
    assert_eq!(i.dwell_ms, 4000);
    let j = i.clone().without_descriptor().with_dwell(1234);
    assert!(!j.descriptor);
    assert_eq!(j.dwell_ms, 1234);
    assert_eq!((j.id, j.source, j.dest, j.plate), (9, 1, 2, 5));
}

#[test]
fn rng_is_xorshift_and_never_zero() {
    let mut r = Rng::new(1);
    assert_eq!(r.next_u64(), 1082269761);
    let mut z = Rng::new(0);
    let first = z.next_u64();
    assert_ne!(first, 0);
    let mut again = Rng::new(0x9E3779B97F4A7C15);
    assert_eq!(again.next_u64(), first);
    let mut b = Rng::new(1);
    assert_eq!(b.below(10), (1082269761u64 % 10) as usize);
    for _ in 0..1000 {
        assert!(b.below(4) < 4);
    }
}

#[test]
fn adjudication_distinguishes_unavailable_slow_refused_and_approved() {
    let i = Intent::new(5, 0, 1, 7);
    let facts = WorldFacts::default();
    let down = Evaluator { reachable: false, latency_ms: 0 };
    assert!(matches!(
        adjudicate(&i, &facts, &down, 450),
        Verdict::Indeterminate(x) if x.reason == IndeterminateReason::EvaluatorUnavailable
    ));
    let slow = Evaluator { reachable: true, latency_ms: 451 };
    assert!(matches!(
        adjudicate(&i, &facts, &slow, 450),
        Verdict::Indeterminate(x) if x.reason == IndeterminateReason::EvaluatorTimeout
    ));
    let just_in_time = Evaluator { reachable: true, latency_ms: 450 };
    match adjudicate(&i, &facts, &just_in_time, 450) {
        Verdict::Approved(a) => {
            assert_eq!(a.intent(), 5);
            assert_eq!(a.trace(), "tr-0005");
        }
        other => panic!("expected approval, got {other:?}"),
    }
    let blocked = WorldFacts { human_in_cell: true, ..Default::default() };
    let v = adjudicate(&i, &blocked, &Evaluator::default(), 450);
    assert!(matches!(v, Verdict::Refused(r) if r.policy == PolicyId::HumanLockout));
    // An unreachable authority wins over a policy that would refuse.
    assert!(matches!(
        adjudicate(&i, &blocked, &down, 450),
        Verdict::Indeterminate(_)
    ));
}

#[test]
fn only_an_approval_yields_a_token() {
    let i = Intent::new(5, 0, 1, 7);
    let facts = WorldFacts::default();
    assert!(adjudicate(&i, &facts, &Evaluator::default(), 450).approved().is_some());
    let down = Evaluator { reachable: false, latency_ms: 0 };
    assert!(adjudicate(&i, &facts, &down, 450).approved().is_none());
    let blocked = WorldFacts { occupied: [false, true, false, false], ..Default::default() };
    assert!(adjudicate(&i, &blocked, &Evaluator::default(), 450).approved().is_none());
}

#[test]
fn names_and_rationales() {
    assert_eq!(PolicyId::DwellTimeExceeded.as_str(), "DWELL_TIME_EXCEEDED");
    assert_eq!(PolicyId::MissingDescriptor.rationale(), "intent carries no descriptor to govern it by");
    assert_eq!(IndeterminateReason::EvaluatorTimeout.as_str(), "EVALUATOR_TIMEOUT");
    assert_eq!(
        IndeterminateReason::EvaluatorUnavailable.rationale(),
        "the policy authority could not be reached"
    );
    assert_eq!(State::Publishing.as_str(), "PUBLISHING");
    assert_eq!(EventKind::IntentIndeterminate.as_str(), "INTENT_INDETERMINATE");
    assert_eq!(Invariant::NoActuationAfterRefusal.as_str(), "no actuation after a refusal");
    assert_eq!(Fault::LeakDriver.as_str(), "leak-driver");
    assert_eq!(Fault::NoFault.describe(), "unperturbed log");
    assert!(EventKind::DriverCommand.is_actuation() && EventKind::StateExecuting.is_actuation());
    assert!(!EventKind::StatePlanning.is_actuation());
    assert!(EventKind::IntentIndeterminate.is_terminal() && EventKind::IntentRefused.is_terminal());
    assert!(!EventKind::PolicyIndeterminate.is_terminal());
}

#[test]
fn faults_are_found_by_name() {
    for f in fault::ALL {
        assert_eq!(Fault::from_name(f.as_str()), Some(f));
    }
    assert_eq!(Fault::from_name("no-such-fault"), None);
}

#[test]
fn the_workcell_facts() {
    assert_eq!(sterile_flags(), [false, false, true, false]);
    let plates = [None, Some(3), None, Some(9)];
    assert_eq!(occupancy(&plates), [false, true, false, true]);
    assert_eq!(first_loaded(&plates), Some(1));
    assert_eq!(first_loaded(&[None; 4]), None);
    assert!(valid_route(0, 3));
    assert!(!valid_route(2, 2));
    assert!(!valid_route(0, 4));
    assert_eq!(destination_for(1, 3), 3);
    assert_eq!(destination_for(3, 3), 0);
    assert_eq!(destination_for(1, 1), 2);
}

#[test]
fn a_transfer_moves_the_plate() {
    let mut plates = [Some(1), None, None, Some(4)];
    let mut held = None;
    apply_action(&mut plates, &mut held, Action::Grasp(0));
    assert_eq!(held, Some(1));
    assert_eq!(plates, [None, None, None, Some(4)]);
    apply_action(&mut plates, &mut held, Action::Release(2));
    assert_eq!(held, None);
    assert_eq!(plates, [None, None, Some(1), Some(4)]);
}

#[test]
fn log_queries() {
    let mut log = EventLog::default();
    log.record(0, EventKind::MeshRoute, "mesh", 7, "tr-0007");
    log.record_policy(5, EventKind::PolicyRefuse, 3, "tr-0003", PolicyId::FixtureOccupied);
    log.record_indeterminate(6, EventKind::PolicyIndeterminate, 7, "tr-0007", IndeterminateReason::EvaluatorTimeout);
    log.record(9, EventKind::IntentRefused, "telemetry", 3, "tr-0003");
    assert_eq!(log.intent_ids(), vec![3, 7]);
    let of7 = log.for_intent(7);
    assert_eq!(of7.len(), 2);
    assert_eq!(of7[0].kind, EventKind::MeshRoute);
    assert_eq!(of7[1].reason, Some(IndeterminateReason::EvaluatorTimeout));
    assert_eq!(of7[1].source, "policy_authority");
    assert_eq!(log.events[1].policy, Some(PolicyId::FixtureOccupied));
    log.keep_newest(2);
    assert_eq!(log.events.len(), 2);
    assert_eq!(log.events[0].t_ms, 6);
    log.keep_newest(5);
    assert_eq!(log.events.len(), 2);
}

#[test]
fn the_checker_reads_each_invariant() {
    let mut log = EventLog { events: vec![event(0, EventKind::MeshRoute, 1)] };
    assert!(!invariants::check(&log, Invariant::TerminalReconstructable, None));
    assert!(invariants::check(&log, Invariant::TerminalReconstructable, Some(1)));
    log.events.push(event(1, EventKind::IntentComplete, 1));
    assert!(invariants::check(&log, Invariant::TerminalReconstructable, None));
    log.events.push(event(2, EventKind::PolicyIndeterminate, 2));
    log.events.push(event(3, EventKind::DriverCommand, 2));
    assert!(!invariants::check(&log, Invariant::NoActuationAfterIndeterminate, None));
    assert!(invariants::check(&log, Invariant::NoActuationAfterRefusal, None));
    let all = invariants::check_all(&log, None);
    assert_eq!(all.len(), 7);
    assert_eq!(all[0].0, Invariant::TraceId);
    assert_eq!(all[6], (Invariant::NoActuationAfterIndeterminate, false));
}

#[test]
fn a_leak_is_spliced_in_time_order() {
    let log = EventLog {
        events: vec![
            event(50, EventKind::StateIdle, 2),
            event(10, EventKind::PolicyRefuse, 1),
            event(15, EventKind::IntentRefused, 1),
            event(20, EventKind::Telemetry, 3),
        ],
    };
    let out = fault::inject(&log, Fault::LeakDriver);
    let times: Vec<u64> = out.events.iter().map(|e| e.t_ms).collect();
    assert_eq!(times, vec![10, 15, 20, 20, 50]);
    // Stable: the event already stamped 20 keeps its place before the leak.
    assert_eq!(out.events[2].kind, EventKind::Telemetry);
    assert_eq!(out.events[3].kind, EventKind::DriverCommand);
    assert_eq!(out.events[3].intent, 1);
    assert_eq!(out.events[3].source, "driver");
    // Nothing refused: nothing leaks and nothing moves.
    let quiet = EventLog { events: vec![event(5, EventKind::MeshRoute, 1)] };
    assert_eq!(fault::inject(&quiet, Fault::LeakPlanner).events.len(), 1);
}

#[test]
fn the_other_faults_touch_only_their_target() {
    let log = EventLog {
        events: vec![
            event(1, EventKind::MeshRoute, 1),
            event(2, EventKind::PolicyRefuse, 1),
            event(3, EventKind::IntentRefused, 1),
            event(4, EventKind::PolicyIndeterminate, 2),
            event(5, EventKind::IntentIndeterminate, 2),
        ],
    };
    let dropped = fault::inject(&log, Fault::DropTrace);
    assert_eq!(dropped.events[0].trace, "");
    assert_eq!(dropped.events[1].trace, "tr-1");
    let no_policy = fault::inject(&log, Fault::NoPolicyId);
    assert_eq!(no_policy.events[1].policy, None);
    let no_reason = fault::inject(&log, Fault::NoIndeterminateReason);
    assert_eq!(no_reason.events[3].reason, None);
    let no_terminal = fault::inject(&log, Fault::NoTerminal);
    assert_eq!(no_terminal.events.len(), 4);
    assert!(no_terminal.events.iter().all(|e| e.kind != EventKind::IntentRefused));
    let no_ind = fault::inject(&log, Fault::NoIndeterminateTerminal);
    assert_eq!(no_ind.events.len(), 4);
    assert!(no_ind.events.iter().all(|e| e.kind != EventKind::IntentIndeterminate));
    assert_eq!(fault::inject(&log, Fault::NoFault).events.len(), 5);
}

#[test]
fn a_running_agent_keeps_its_record_sound_at_every_step() {
    let mut agent = Agent::new("arm");
    let mut robot = Governed::new(Quick { busy_for: 0 });
    let mut log = EventLog::default();
    agent.submit(Intent::new(1, 0, 1, 7));
    agent.submit(Intent::new(2, 1, 2, 7).without_descriptor());
    agent.submit(Intent::new(3, 2, 3, 7));
    let facts = WorldFacts::default();
    for i in 0..120u64 {
        if agent.refused == 1 && agent.state == State::Idle {
            agent.evaluator = Evaluator { reachable: false, latency_ms: 0 };
        }
        agent.tick(100, i * 100, &facts, &mut robot, &mut log);
        let in_flight = agent.current().map(|c| c.id);
        for (inv, ok) in invariants::check_all(&log, in_flight) {
            assert!(ok, "step {i}: {}", inv.as_str());
        }
    }
    assert_eq!((agent.completed, agent.refused, agent.indeterminate), (1, 1, 1));
    assert!(matches!(agent.last, LastDecision::Indeterminate { intent: 3, .. }));
}

#[test]
fn a_reused_intent_id_can_break_the_record() {
    // The soundness law asks for fresh ids: here intent 1 is refused, and a
    // second intent that reuses id 1 is approved and driven.
    let mut agent = Agent::new("arm");
    let mut robot = Governed::new(Quick { busy_for: 0 });
    let mut log = EventLog::default();
    agent.submit(Intent::new(1, 0, 1, 7).without_descriptor());
    agent.submit(Intent::new(1, 0, 1, 7));
    for i in 0..80u64 {
        agent.tick(100, i * 100, &WorldFacts::default(), &mut robot, &mut log);
    }
    assert!(!invariants::check(&log, Invariant::NoActuationAfterRefusal, None));
}

#[test]
fn phases_take_their_time() {
    let mut agent = Agent::new("arm");
    let mut robot = Governed::new(Quick { busy_for: 0 });
    let mut log = EventLog::default();
    agent.submit(Intent::new(1, 0, 1, 7));
    agent.tick(100, 0, &WorldFacts::default(), &mut robot, &mut log);
    assert_eq!(agent.state, State::Reasoning);
    assert_eq!(log.events.len(), 3);
    assert_eq!(log.events[2].source, "manipulator/arm");
    // Reasoning lasts REASON_MS: four more ticks of 100 ms are not enough.
    for i in 1..=4u64 {
        agent.tick(100, i * 100, &WorldFacts::default(), &mut robot, &mut log);
        assert_eq!(agent.state, State::Reasoning);
    }
    assert_eq!(REASON_MS, 450);
    agent.tick(100, 500, &WorldFacts::default(), &mut robot, &mut log);
    assert_eq!(agent.state, State::Planning);
    assert!(matches!(agent.last, LastDecision::Approved { intent: 1 }));
}

#[test]
fn an_unreachable_authority_answers_for_any_destination() {
    let nowhere = Intent::new(8, 0, 99, 1);
    let down = Evaluator { reachable: false, latency_ms: 0 };
    assert!(matches!(
        adjudicate(&nowhere, &WorldFacts::default(), &down, 450),
        Verdict::Indeterminate(x) if x.reason == IndeterminateReason::EvaluatorUnavailable
    ));
    let mut agent = Agent::new("arm");
    agent.evaluator = down;
    let mut robot = Governed::new(Quick { busy_for: 0 });
    let mut log = EventLog::default();
    agent.submit(nowhere);
    for i in 0..10u64 {
        agent.tick(100, i * 100, &WorldFacts::default(), &mut robot, &mut log);
    }
    assert_eq!(agent.indeterminate, 1);
    assert_eq!(robot.robot().busy_for, 0);
}
