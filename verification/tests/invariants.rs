//! Fault discrimination: each fault must drop exactly its own invariant.

use gov::{
    fault::{self, Fault},
    invariants::{self, Invariant},
    Agent, Approved, EventLog, Governed, Intent, Manipulator, WorldFacts,
};

#[derive(Default)]
struct Stub {
    busy_for: u32,
}

impl Manipulator for Stub {
    fn plan(&mut self, _a: &Approved, _i: &Intent) -> u32 {
        2
    }
    fn begin(&mut self, _a: &Approved) {
        self.busy_for = 5;
    }
    fn busy(&self) -> bool {
        self.busy_for > 0
    }
    fn tick(&mut self, _dt_ms: u32) {
        self.busy_for = self.busy_for.saturating_sub(1);
    }
}

/// A run with an approved, a refused and an unanswered intent, so every
/// invariant has something to bite on.
fn mixed_log() -> EventLog {
    let mut agent = Agent::new("arm");
    let mut robot = Governed::new(Stub::default());
    let mut log = EventLog::default();
    let clean = WorldFacts::default();
    let blocked = WorldFacts {
        human_in_cell: true,
        ..Default::default()
    };

    agent.submit(Intent::new(1, 0, 1, 7));
    for i in 0..90u64 {
        agent.tick(100, i * 100, &clean, &mut robot, &mut log);
    }
    agent.submit(Intent::new(2, 1, 3, 7));
    for i in 90..150u64 {
        agent.tick(100, i * 100, &blocked, &mut robot, &mut log);
    }

    agent.evaluator = gov::Evaluator {
        reachable: false,
        latency_ms: 0,
    };
    agent.submit(Intent::new(3, 0, 1, 7));
    for i in 150..210u64 {
        agent.tick(100, i * 100, &clean, &mut robot, &mut log);
    }
    log
}

fn expected_victim(f: Fault) -> Option<Invariant> {
    match f {
        Fault::NoFault => None,
        Fault::DropTrace => Some(Invariant::TraceId),
        Fault::NoTerminal => Some(Invariant::TerminalReconstructable),
        Fault::NoPolicyId => Some(Invariant::PolicyIdOnRefusal),
        Fault::LeakPlanner => Some(Invariant::NoPlanAfterRefusal),
        Fault::LeakDriver => Some(Invariant::NoActuationAfterRefusal),
        Fault::NoIndeterminateReason => Some(Invariant::ReasonOnIndeterminate),
        Fault::NoIndeterminateTerminal => Some(Invariant::TerminalReconstructable),
    }
}

#[test]
fn the_unperturbed_log_satisfies_every_invariant() {
    let log = mixed_log();
    assert!(log
        .events
        .iter()
        .any(|e| e.kind == gov::EventKind::IntentComplete));
    assert!(log
        .events
        .iter()
        .any(|e| e.kind == gov::EventKind::PolicyRefuse));
    assert!(log
        .events
        .iter()
        .any(|e| e.kind == gov::EventKind::PolicyIndeterminate));

    for (inv, ok) in invariants::check_all(&log, None) {
        assert!(ok, "clean log violated: {}", inv.as_str());
    }
}

#[test]
fn each_fault_drops_exactly_its_own_invariant() {
    let clean = mixed_log();
    for f in fault::ALL {
        let corrupted = fault::inject(&clean, f);
        let victim = expected_victim(f);
        for (inv, ok) in invariants::check_all(&corrupted, None) {
            let should_hold = Some(inv) != victim;
            assert_eq!(
                ok,
                should_hold,
                "fault {}: invariant '{}' was {}, expected {}",
                f.as_str(),
                inv.as_str(),
                if ok { "held" } else { "dropped" },
                if should_hold { "held" } else { "dropped" },
            );
        }
    }
}

#[test]
fn injecting_a_fault_does_not_disturb_the_original_log() {
    let clean = mixed_log();
    let before = clean.events.len();
    for f in fault::ALL {
        let _ = fault::inject(&clean, f);
    }
    assert_eq!(clean.events.len(), before, "inject mutated its input");
    for (inv, ok) in invariants::check_all(&clean, None) {
        assert!(ok, "original log damaged: {}", inv.as_str());
    }
}
