use gov::policy::evaluate;
use gov::{Intent, PolicyId, WorldFacts};

#[test]
fn a_clean_intent_is_approved() {
    let i = Intent::new(1, 0, 1, 7);
    assert!(evaluate(&i, &WorldFacts::default()).is_ok());
}

#[test]
fn each_policy_refuses_on_its_own_condition() {
    let base = Intent::new(1, 0, 2, 7);
    let cases: [(PolicyId, WorldFacts, Intent); 5] = [
        (
            PolicyId::SterileZoneLocked,
            WorldFacts {
                sterile_zone_locked: true,
                ..Default::default()
            },
            base.clone(),
        ),
        (
            PolicyId::FixtureOccupied,
            WorldFacts {
                occupied: [false, false, true, false],
                ..Default::default()
            },
            base.clone(),
        ),
        (
            PolicyId::DwellTimeExceeded,
            WorldFacts::default(),
            base.clone().with_dwell(99_000),
        ),
        (
            PolicyId::HumanLockout,
            WorldFacts {
                human_in_cell: true,
                ..Default::default()
            },
            base.clone(),
        ),
        (
            PolicyId::MissingDescriptor,
            WorldFacts::default(),
            base.clone().without_descriptor(),
        ),
    ];
    for (want, facts, intent) in cases {
        let got = evaluate(&intent, &facts).expect_err("should refuse");
        assert_eq!(got.policy, want, "wrong policy named for {want:?}");
    }
}

#[test]
fn refusal_names_the_first_policy_in_order_not_an_arbitrary_one() {
    // Two conditions hold at once. The record must be deterministic, or a
    // refusal rationale becomes unreproducible across runs.
    let facts = WorldFacts {
        sterile_zone_locked: true,
        human_in_cell: true,
        ..Default::default()
    };
    let i = Intent::new(1, 0, 2, 7).without_descriptor();
    assert_eq!(
        evaluate(&i, &facts).unwrap_err().policy,
        PolicyId::SterileZoneLocked
    );
}
