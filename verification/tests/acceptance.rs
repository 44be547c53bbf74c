use archetype_browser::acceptance::{signed_difference, Acceptance, Outcome};

#[test]
fn a_run_passes_only_when_every_criterion_passes() {
    let all = Acceptance {
        startup_p95_under_two_seconds: Outcome::Pass,
        all_fixtures_completed: Outcome::Pass,
        one_minute_stability_completed: Outcome::Pass,
        resource_growth_within_limits: Outcome::Pass,
    };
    assert!(all.passed());
    let one_failed = Acceptance { resource_growth_within_limits: Outcome::from(false), ..all };
    assert!(!one_failed.passed());
    assert_eq!(Outcome::from(true), Outcome::Pass);
    assert!(!Outcome::Fail.passed());
}

#[test]
fn differences_are_signed_and_clamped() {
    assert_eq!(signed_difference(10, 3), 7);
    assert_eq!(signed_difference(3, 10), -7);
    assert_eq!(signed_difference(u64::MAX, 0), i64::MAX);
    assert_eq!(signed_difference(0, u64::MAX), i64::MIN);
}
