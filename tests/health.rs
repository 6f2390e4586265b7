use guildhub::health::{health_change, Dependency, HealthChange, HealthPayload};

#[test]
fn healthy_only_when_every_dependency_is_up() {
    let up = Dependency { name: "db".to_string(), up: true };
    let down = Dependency { name: "cache".to_string(), up: false };
    assert!(HealthPayload { dependencies: vec![] }.is_healthy());
    assert!(!HealthPayload { dependencies: vec![up, down] }.is_healthy());
}

#[test]
fn only_changes_are_reported() {
    assert_eq!(health_change(true, false), HealthChange::BecameUnhealthy);
    assert_eq!(health_change(false, true), HealthChange::BecameHealthy);
    assert_eq!(health_change(true, true), HealthChange::Unchanged);
}
