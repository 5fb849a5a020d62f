use ironclaw_memory::rate_limit::{PerUserRateLimiter, RateLimiter};

#[test]
fn limiter_allows_budget_then_refuses_until_window_expires() {
    let mut l = RateLimiter::new_at(2, 60, 1000);
    assert!(l.check_at(1000));
    assert!(l.check_at(1010));
    assert!(!l.check_at(1059));
    assert!(l.check_at(1060));
}

#[test]
fn one_user_does_not_exhaust_another() {
    let mut l = PerUserRateLimiter::new(2, 60);
    assert!(l.check_at("alice", 100));
    assert!(l.check_at("alice", 101));
    assert!(!l.check_at("alice", 102));
    assert!(l.check_at("bob", 103));
    assert!(l.check_at("bob", 104));
    assert!(!l.check_at("bob", 105));
    assert!(!l.check_at("alice", 106));
    assert!(l.check_at("alice", 160));
}

#[test]
fn many_new_users_below_capacity_keep_existing_windows() {
    let mut l = PerUserRateLimiter::new(1, 3600);
    assert!(l.check_at("victim", 0));
    for i in 0..2000 {
        let u = format!("user{i}");
        assert!(l.check_at(&u, 1));
    }
    assert!(!l.check_at("victim", 2));
}

#[test]
fn limiter_without_budget_refuses_within_its_window() {
    let mut l = RateLimiter::new_at(0, 60, 1000);
    assert!(l.step_defined_at(1010));
    assert!(!l.check_at(1010));
    assert!(!l.step_defined_at(1060));
}
