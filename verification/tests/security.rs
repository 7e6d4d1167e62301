use lean_ctx::security::{
    cache_control_for, response_security_headers, AuthThrottle, ClientIp, CSP,
    MAX_FAILURES_PER_WINDOW, MAX_TRACKED_IPS, WINDOW_NANOS,
};

fn ip(last: u8) -> ClientIp {
    ClientIp::V4(0x0A00_0000 | u32::from(last))
}

const T0: u64 = 1_000_000_000;

#[test]
fn throttle_blocks_after_budget_and_resets_on_success() {
    let mut t = AuthThrottle::default();
    assert!(!t.is_blocked(ip(1), T0));
    for _ in 0..MAX_FAILURES_PER_WINDOW {
        t.record_failure(ip(1), T0);
    }
    assert!(t.is_blocked(ip(1), T0), "budget exhausted → blocked");
    assert!(!t.is_blocked(ip(2), T0), "per-IP isolation");
    t.record_success(ip(1));
    assert!(!t.is_blocked(ip(1), T0), "success clears the window");
}

#[test]
fn throttle_counts_failures_within_window() {
    let mut t = AuthThrottle::default();
    assert_eq!(t.record_failure(ip(3), T0), 1);
    assert_eq!(t.record_failure(ip(3), T0), 2);
    assert!(!t.is_blocked(ip(3), T0), "under budget stays open");
}

#[test]
fn csp_has_no_remote_sources() {
    for directive in CSP.split(';') {
        assert!(
            !directive.contains("http"),
            "CSP must not allow remote origins: {directive}"
        );
    }
    assert!(CSP.contains("frame-ancestors 'none'"));
}

#[test]
fn window_expiry_unblocks_and_restarts_the_count() {
    let mut t = AuthThrottle::new();
    for k in 0..MAX_FAILURES_PER_WINDOW {
        assert_eq!(t.record_failure(ip(4), T0 + u64::from(k)), k + 1);
    }
    assert!(t.is_blocked(ip(4), T0 + WINDOW_NANOS - 1));
    assert!(!t.is_blocked(ip(4), T0 + WINDOW_NANOS));
    assert_eq!(t.record_failure(ip(4), T0 + WINDOW_NANOS), 1);
    // a stale window is reset by a new failure even without a check in between
    assert_eq!(t.record_failure(ip(4), T0 + 3 * WINDOW_NANOS), 1);
    assert_eq!(t.record_failure(ip(4), T0 + 3 * WINDOW_NANOS + 5), 2);
}

#[test]
fn v4_and_v6_are_distinct_clients() {
    let mut t = AuthThrottle::new();
    for _ in 0..MAX_FAILURES_PER_WINDOW {
        t.record_failure(ClientIp::V4(1), T0);
    }
    assert!(t.is_blocked(ClientIp::V4(1), T0));
    assert!(!t.is_blocked(ClientIp::V6(1), T0));
}

#[test]
fn full_tracker_refuses_newcomers_until_windows_expire() {
    let mut t = AuthThrottle::new();
    for k in 0..MAX_TRACKED_IPS {
        assert_eq!(t.record_failure(ClientIp::V6(k as u128), T0), 1);
    }
    let newcomer = ClientIp::V6(u128::MAX);
    assert_eq!(t.record_failure(newcomer, T0 + 1), MAX_FAILURES_PER_WINDOW);
    assert!(!t.is_blocked(newcomer, T0 + 1));
    // a tracked IP still counts normally
    assert_eq!(t.record_failure(ClientIp::V6(0), T0 + 1), 2);
    // once the windows have run out, the newcomer is tracked again
    assert_eq!(t.record_failure(newcomer, T0 + WINDOW_NANOS + 1), 1);
}

#[test]
fn cache_rules_by_path() {
    assert_eq!(cache_control_for("/api/v1/stats"), "no-store");
    assert_eq!(cache_control_for("/metrics"), "no-store");
    assert_eq!(cache_control_for("/metrics/x"), "no-cache");
    assert_eq!(cache_control_for("/static/app.js"), "public, max-age=3600");
    assert_eq!(cache_control_for("/me/static/app.css"), "public, max-age=3600");
    assert_eq!(cache_control_for("/"), "no-cache");
    assert_eq!(cache_control_for("/api"), "no-cache");
}

#[test]
fn security_headers_are_complete() {
    let h = response_security_headers("/api/x");
    assert_eq!(
        h,
        vec![
            ("content-security-policy", CSP),
            ("x-content-type-options", "nosniff"),
            ("x-frame-options", "DENY"),
            ("referrer-policy", "no-referrer"),
            ("cross-origin-opener-policy", "same-origin"),
            ("cross-origin-resource-policy", "same-origin"),
            ("cache-control", "no-store"),
        ]
    );
}

#[test]
fn failures_in_window_reports_only_open_windows() {
    let mut t = AuthThrottle::new();
    assert_eq!(t.failures_in_window(ip(9), T0), None);
    t.record_failure(ip(9), T0);
    t.record_failure(ip(9), T0 + 1);
    assert_eq!(t.failures_in_window(ip(9), T0 + 2), Some(2));
    assert_eq!(t.failures_in_window(ip(9), T0 + WINDOW_NANOS), None);
}
