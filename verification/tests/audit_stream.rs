use bpfjailer::daemon::audit::{
    attribute, decision_name, format_event, hook_name, machine_order, read_event, AuditReader,
    ByteOrder, RateLimiter, RATE_LIMIT_WINDOW,
};

fn sample(pid: u32, role: u32, decision: u32, hook: u32, context: u64, pod: u64) -> Vec<u8> {
    let mut v = Vec::new();
    v.extend_from_slice(&77u64.to_le_bytes());
    v.extend_from_slice(&pid.to_le_bytes());
    v.extend_from_slice(&role.to_le_bytes());
    v.extend_from_slice(&decision.to_le_bytes());
    v.extend_from_slice(&hook.to_le_bytes());
    v.extend_from_slice(&context.to_le_bytes());
    v.extend_from_slice(&pod.to_le_bytes());
    v
}

#[test]
fn hooks_and_decisions_have_names() {
    let hooks: Vec<&str> = (0..7).map(hook_name).collect();
    assert_eq!(
        hooks,
        vec![
            "unknown",
            "file_open",
            "socket_bind",
            "socket_connect",
            "bprm_check",
            "path_rename",
            "unknown"
        ]
    );
    assert_eq!(
        (decision_name(0), decision_name(1), decision_name(2)),
        ("deny", "allow", "unknown")
    );
}

#[test]
fn events_are_read_from_samples() {
    let data = sample(0x01020304, 100, 0, 1, 0xdeadbeef00112233, u64::MAX);
    let e = read_event(&data, ByteOrder::Little).unwrap();
    assert_eq!(e.timestamp, 77);
    assert_eq!(e.pid, 0x01020304);
    assert_eq!(e.role_id, 100);
    assert_eq!(e.context, 0xdeadbeef00112233);
    assert_eq!(e.pod_id, u64::MAX);
    assert!(read_event(&data[..39], ByteOrder::Little).is_none());
    let mut longer = data.clone();
    longer.push(9);
    assert_eq!(read_event(&longer, ByteOrder::Little).unwrap().pod_id, u64::MAX);
}

#[test]
fn events_become_lines() {
    let e = read_event(&sample(7, 100, 0, 3, 0xabc, 5000), ByteOrder::Little).unwrap();
    assert_eq!(
        format_event(&e),
        "pid=7 role_id=100 pod_id=5000 decision=deny hook=socket_connect context=0xabc"
    );
}

#[test]
fn ten_events_pass_in_a_window() {
    let mut l = RateLimiter::new();
    for i in 0..20u128 {
        assert_eq!(l.allow_at(1, 1, 5, 1000 + i), i < 10);
    }
    assert!(l.allow_at(1, 2, 5, 1020));
    assert!(l.allow_at(1, 1, 6, 1020));
    assert!(l.allow_at(2, 1, 5, 1020));
    assert!(!l.allow_at(1, 1, 5, 1000 + RATE_LIMIT_WINDOW - 1));
    assert!(l.allow_at(1, 1, 5, 1000 + RATE_LIMIT_WINDOW));
}

#[test]
fn ten_events_pass_whatever_comes_between() {
    let mut l = RateLimiter::new();
    for i in 0..30u128 {
        assert_eq!(l.allow_at(1, 1, 5, 1000 + 3 * i), i < 10);
        assert_eq!(l.allow_at(1, 1, 6, 1001 + 3 * i), i < 10);
        assert!(l.allow_at(2, 1, 100 + i as u64, 1002 + 3 * i));
    }
}

#[test]
fn forgetting_changes_nothing_that_follows() {
    let mut kept = RateLimiter::new();
    let mut cleared = RateLimiter::new();
    for i in 0..12u128 {
        for hook in [1, 2] {
            let at = i * RATE_LIMIT_WINDOW / 10;
            assert_eq!(kept.allow_at(1, hook, 5, at), cleared.allow_at(1, hook, 5, at));
        }
    }
    let earlier = 12 * RATE_LIMIT_WINDOW / 10;
    cleared.gc_at(earlier);
    for i in 0..60u128 {
        for hook in [1, 2, 3] {
            let at = earlier + i * RATE_LIMIT_WINDOW / 20;
            assert_eq!(kept.allow_at(1, hook, 5, at), cleared.allow_at(1, hook, 5, at));
        }
    }
}

#[test]
fn the_limiter_reads_the_clock() {
    let mut l = RateLimiter::new();
    let passed = (0..15).filter(|_| l.allow(1, 1, 1)).count();
    assert_eq!(passed, 10);
    l.gc();
    assert!(!l.allow(1, 1, 1));
}

#[test]
fn forgetting_keeps_open_windows() {
    let mut l = RateLimiter::new();
    for _ in 0..10 {
        assert!(l.allow_at(1, 1, 1, 0));
    }
    for _ in 0..10 {
        assert!(l.allow_at(2, 1, 1, RATE_LIMIT_WINDOW));
    }
    l.gc_at(RATE_LIMIT_WINDOW);
    assert!(!l.allow_at(2, 1, 1, RATE_LIMIT_WINDOW));
    assert!(l.allow_at(1, 1, 1, RATE_LIMIT_WINDOW));
}

#[test]
fn the_reader_holds_back_floods_and_short_samples() {
    let mut r = AuditReader::with_order(ByteOrder::Little);
    let data = sample(7, 100, 0, 1, 5, 1);
    for i in 0..12 {
        assert_eq!(r.on_sample_at(&data, 50, 50).is_some(), i < 10);
    }
    assert!(r.on_sample_at(&data[..20], 50, 50).is_none());
    assert_eq!(
        r.on_sample_at(&sample(8, 100, 1, 1, 6, 1), 50, 50),
        Some("pid=8 role_id=100 pod_id=1 decision=allow hook=file_open context=0x6".to_string())
    );
}

#[test]
fn the_reader_goes_on_after_it_forgot() {
    let mut r = AuditReader::new();
    for i in 0..2500u64 {
        assert!(r.on_sample(&sample(1, 1, 0, 1, i, 1)).is_some());
    }
    let flood = sample(1, 1, 0, 1, 9999, 1);
    let passed = (0..11).filter(|_| r.on_sample(&flood).is_some()).count();
    assert_eq!(passed, 10);
}

#[test]
fn events_are_read_in_either_order() {
    let mut v = Vec::new();
    v.extend_from_slice(&77u64.to_be_bytes());
    for n in [1u32, 2, 3, 0x01020304] {
        v.extend_from_slice(&n.to_be_bytes());
    }
    v.extend_from_slice(&0x0102030405060708u64.to_be_bytes());
    v.extend_from_slice(&9u64.to_be_bytes());
    let e = read_event(&v, ByteOrder::Big).unwrap();
    assert_eq!((e.timestamp, e.pid, e.role_id, e.decision), (77, 1, 2, 3));
    assert_eq!((e.hook_type, e.context, e.pod_id), (0x01020304, 0x0102030405060708, 9));
}

#[test]
fn the_order_of_the_machine_is_known() {
    let mut v = vec![0u8; 40];
    v[8..12].copy_from_slice(&0x01020304u32.to_ne_bytes());
    v[24..32].copy_from_slice(&0x0102030405060708u64.to_ne_bytes());
    let e = read_event(&v, machine_order()).unwrap();
    assert_eq!((e.pid, e.context), (0x01020304, 0x0102030405060708));
    assert!(AuditReader::new().on_sample(&v).unwrap().starts_with("pid=16909060 "));
}

#[test]
fn lines_name_the_user_and_the_role() {
    assert_eq!(attribute("x", Some(1000), Some("code_agent")), "x uid=1000 role=code_agent");
    assert_eq!(attribute("x", None, Some("r")), "x role=r");
    assert_eq!(attribute("x", Some(0), None), "x uid=0");
    assert_eq!(attribute("x", None, None), "x");
}
