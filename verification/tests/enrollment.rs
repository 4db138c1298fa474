use bpfjailer::client::enrollment::{EnrollmentRequest, EnrollmentResponse};
use bpfjailer::common::{
    IpRule, PathPattern, PodId, PolicyConfig, PolicyFlags, Role, RoleId, UserExtensionConfig,
};
use bpfjailer::daemon::enrollment::{
    handle_client, lookup_group_gid, socket_permissions, Effect, Outcome, Peer, Progress,
};
use bpfjailer::daemon::policy::PolicyManager;
use bpfjailer::daemon::user_extensions::LoadedConfig;

fn flags() -> PolicyFlags {
    PolicyFlags {
        allow_file_access: true,
        allow_network: true,
        allow_exec: true,
        require_signed_binary: false,
        allow_setuid: false,
        allow_ptrace: false,
        allow_module_load: false,
        allow_bpf_load: false,
        require_proxy: true,
    }
}

fn manager() -> PolicyManager {
    let mut config = PolicyConfig::new();
    config.roles.insert(
        "code_agent".to_string(),
        Role {
            id: RoleId(100),
            name: "code_agent".to_string(),
            flags: flags(),
            file_paths: vec![PathPattern {
                pattern: "/etc/shadow".to_string(),
                allow: false,
                lockdown: true,
            }],
            network_rules: vec!["n1".to_string()],
            execution_rules: vec![],
            require_signed_binary: false,
            ip_rules: vec![IpRule {
                cidr: "169.254.169.254/32".to_string(),
                direction: "connect".to_string(),
                allow: false,
            }],
            domain_rules: vec!["deny evil.example".to_string()],
            proxy: Some("127.0.0.1:3128".to_string()),
        },
    );
    let mut pm = PolicyManager::new().unwrap();
    pm.load_from_file("/etc/p", Ok(config), vec![]).unwrap();
    let errors = pm.load_user_extensions(&vec![LoadedConfig {
        uid: 1000,
        username: "ann".to_string(),
        path: "/p".to_string(),
        config: Ok(UserExtensionConfig {
            user_extensions: vec![PathPattern {
                pattern: "/home/ann/private/".to_string(),
                allow: false,
                lockdown: false,
            }],
        }),
    }]);
    assert!(errors.is_empty());
    pm
}

const ANN: Peer = Peer { pid: 4242, uid: 1000 };

fn error_of(p: Progress) -> String {
    match p {
        Progress::Finished(EnrollmentResponse::Error(e)) => e,
        other => panic!("no error: {:?}", other),
    }
}

/// Serves a request with an outcome for each effect, and returns what was done.
fn serve<F: FnMut(&Effect) -> Outcome>(
    request: EnrollmentRequest,
    peer: Peer,
    mut perform: F,
) -> (Vec<String>, EnrollmentResponse) {
    let pm = manager();
    let mut done = Vec::new();
    let mut progress = handle_client(request, peer, &pm);
    loop {
        match progress {
            Progress::Finished(r) => return (done, r),
            Progress::Waiting(session) => {
                done.push(format!("{:?}", session.effect()));
                let outcome = perform(session.effect());
                progress = session.resume(outcome);
            }
        }
    }
}

#[test]
fn unknown_roles_are_refused_at_once() {
    let pm = manager();
    assert_eq!(
        error_of(handle_client(
            EnrollmentRequest::Enroll { pod_id: PodId(1), role_id: RoleId(7) },
            ANN,
            &pm
        )),
        "Unknown role ID: 7"
    );
    assert_eq!(
        error_of(handle_client(
            EnrollmentRequest::EnrollSelf { role: "nobody".to_string() },
            ANN,
            &pm
        )),
        "unknown role: nobody"
    );
    assert_eq!(
        error_of(handle_client(
            EnrollmentRequest::EnrollSelf { role: "code_agent".to_string() },
            Peer { pid: 0, uid: 1000 },
            &pm
        )),
        "cannot determine caller PID"
    );
}

#[test]
fn self_enrollment_goes_through_six_steps() {
    let (done, answer) = serve(
        EnrollmentRequest::EnrollSelf { role: "code_agent".to_string() },
        ANN,
        |e| match e {
            Effect::ApplyNetworkRules { .. } => Outcome::Failed("ignored".to_string()),
            Effect::EnrollProcess { pid, pod_id, role_id } => {
                assert_eq!((*pid, *pod_id, *role_id), (4242, PodId(14242), RoleId(100)));
                Outcome::Done
            }
            Effect::EnsureDirectory { path } => {
                assert_eq!(path, "/sys/fs/cgroup/bpfjailer/code_agent");
                Outcome::Done
            }
            Effect::WriteFile { path, content } => {
                assert_eq!(path, "/sys/fs/cgroup/bpfjailer/code_agent/cgroup.procs");
                assert_eq!(content, "4242\n");
                Outcome::Done
            }
            Effect::ApplyPathRules { paths, .. } => {
                let p: Vec<&str> = paths.iter().map(|p| p.pattern.as_str()).collect();
                assert_eq!(p, vec!["/etc/shadow", "/home/ann/private/"]);
                Outcome::Done
            }
            _ => Outcome::Done,
        },
    );
    assert_eq!(done.len(), 6);
    assert!(done[2].starts_with("SetRolePolicy"));
    match answer {
        EnrollmentResponse::Enrolled { cgroup } => assert_eq!(cgroup, "/bpfjailer/code_agent"),
        other => panic!("{:?}", other),
    }
}

#[test]
fn self_enrollment_stops_at_the_first_fatal_failure() {
    let messages = [
        "mkdir /sys/fs/cgroup/bpfjailer/code_agent: no",
        "write 4242 to /sys/fs/cgroup/bpfjailer/code_agent/cgroup.procs: no",
        "set_role_policy: no",
        "",
        "",
        "enroll_process: no",
    ];
    for (k, message) in messages.iter().enumerate() {
        let mut count = 0;
        let (done, answer) = serve(
            EnrollmentRequest::EnrollSelf { role: "code_agent".to_string() },
            ANN,
            |_| {
                count += 1;
                if count == k + 1 {
                    Outcome::Failed("no".to_string())
                } else {
                    Outcome::Done
                }
            },
        );
        if message.is_empty() {
            assert_eq!(done.len(), 6);
            assert!(matches!(answer, EnrollmentResponse::Enrolled { .. }));
        } else {
            assert_eq!(done.len(), k + 1);
            match answer {
                EnrollmentResponse::Error(e) => assert_eq!(e, *message),
                other => panic!("{:?}", other),
            }
        }
    }
}

#[test]
fn enrollment_by_number_uses_the_callers_process() {
    let (done, answer) = serve(
        EnrollmentRequest::Enroll { pod_id: PodId(9), role_id: RoleId(100) },
        ANN,
        |e| {
            if let Effect::EnrollProcess { pid, pod_id, role_id } = e {
                assert_eq!((*pid, *pod_id, *role_id), (4242, PodId(9), RoleId(100)));
            }
            if let Effect::ApplyPathRules { paths, .. } = e {
                assert_eq!(paths.len(), 1);
            }
            Outcome::Done
        },
    );
    assert_eq!(done.len(), 4);
    assert!(matches!(answer, EnrollmentResponse::Success));
    let (_, failed) = serve(
        EnrollmentRequest::Enroll { pod_id: PodId(9), role_id: RoleId(100) },
        ANN,
        |e| match e {
            Effect::EnrollProcess { .. } => Outcome::Failed("full".to_string()),
            _ => Outcome::Done,
        },
    );
    assert!(matches!(failed, EnrollmentResponse::Error(e) if e == "Enrollment failed: full"));
    let (_, failed) = serve(
        EnrollmentRequest::Enroll { pod_id: PodId(9), role_id: RoleId(100) },
        ANN,
        |_| Outcome::Failed("map".to_string()),
    );
    assert!(matches!(failed, EnrollmentResponse::Error(e) if e == "Failed to set role policy: map"));
}

#[test]
fn queries_are_answered_from_what_was_found() {
    let ask = || EnrollmentRequest::Query { pid: 5 };
    let (done, answer) = serve(ask(), ANN, |_| {
        Outcome::Enrollment(Some((PodId(1), RoleId(2))))
    });
    assert_eq!(done, vec!["QueryProcess { pid: 5 }".to_string()]);
    assert!(matches!(
        answer,
        EnrollmentResponse::ProcessInfo { pod_id: PodId(1), role_id: RoleId(2) }
    ));
    let (_, none) = serve(ask(), ANN, |_| Outcome::Enrollment(None));
    assert!(
        matches!(none, EnrollmentResponse::Error(e) if e == "Process not found or not enrolled")
    );
    let (_, bad) = serve(ask(), ANN, |_| Outcome::Failed("x".to_string()));
    assert!(matches!(bad, EnrollmentResponse::Error(e) if e == "Query failed: x"));
}

#[test]
fn marks_of_executables_are_read() {
    let ask = || EnrollmentRequest::CheckXattr { executable_path: "/bin/a".to_string() };
    let (_, answer) = serve(ask(), ANN, |_| Outcome::Enrollment(Some((PodId(3), RoleId(4)))));
    assert!(matches!(
        answer,
        EnrollmentResponse::XattrInfo { pod_id: PodId(3), role_id: RoleId(4) }
    ));
    let (_, none) = serve(ask(), ANN, |_| Outcome::Enrollment(None));
    assert!(matches!(none, EnrollmentResponse::Error(e) if e == "No xattr enrollment found"));
    let (_, bad) = serve(ask(), ANN, |_| Outcome::Failed("x".to_string()));
    assert!(
        matches!(bad, EnrollmentResponse::Error(e) if e == "Failed to check xattr enrollment: x")
    );
}

#[test]
fn other_enrollments_report_their_failures() {
    let path = || "/bin/a".to_string();
    let (pod_id, role_id) = (PodId(1), RoleId(2));
    let cases = vec![
        (
            EnrollmentRequest::EnrollExecutable { executable_path: path(), pod_id, role_id },
            "Failed to enroll executable: x",
        ),
        (
            EnrollmentRequest::RemoveExecutable { executable_path: path() },
            "Failed to remove executable enrollment: x",
        ),
        (
            EnrollmentRequest::EnrollCgroup { cgroup_path: path(), pod_id, role_id },
            "Failed to enroll cgroup: x",
        ),
        (
            EnrollmentRequest::RemoveCgroup { cgroup_path: path() },
            "Failed to remove cgroup enrollment: x",
        ),
        (
            EnrollmentRequest::SetXattr { executable_path: path(), pod_id, role_id },
            "Failed to set xattr enrollment: x",
        ),
        (
            EnrollmentRequest::RemoveXattr { executable_path: path() },
            "Failed to remove xattr enrollment: x",
        ),
    ];
    for (request, message) in cases {
        let (done, answer) = serve(request, ANN, |_| Outcome::Failed("x".to_string()));
        assert_eq!(done.len(), 1);
        assert!(done[0].contains("/bin/a"));
        assert!(matches!(answer, EnrollmentResponse::Error(e) if e == message));
    }
    let (_, answer) = serve(
        EnrollmentRequest::RemoveCgroup { cgroup_path: path() },
        ANN,
        |_| Outcome::Done,
    );
    assert!(matches!(answer, EnrollmentResponse::Success));
}

#[test]
fn reload_raises_a_hangup_and_succeeds() {
    let (done, answer) = serve(EnrollmentRequest::Reload, ANN, |_| Outcome::Done);
    assert_eq!(done, vec!["RaiseHangup".to_string()]);
    assert!(matches!(answer, EnrollmentResponse::Success));
}

#[test]
fn status_tells_the_state_of_the_daemon() {
    let (_, answer) = serve(EnrollmentRequest::Status, ANN, |_| Outcome::Hooks {
        attached: true,
        lsm_hooks: 6,
    });
    match answer {
        EnrollmentResponse::StatusInfo {
            attached,
            lsm_hooks,
            roles,
            cgroup_enrollments,
            exec_enrollments,
            policy_path,
        } => {
            assert!(attached);
            assert_eq!(lsm_hooks, 6);
            assert_eq!(roles, vec!["code_agent".to_string()]);
            assert_eq!((cgroup_enrollments, exec_enrollments), (0, 0));
            assert_eq!(policy_path, "/etc/p");
        }
        other => panic!("{:?}", other),
    }
}

#[test]
fn effective_policy_says_where_rules_come_from() {
    let (done, answer) = serve(EnrollmentRequest::EffectivePolicy, ANN, |_| Outcome::Done);
    assert!(done.is_empty());
    let roles = match answer {
        EnrollmentResponse::EffectivePolicyInfo { roles } => roles,
        other => panic!("{:?}", other),
    };
    assert_eq!(roles.len(), 1);
    let r = &roles[0];
    assert_eq!((r.name.as_str(), r.id), ("code_agent", 100));
    assert_eq!(r.flags.len(), 9);
    assert_eq!(r.flags[0], ("allow_file_access".to_string(), true));
    assert_eq!(r.flags[8], ("require_proxy".to_string(), true));
    let paths: Vec<(&str, &str, bool)> = r
        .file_paths
        .iter()
        .map(|a| (a.rule.as_str(), a.source.as_str(), a.lockdown))
        .collect();
    assert_eq!(
        paths,
        vec![
            ("deny /etc/shadow", "base", true),
            ("deny /home/ann/private/", "user", false)
        ]
    );
    assert_eq!(r.ip_rules[0].rule, "deny connect 169.254.169.254/32");
    assert_eq!(r.domain_rules[0].rule, "deny evil.example");
    assert_eq!(r.proxy, Some("127.0.0.1:3128".to_string()));
    let (_, other) = serve(
        EnrollmentRequest::EffectivePolicy,
        Peer { pid: 1, uid: 2000 },
        |_| Outcome::Done,
    );
    assert!(
        matches!(other, EnrollmentResponse::EffectivePolicyInfo { roles } if roles[0].file_paths.len() == 1)
    );
}

#[test]
fn groups_are_looked_up_by_name() {
    let content = "root:x:0:\nbpf\nbpfjailer:x:987:ann,bob\nbpfjailer:x:5:\nodd:x:y:\n";
    assert_eq!(lookup_group_gid(content, "bpfjailer"), Some(987));
    assert_eq!(lookup_group_gid(content, "bpf"), None);
    assert_eq!(lookup_group_gid(content, "odd"), None);
    assert_eq!(lookup_group_gid(content, "none"), None);
    assert_eq!(lookup_group_gid("", "root"), None);
}

#[test]
fn socket_is_open_to_all_where_the_group_cannot_have_it() {
    assert_eq!(socket_permissions(Some(987), true), 0o660);
    assert_eq!(socket_permissions(Some(987), false), 0o666);
    assert_eq!(socket_permissions(None, false), 0o666);
    assert_eq!(socket_permissions(None, true), 0o666);
}

#[test]
fn roles_that_share_a_number_are_shown_as_enforced() {
    let bare = |name: &str, pattern: &str| Role {
        id: RoleId(5),
        name: name.to_string(),
        flags: flags(),
        file_paths: vec![PathPattern {
            pattern: pattern.to_string(),
            allow: false,
            lockdown: false,
        }],
        network_rules: vec![],
        execution_rules: vec![],
        require_signed_binary: false,
        ip_rules: vec![],
        domain_rules: vec![],
        proxy: None,
    };
    let mut config = PolicyConfig::new();
    config.roles.insert("a".to_string(), bare("a", "/a"));
    config.roles.insert("b".to_string(), bare("b", "/b"));
    let mut pm = PolicyManager::new().unwrap();
    pm.load_from_file("p", Ok(config), vec![]).unwrap();
    let enforced = pm.effective_file_paths(pm.get_role_by_name("a").unwrap().id, Some(1));
    match handle_client(EnrollmentRequest::EffectivePolicy, ANN, &pm) {
        Progress::Finished(EnrollmentResponse::EffectivePolicyInfo { roles }) => {
            assert_eq!(roles[0].name, "a");
            assert_eq!(
                roles[0].file_paths[0].rule,
                format!("deny {}", enforced[0].pattern)
            );
        }
        other => panic!("{:?}", other),
    }
}
