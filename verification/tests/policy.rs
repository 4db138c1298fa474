use bpfjailer::common::{
    CgroupEnrollment, ExecEnrollment, PathPattern, PodId, PolicyConfig, PolicyFlags, Role, RoleId,
    UserExtensionConfig,
};
use bpfjailer::daemon::policy::{select_drop_ins, PolicyFileError, PolicyManager};
use bpfjailer::daemon::user_extensions::LoadedConfig;

fn rule(pattern: &str, allow: bool, lockdown: bool) -> PathPattern {
    PathPattern { pattern: pattern.to_string(), allow, lockdown }
}

fn role(id: u32, name: &str, file_paths: Vec<PathPattern>) -> Role {
    Role {
        id: RoleId(id),
        name: name.to_string(),
        flags: PolicyFlags {
            allow_file_access: true,
            allow_network: true,
            allow_exec: true,
            require_signed_binary: false,
            allow_setuid: false,
            allow_ptrace: false,
            allow_module_load: false,
            allow_bpf_load: false,
            require_proxy: false,
        },
        file_paths,
        network_rules: vec![],
        execution_rules: vec![],
        require_signed_binary: false,
        ip_rules: vec![],
        domain_rules: vec![],
        proxy: None,
    }
}

fn config(roles: Vec<Role>) -> PolicyConfig {
    let mut c = PolicyConfig::new();
    for r in roles {
        c.roles.insert(r.name.clone(), r);
    }
    c
}

fn patterns(v: &[PathPattern]) -> Vec<String> {
    v.iter().map(|p| p.pattern.clone()).collect()
}

fn user(uid: u32, exts: Vec<PathPattern>) -> LoadedConfig {
    LoadedConfig {
        uid,
        username: format!("user{}", uid),
        path: format!("/home/user{}/policy.toml", uid),
        config: Ok(UserExtensionConfig { user_extensions: exts }),
    }
}

#[test]
fn default_policy_has_two_roles() {
    let pm = PolicyManager::new().unwrap();
    assert_eq!(pm.role_names(), vec!["restricted".to_string(), "permissive".to_string()]);
    assert_eq!(pm.policy_path(), "(defaults)");
    let restricted = pm.get_role(RoleId(1)).unwrap();
    assert_eq!(restricted.name, "restricted");
    assert!(!restricted.flags.allow_file_access);
    let permissive = pm.get_role_by_name("permissive").unwrap();
    assert_eq!(permissive.id, RoleId(2));
    assert!(permissive.flags.allow_bpf_load);
    assert!(!permissive.flags.allow_setuid);
    assert!(pm.get_role(RoleId(3)).is_none());
    assert!(pm.get_role_by_name("code_agent").is_none());
    assert_eq!(pm.extensions_count(), 0);
}

#[test]
fn loading_replaces_the_policy() {
    let mut pm = PolicyManager::new().unwrap();
    let base = config(vec![role(100, "code_agent", vec![rule("/etc/shadow", false, false)])]);
    assert_eq!(pm.load_from_file("/etc/p.toml", Ok(base), vec![]), Ok(()));
    assert_eq!(pm.policy_path(), "/etc/p.toml");
    assert_eq!(pm.role_names(), vec!["code_agent".to_string()]);
    assert!(pm.get_role(RoleId(1)).is_none());
    assert_eq!(pm.get_role(RoleId(100)).unwrap().file_paths.len(), 1);
}

#[test]
fn unreadable_policy_changes_only_the_path() {
    let mut pm = PolicyManager::new().unwrap();
    assert_eq!(
        pm.load_from_file("/x", Err(PolicyFileError::Unreadable("gone".to_string())), vec![]),
        Err("gone".to_string())
    );
    assert_eq!(pm.policy_path(), "/x");
    assert!(pm.get_role(RoleId(1)).is_some());
    assert_eq!(
        pm.load_from_file("/y", Err(PolicyFileError::Malformed("line 1".to_string())), vec![]),
        Err("policy parse error: line 1".to_string())
    );
    assert_eq!(pm.role_names().len(), 2);
}

#[test]
fn later_fragments_win() {
    let mut pm = PolicyManager::new().unwrap();
    let base = config(vec![role(1, "a", vec![]), role(2, "b", vec![])]);
    let mut first = config(vec![role(10, "a", vec![])]);
    first.pods.push("p".to_string());
    first.exec_enrollments.push(ExecEnrollment {
        executable_path: "/bin/x".to_string(),
        pod_id: 1,
        role: "a".to_string(),
    });
    let second = config(vec![role(11, "a", vec![]), role(12, "c", vec![])]);
    let unreadable = Err(PolicyFileError::Unreadable("gone".to_string()));
    let malformed = Err(PolicyFileError::Malformed("line 1".to_string()));
    assert_eq!(
        pm.load_from_file("p", Ok(base), vec![unreadable, Ok(first), malformed, Ok(second)]),
        Ok(())
    );
    assert_eq!(pm.get_role_by_name("a").unwrap().id, RoleId(11));
    assert_eq!(pm.get_role_by_name("b").unwrap().id, RoleId(2));
    assert_eq!(pm.get_role_by_name("c").unwrap().id, RoleId(12));
    assert!(pm.get_role(RoleId(10)).is_none());
    assert_eq!(pm.config().pods, vec!["p".to_string()]);
    assert_eq!(pm.exec_enrollment_count(), 1);
}

#[test]
fn fragments_are_chosen_and_sorted() {
    let names: Vec<Vec<u8>> = ["20-b.toml", "README", ".toml", "10-a.toml", "x.toml.bak", "Z.toml"]
        .iter()
        .map(|s| s.as_bytes().to_vec())
        .collect();
    let chosen: Vec<String> = select_drop_ins(&names)
        .into_iter()
        .map(|b| String::from_utf8(b).unwrap())
        .collect();
    assert_eq!(chosen, vec!["10-a.toml", "20-b.toml", "Z.toml"]);
}

#[test]
fn enrollments_of_unknown_roles_are_left_out() {
    let mut c = config(vec![role(100, "code_agent", vec![])]);
    c.exec_enrollments.push(ExecEnrollment {
        executable_path: "/usr/bin/icb-agent".to_string(),
        pod_id: 5010,
        role: "code_agent".to_string(),
    });
    c.exec_enrollments.push(ExecEnrollment {
        executable_path: "/usr/bin/git".to_string(),
        pod_id: 5001,
        role: "git_agent".to_string(),
    });
    c.cgroup_enrollments.push(CgroupEnrollment {
        cgroup_path: "/sys/fs/cgroup/bpfjailer/code-agent".to_string(),
        pod_id: 5000,
        role: "code_agent".to_string(),
    });
    let mut pm = PolicyManager::new().unwrap();
    pm.load_from_file("p", Ok(c), vec![]).unwrap();
    assert_eq!(
        pm.get_exec_enrollments(),
        vec![("/usr/bin/icb-agent".to_string(), PodId(5010), RoleId(100))]
    );
    assert_eq!(
        pm.get_cgroup_enrollments(),
        vec![("/sys/fs/cgroup/bpfjailer/code-agent".to_string(), PodId(5000), RoleId(100))]
    );
    assert_eq!(pm.exec_enrollment_count(), 2);
    assert_eq!(pm.cgroup_enrollment_count(), 1);
}

#[test]
fn user_rules_come_behind_those_of_the_role() {
    let mut pm = PolicyManager::new().unwrap();
    let base = config(vec![role(100, "code_agent", vec![rule("/etc/shadow", false, true)])]);
    pm.load_from_file("p", Ok(base), vec![]).unwrap();
    let errors = pm.load_user_extensions(&vec![
        user(1000, vec![rule("/home/me/private/", false, false)]),
        user(1001, vec![rule("/home/you/", true, false)]),
    ]);
    assert_eq!(
        errors,
        vec!["[user1001] user_extensions[0]: allow=true is forbidden (pattern: /home/you/)"
            .to_string()]
    );
    assert_eq!(
        patterns(&pm.effective_file_paths(RoleId(100), Some(1000))),
        vec!["/etc/shadow", "/home/me/private/"]
    );
    assert_eq!(patterns(&pm.effective_file_paths(RoleId(100), Some(1001))), vec!["/etc/shadow"]);
    assert_eq!(patterns(&pm.effective_file_paths(RoleId(100), None)), vec!["/etc/shadow"]);
    assert!(pm.effective_file_paths(RoleId(5), Some(1000)).is_empty());
    assert_eq!(pm.extensions_count(), 1);
    assert!(pm.get_user_extensions(1001).is_none());
    assert_eq!(pm.get_user_extensions(1000).unwrap().len(), 1);
    assert_eq!(pm.all_extensions().len(), 1);
}

#[test]
fn rules_of_all_users_are_merged() {
    let mut pm = PolicyManager::new().unwrap();
    let errors = pm.load_user_extensions(&vec![
        user(1000, vec![rule("/a", false, false), rule("/b", false, false)]),
        user(1001, vec![rule("/c", false, false)]),
    ]);
    assert!(errors.is_empty());
    let mut all = patterns(&pm.effective_file_paths_all(RoleId(2)));
    all.sort();
    assert_eq!(all, vec!["/a", "/b", "/c"]);
    assert!(pm.effective_file_paths_all(RoleId(7)).is_empty());
}
