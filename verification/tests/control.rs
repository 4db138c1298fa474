use bpfjailer::common::{IpRule, PathPattern, PolicyConfig, PolicyFlags, Role, RoleId};
use bpfjailer::daemon::control::{
    choose_policy_path, disabled_banner_lines, on_hangup, reload_applications, started_line,
    startup, startup_applications, Application, HangupStep, Startup,
};
use bpfjailer::daemon::policy::PolicyManager;

fn bare(id: u32, name: &str) -> Role {
    Role {
        id: RoleId(id),
        name: name.to_string(),
        flags: PolicyFlags {
            allow_file_access: false,
            allow_network: false,
            allow_exec: false,
            require_signed_binary: false,
            allow_setuid: false,
            allow_ptrace: false,
            allow_module_load: false,
            allow_bpf_load: false,
            require_proxy: false,
        },
        file_paths: vec![],
        network_rules: vec![],
        execution_rules: vec![],
        require_signed_binary: false,
        ip_rules: vec![],
        domain_rules: vec![],
        proxy: None,
    }
}

fn config() -> PolicyConfig {
    let mut a = bare(1, "a");
    a.file_paths.push(PathPattern { pattern: "/x".to_string(), allow: false, lockdown: false });
    a.proxy = Some("p:1".to_string());
    let mut b = bare(2, "b");
    b.file_paths.push(PathPattern { pattern: "/y".to_string(), allow: true, lockdown: false });
    b.ip_rules.push(IpRule {
        cidr: "10.0.0.0/8".to_string(),
        direction: "connect".to_string(),
        allow: false,
    });
    b.domain_rules.push("d".to_string());
    let mut c = PolicyConfig::new();
    c.roles.insert("a".to_string(), a);
    c.roles.insert("b".to_string(), b);
    c
}

#[test]
fn the_daemon_starts_as_the_sentinel_says() {
    assert!(matches!(startup(vec![], false), Startup::Enforce));
    assert!(matches!(startup(vec![], true), Startup::Idle));
    assert!(matches!(
        startup(vec!["BTF (vmlinux)".to_string()], true),
        Startup::Refuse(v) if v == vec!["BTF (vmlinux)".to_string()]
    ));
}

#[test]
fn the_banner_names_the_sentinel() {
    let lines = disabled_banner_lines();
    assert_eq!(lines.len(), 6);
    assert_eq!(lines[0], "=".repeat(64));
    assert_eq!(lines[1], "=  EMERGENCY DISABLE active: /etc/bpfjailer/disabled exists.");
    assert_eq!(started_line(true), "BpfJailer daemon started (enforcement ON)");
    assert_eq!(
        started_line(false),
        "BpfJailer daemon started (enforcement OFF (disabled sentinel present))"
    );
}

#[test]
fn the_policy_file_is_chosen() {
    assert_eq!(
        choose_policy_path(Some("/e".to_string()), true, true),
        Some("/e".to_string())
    );
    assert_eq!(
        choose_policy_path(None, true, true),
        Some("/etc/bpfjailer/policy.json".to_string())
    );
    assert_eq!(choose_policy_path(None, false, true), Some("config/policy.json".to_string()));
    assert_eq!(choose_policy_path(None, false, false), None);
}

#[test]
fn startup_puts_the_policy_in_force() {
    let v = startup_applications(&config());
    assert_eq!(v.len(), 5);
    assert!(
        matches!(&v[0], Application::CompilePatterns(p) if *p == vec!["/x".to_string(), "/y".to_string()])
    );
    assert!(matches!(&v[1], Application::InvalidateCache));
    assert!(
        matches!(&v[2], Application::SetProxy { role_id: RoleId(1), proxy } if proxy == "p:1")
    );
    assert!(matches!(&v[3], Application::ApplyIpRules { role_id: RoleId(2), ips } if ips.len() == 1));
    assert!(
        matches!(&v[4], Application::ApplyDomainRules { role_id: RoleId(2), domains } if domains.len() == 1)
    );
    assert!(startup_applications(&PolicyConfig::new()).is_empty());
}

#[test]
fn reload_reaches_every_role() {
    let mut pm = PolicyManager::new().unwrap();
    pm.load_from_file("p", Ok(config()), vec![]).unwrap();
    let v = reload_applications(&pm);
    assert_eq!(v.len(), 11);
    assert!(matches!(&v[0], Application::SetRolePolicy { role_id: RoleId(1), .. }));
    assert!(matches!(&v[4], Application::ApplyNetworkRules { role_id: RoleId(2), .. }));
    assert!(
        matches!(&v[5], Application::ApplyPathRules { role_id: RoleId(2), paths } if paths.len() == 1)
    );
}

#[test]
fn a_hangup_follows_the_sentinel_and_reloads() {
    let reload = vec![
        HangupStep::ClearMaps,
        HangupStep::ReadPolicy,
        HangupStep::ReadUserExtensions,
        HangupStep::PopulateMaps,
        HangupStep::FlushCache,
    ];
    assert_eq!(on_hangup(true, false), reload);
    assert_eq!(on_hangup(false, true), reload);
    assert_eq!(on_hangup(true, true)[0], HangupStep::Detach);
    assert_eq!(on_hangup(true, true)[1..], reload[..]);
    assert_eq!(on_hangup(false, false)[0], HangupStep::Attach);
    assert_eq!(on_hangup(false, false).len(), 6);
}
