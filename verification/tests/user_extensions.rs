use bpfjailer::common::{PathPattern, PolicyFlags, Role, RoleId, RoleTable, UserExtensionConfig};
use bpfjailer::daemon::user_extensions::{
    admit_user_config, discover_user_configs, load_all, load_user_config, patterns_overlap,
    validate_user_config, ConfigFileError, LoadedConfig,
};

fn rule(pattern: &str, allow: bool, lockdown: bool) -> PathPattern {
    PathPattern { pattern: pattern.to_string(), allow, lockdown }
}

fn role(id: u32, name: &str, file_paths: Vec<PathPattern>) -> Role {
    Role {
        id: RoleId(id),
        name: name.to_string(),
        flags: PolicyFlags {
            allow_file_access: true,
            allow_network: true,
            allow_exec: true,
            require_signed_binary: false,
            allow_setuid: false,
            allow_ptrace: false,
            allow_module_load: false,
            allow_bpf_load: false,
            require_proxy: false,
        },
        file_paths,
        network_rules: vec![],
        execution_rules: vec![],
        require_signed_binary: false,
        ip_rules: vec![],
        domain_rules: vec![],
        proxy: None,
    }
}

#[test]
fn people_are_found_in_the_user_database() {
    let passwd = "root:x:0:0:root:/root:/bin/bash\n\
                  ann:x:1000:1000::/home/ann:/bin/bash\n\
                  svc:x:1001:1001::/srv:/usr/sbin/nologin\n\
                  off:x:1002:1002::/home/off:/bin/false\n\
                  short:x:1003:1003::/home/short\n\
                  few:x:1004\n\
                  odd:x:abc:1:y:/home/odd:/bin/sh\n\
                  slash:x:2000:2000::/home/slash/:/bin/sh\n";
    assert_eq!(
        discover_user_configs(passwd),
        vec![
            (
                1000,
                "ann".to_string(),
                "/home/ann/.config/icb/sandbox/policy.toml".to_string()
            ),
            (
                1003,
                "short".to_string(),
                "/home/short/.config/icb/sandbox/policy.toml".to_string()
            ),
            (
                2000,
                "slash".to_string(),
                "/home/slash/.config/icb/sandbox/policy.toml".to_string()
            ),
        ]
    );
}

#[test]
fn home_directories_are_joined_as_paths() {
    for home in ["", "/home/x", "/home/x/", "rel"] {
        let line = format!("u:x:1000:1:g:{}:/bin/sh", home);
        let expected = std::path::PathBuf::from(home).join(".config/icb/sandbox/policy.toml");
        assert_eq!(discover_user_configs(&line)[0].2, expected.to_str().unwrap());
    }
}

#[test]
fn links_and_foreign_files_are_rejected() {
    assert_eq!(admit_user_config("/p", false, 1000, 1000), Ok(()));
    assert_eq!(
        admit_user_config("/p", true, 1000, 1000),
        Err("rejecting symlink at /p".to_string())
    );
    assert_eq!(
        admit_user_config("/p", false, 0, 1000),
        Err("/p owned by uid 0 but expected 1000".to_string())
    );
}

#[test]
fn files_are_loaded_where_they_are_admitted() {
    let content = || Ok(UserExtensionConfig { user_extensions: vec![rule("/x", false, false)] });
    assert_eq!(
        load_user_config("/p", false, 1000, 1000, content()).unwrap().user_extensions.len(),
        1
    );
    assert_eq!(
        load_user_config("/p", true, 1000, 1000, content()).unwrap_err(),
        "rejecting symlink at /p"
    );
    assert_eq!(
        load_user_config(
            "/p",
            false,
            1000,
            1000,
            Err(ConfigFileError::Malformed("bad".to_string()))
        )
        .unwrap_err(),
        "invalid user extension TOML: bad"
    );
    assert_eq!(
        load_user_config(
            "/p",
            false,
            1000,
            1000,
            Err(ConfigFileError::Unreadable("denied".to_string()))
        )
        .unwrap_err(),
        "denied"
    );
}

#[test]
fn patterns_overlap_where_one_begins_with_the_other() {
    assert!(patterns_overlap("/home/", "/home/me"));
    assert!(patterns_overlap("/home/me", "/home/"));
    assert!(patterns_overlap("/a", "/a"));
    assert!(patterns_overlap("", "/a"));
    assert!(!patterns_overlap("/a/b", "/a/c"));
}

#[test]
fn every_violation_is_reported() {
    let r = role(1, "r", vec![rule("/etc/", false, true), rule("/tmp/", false, false)]);
    let c = UserExtensionConfig {
        user_extensions: vec![
            rule("/ok/", false, false),
            rule("/etc/ssh/", true, true),
            rule("/tmp/x", false, false),
        ],
    };
    assert_eq!(
        validate_user_config(&c, &r, "ann"),
        Err(vec![
            "[ann] user_extensions[1]: allow=true is forbidden (pattern: /etc/ssh/)".to_string(),
            "[ann] user_extensions[1]: lockdown=true is forbidden (pattern: /etc/ssh/)".to_string(),
            "[ann] user_extensions[1]: pattern \"/etc/ssh/\" conflicts with lockdown rule \"/etc/\""
                .to_string(),
        ])
    );
    let fine = UserExtensionConfig { user_extensions: vec![rule("/ok/", false, false)] };
    assert_eq!(validate_user_config(&fine, &r, "ann"), Ok(()));
}

#[test]
fn files_with_violations_are_left_out_as_a_whole() {
    let mut roles = RoleTable::new();
    roles.insert("a".to_string(), role(1, "a", vec![]));
    roles.insert("b".to_string(), role(2, "b", vec![rule("/lock/", false, true)]));
    let configs = vec![
        LoadedConfig {
            uid: 1000,
            username: "ann".to_string(),
            path: "/pa".to_string(),
            config: Ok(UserExtensionConfig {
                user_extensions: vec![rule("/fine/", false, false), rule("/lock/x", false, false)],
            }),
        },
        LoadedConfig {
            uid: 1001,
            username: "bob".to_string(),
            path: "/pb".to_string(),
            config: Err("denied".to_string()),
        },
        LoadedConfig {
            uid: 1002,
            username: "cy".to_string(),
            path: "/pc".to_string(),
            config: Ok(UserExtensionConfig { user_extensions: vec![] }),
        },
        LoadedConfig {
            uid: 1003,
            username: "di".to_string(),
            path: "/pd".to_string(),
            config: Ok(UserExtensionConfig { user_extensions: vec![rule("/d/", false, false)] }),
        },
    ];
    let (rules, errors) = load_all(&roles, &configs);
    assert_eq!(rules.len(), 1);
    assert_eq!(rules[&1003].len(), 1);
    assert_eq!(rules[&1003][0].pattern, "/d/");
    assert_eq!(
        errors,
        vec![
            "[ann] user_extensions[1]: pattern \"/lock/x\" conflicts with lockdown rule \"/lock/\""
                .to_string(),
            "[bob] failed to load /pb: denied".to_string(),
        ]
    );
}

#[test]
fn files_with_forbidden_rules_are_not_loaded() {
    let load = |v: Vec<PathPattern>| {
        load_user_config("/p", false, 1000, 1000, Ok(UserExtensionConfig { user_extensions: v }))
    };
    assert_eq!(
        load(vec![rule("/a", true, false)]).unwrap_err(),
        "invalid user extension rules: user_extensions[0]: allow=true is forbidden (pattern: /a)"
    );
    assert_eq!(
        load(vec![rule("/ok", false, false), rule("/b", true, true)]).unwrap_err(),
        "invalid user extension rules: user_extensions[1]: allow=true is forbidden (pattern: /b); \
         user_extensions[1]: lockdown=true is forbidden (pattern: /b)"
    );
    assert_eq!(load(vec![rule("/ok", false, false)]).unwrap().user_extensions.len(), 1);
}

#[test]
fn forbidden_rules_are_refused_without_roles() {
    let configs = |allow: bool, lockdown: bool| {
        vec![LoadedConfig {
            uid: 1000,
            username: "ann".to_string(),
            path: "/p".to_string(),
            config: Ok(UserExtensionConfig {
                user_extensions: vec![rule("/a", allow, lockdown)],
            }),
        }]
    };
    let none = RoleTable::new();
    let (rules, errors) = load_all(&none, &configs(true, false));
    assert!(!rules.contains_key(&1000));
    assert_eq!(
        errors,
        vec!["[ann] user_extensions[0]: allow=true is forbidden (pattern: /a)".to_string()]
    );
    let (rules, errors) = load_all(&none, &configs(false, true));
    assert!(rules.is_empty());
    assert_eq!(errors.len(), 1);
    let (rules, errors) = load_all(&none, &configs(false, false));
    assert_eq!(rules[&1000].len(), 1);
    assert!(errors.is_empty());
}
