use bpfjailer::ctl::{
    audit, doctor, effective_policy, enroll, reload, run, status, uninstall, validate,
};
use bpfjailer::ctl::run::{advance, Event, Move, Stage, Wishes};
use bpfjailer::ctl::uninstall::Step;
use bpfjailer::json::Json;

fn text(s: &str) -> Json {
    Json::Text(s.to_string())
}

fn object(fields: Vec<(&str, Json)>) -> Json {
    Json::Object(fields.into_iter().map(|(k, v)| (k.to_string(), v)).collect())
}

#[test]
fn enroll_asks_for_the_role() {
    assert_eq!(
        enroll::request_line(7, 7, "r"),
        Ok("{\"EnrollSelf\":{\"role\":\"r\"}}\n".to_string())
    );
    assert_eq!(
        enroll::connect_error("refused"),
        "cannot connect to /run/bpfjailer/enrollment.sock: refused. Is the daemon running?"
    );
}

#[test]
fn enroll_reads_every_answer() {
    assert_eq!(
        enroll::read_response(7, 7, "r", "{\"Enrolled\":{\"cgroup\":\"/bpfjailer/r\"}}\n"),
        Ok("Enrolled PID 7 into role \"r\" (cgroup: /bpfjailer/r)".to_string())
    );
    assert_eq!(
        enroll::read_response(7, 7, "r", "\"Success\"\n"),
        Ok("Enrolled PID 7 into role \"r\"".to_string())
    );
    assert_eq!(
        enroll::read_response(7, 7, "r", "{\"Error\":\"unknown role: r\"}"),
        Err("enrollment failed: unknown role: r".to_string())
    );
    assert_eq!(
        enroll::read_response(7, 7, "r", " {\"Other\":1}\n"),
        Err("unexpected response: {\"Other\":1}".to_string())
    );
    assert_eq!(
        enroll::read_response(7, 7, "r", ""),
        Err("invalid response: EOF while parsing a value at line 1 column 0".to_string())
    );
}

#[test]
fn reload_reads_every_answer() {
    assert_eq!(reload::request_line(), "\"Reload\"\n");
    assert_eq!(
        reload::connect_error("x"),
        "cannot connect to /run/bpfjailer/enrollment.sock: x. Is the daemon running? \
         Are you in the 'bpfjailer' group?"
    );
    assert_eq!(
        reload::read_response("\"Success\""),
        Ok("Reload signal sent. Daemon will re-read policy and user extensions.".to_string())
    );
    assert_eq!(
        reload::read_response("{\"Error\":\"no\"}"),
        Err("reload failed: no".to_string())
    );
    assert_eq!(reload::read_response("17 \n"), Ok("Response: 17".to_string()));
    assert!(reload::read_response("nope").unwrap_err().starts_with("invalid response: "));
}

#[test]
fn status_shows_the_state() {
    assert_eq!(status::request_line(), "\"Status\"\n");
    let info = object(vec![
        ("attached", Json::Bool(true)),
        ("lsm_hooks", Json::Number(Some(6))),
        ("roles", Json::Array(vec![text("a"), Json::Null, text("b")])),
        ("cgroup_enrollments", Json::Number(Some(1))),
        ("exec_enrollments", Json::Number(Some(2))),
        ("policy_path", text("/etc/p")),
    ]);
    assert_eq!(
        status::render(&info),
        vec![
            "\x1b[32m●\x1b[0m bpfjailer-daemon: enforcing",
            "  LSM hooks:    6",
            "  Policy:       /etc/p",
            "  Roles:        2 (a, b)",
            "  Enrollments:  1 cgroup, 2 exec",
        ]
    );
    assert_eq!(
        status::render(&Json::Null),
        vec![
            "\x1b[31m○\x1b[0m bpfjailer-daemon: disabled",
            "  LSM hooks:    0",
            "  Policy:       ?",
            "  Enrollments:  0 cgroup, 0 exec",
        ]
    );
}

#[test]
fn status_reads_every_answer() {
    assert_eq!(
        status::connect_error("x"),
        "cannot connect to /run/bpfjailer/enrollment.sock: x. Is the daemon running?"
    );
    assert_eq!(
        status::read_response("{\"StatusInfo\":{\"attached\":true}}").unwrap().len(),
        4
    );
    assert_eq!(
        status::read_response("{\"Error\":\"no\"}"),
        Err("status query failed: no".to_string())
    );
    assert_eq!(status::read_response(" 1 "), Ok(vec!["1".to_string()]));
    assert!(status::read_response("{").unwrap_err().starts_with("invalid response: "));
}

#[test]
fn effective_policy_is_shown_with_sources() {
    let rule = |r: &str, s: &str, l: bool| {
        object(vec![("rule", text(r)), ("source", text(s)), ("lockdown", Json::Bool(l))])
    };
    let response = object(vec![(
        "EffectivePolicyInfo",
        object(vec![(
            "roles",
            Json::Array(vec![object(vec![
                ("name", text("code_agent")),
                ("id", Json::Number(Some(100))),
                (
                    "flags",
                    Json::Array(vec![
                        Json::Array(vec![text("allow_network"), Json::Bool(true)]),
                        Json::Array(vec![text("allow_ptrace"), Json::Bool(false)]),
                        Json::Array(vec![text("broken")]),
                    ]),
                ),
                (
                    "file_paths",
                    Json::Array(vec![
                        rule("deny /etc/shadow", "base", true),
                        rule("deny /home/me/", "user", false),
                        Json::Null,
                    ]),
                ),
                ("ip_rules", Json::Array(vec![])),
                ("domain_rules", Json::Array(vec![rule("deny d", "base", false)])),
                ("proxy", text("p:1")),
            ])]),
        )]),
    )]);
    assert_eq!(
        effective_policy::interpret(&response).unwrap(),
        vec![
            "Role: code_agent (id=100)".to_string(),
            "=".repeat(40),
            "  Flags:".to_string(),
            format!("    {:<20} yes", "allow_network"),
            format!("    {:<20} no", "allow_ptrace"),
            "  File paths:".to_string(),
            format!("    {:<40} (base) [LOCKED]", "deny /etc/shadow"),
            format!("    {:<40} (user)", "deny /home/me/"),
            format!("    {:<40} (?)", "?"),
            "  Domain rules:".to_string(),
            format!("    {:<40} (base)", "deny d"),
            "  Proxy: p:1".to_string(),
            "".to_string(),
        ]
    );
    assert_eq!(
        effective_policy::print_rule(&Json::Null),
        format!("    {:<40} (?)", "?")
    );
}

#[test]
fn effective_policy_reads_every_answer() {
    assert_eq!(effective_policy::request_line(), "\"EffectivePolicy\"\n");
    assert_eq!(
        effective_policy::connect_error("x"),
        "cannot connect to /run/bpfjailer/enrollment.sock: x. Is the daemon running?"
    );
    assert_eq!(
        effective_policy::read_response("{\"Error\":\"no\"}"),
        Err("daemon error: no".to_string())
    );
    assert_eq!(
        effective_policy::read_response("\"Success\""),
        Err("unexpected response".to_string())
    );
    assert_eq!(
        effective_policy::read_response("{\"EffectivePolicyInfo\":{}}"),
        Err("missing roles in response".to_string())
    );
    assert_eq!(
        effective_policy::read_response("{\"EffectivePolicyInfo\":{\"roles\":[{}]}}"),
        Ok(vec!["Role: ? (id=0)".to_string(), "=".repeat(40), "".to_string()])
    );
    assert!(effective_policy::read_response("")
        .unwrap_err()
        .starts_with("invalid response: "));
}

#[test]
fn own_control_group_is_found() {
    assert_eq!(
        run::current_cgroup("12:cpu:/x\n0::/user.slice/a:b\n"),
        Ok("/user.slice/a:b".to_string())
    );
    assert_eq!(run::current_cgroup("0::\n"), Ok("".to_string()));
    assert_eq!(
        run::current_cgroup("1:cpu:/x\n0:"),
        Err("Could not determine current cgroup from /proc/self/cgroup".to_string())
    );
}

fn nothing() -> Wishes {
    Wishes { policy: None, cgroup: None }
}

fn fail(m: Move) -> String {
    match m {
        Move::Fail(e) => e,
        other => panic!("{:?}", other),
    }
}

#[test]
fn the_way_into_the_sandbox() {
    assert!(matches!(
        advance(Stage::Start, Event::Cgroups(Ok("0::/user\n".to_string())), &nothing()),
        Move::Goto(Stage::Outside, None)
    ));
    assert!(matches!(
        advance(Stage::Outside, Event::Socket(true), &nothing()),
        Move::Goto(Stage::DaemonThere, Some(n)) if n == "[jailerctl] requesting enrollment from daemon..."
    ));
    assert!(matches!(
        advance(
            Stage::DaemonThere,
            Event::Answer(Ok("{\"Enrolled\":{\"cgroup\":\"/bpfjailer/code_agent\"}}\n".to_string())), &nothing()),
        Move::Goto(Stage::Enrolled, Some(n)) if n == "[jailerctl] enrolled: ok (/bpfjailer/code_agent)"
    ));
    assert!(matches!(
        advance(Stage::Enrolled, Event::Cgroups(Ok("0::/bpfjailer/code_agent\n".to_string())), &nothing()),
        Move::Execute
    ));
}

#[test]
fn every_turn_away_from_the_sandbox() {
    assert_eq!(
        fail(advance(Stage::Start, Event::Cgroups(Ok("0::/bpfjailer/x".to_string())), &nothing())),
        "Already inside a jailed shell (cgroup=/bpfjailer/x). Exit first."
    );
    assert_eq!(
        fail(advance(Stage::Start, Event::Cgroups(Err("io".to_string())), &nothing())),
        "io"
    );
    assert_eq!(
        fail(advance(Stage::Outside, Event::Socket(false), &nothing())),
        "Daemon not running (no socket at /run/bpfjailer/enrollment.sock). Start it first:\n  \
         sudo systemctl start bpfjailer-daemon"
    );
    assert_eq!(
        fail(advance(Stage::DaemonThere, Event::Answer(Err("gone".to_string())), &nothing())),
        "gone"
    );
    assert_eq!(
        fail(advance(
            Stage::DaemonThere,
            Event::Answer(Ok("{\"Error\":\"no\"}".to_string())), &nothing())),
        "daemon refused enrollment: no"
    );
    assert_eq!(
        fail(advance(Stage::DaemonThere, Event::Answer(Ok("\"Success\"\n".to_string())), &nothing())),
        "unexpected response from daemon: \"Success\""
    );
    assert!(fail(advance(Stage::DaemonThere, Event::Answer(Ok("".to_string())), &nothing()))
        .starts_with("invalid response from daemon: "));
    assert_eq!(
        fail(advance(Stage::Enrolled, Event::Cgroups(Ok("0::/user".to_string())), &nothing())),
        "Cgroup join failed: expected /bpfjailer/..., got /user"
    );
    assert_eq!(
        run::connect_error("x"),
        "cannot connect to /run/bpfjailer/enrollment.sock: x. Are you in the 'bpfjailer' group?"
    );
}

#[test]
fn the_command_defaults_to_a_login_shell() {
    assert_eq!(
        run::command(&vec![]),
        ("bash".to_string(), vec!["--login".to_string()])
    );
    let cmd = vec!["python3".to_string(), "script.py".to_string(), "-v".to_string()];
    let (program, args) = run::command(&cmd);
    assert_eq!(program, "python3");
    assert_eq!(args, vec!["script.py".to_string(), "-v".to_string()]);
    assert_eq!(
        run::exec_notice(&program, &args),
        "[jailerctl] exec: python3 script.py -v"
    );
    assert_eq!(run::request_line(), "{\"EnrollSelf\":{\"role\":\"code_agent\"}}\n");
}

#[test]
fn audit_calls_the_journal() {
    assert_eq!(
        audit::journal_args(false, None, false),
        vec!["--output", "short-precise", "-t", "icb-sandbox-audit", "--since", "5min ago"]
    );
    assert_eq!(
        audit::journal_args(true, Some("1h"), true),
        vec![
            "--output",
            "short-precise",
            "-t",
            "icb-sandbox-audit",
            "-f",
            "--since",
            "1h",
            "--output-fields=MESSAGE"
        ]
    );
    assert_eq!(audit::presentation(true, false, false), audit::Presentation::Filtered);
    assert_eq!(audit::presentation(true, false, true), audit::Presentation::FilteredStream);
    assert_eq!(audit::presentation(false, true, true), audit::Presentation::FilteredStream);
    assert_eq!(audit::presentation(false, true, false), audit::Presentation::Filtered);
    assert_eq!(audit::presentation(false, false, true), audit::Presentation::Streamed);
    assert_eq!(audit::presentation(false, false, false), audit::Presentation::Whole);
}

#[test]
fn audit_filters_lines() {
    let out = "a uid=1000 role=x\nb uid=1000 role=y\nc uid=2 role=x\nd\n";
    assert_eq!(
        audit::filter_lines(out, Some(1000), None),
        vec!["a uid=1000 role=x", "b uid=1000 role=y"]
    );
    assert_eq!(
        audit::filter_lines(out, None, Some("x")),
        vec!["a uid=1000 role=x", "c uid=2 role=x"]
    );
    assert_eq!(audit::filter_lines(out, Some(1000), Some("y")), vec!["b uid=1000 role=y"]);
    assert_eq!(audit::filter_lines(out, None, None).len(), 4);
    assert_eq!(
        audit::whole_output(" \n"),
        "No audit events in the specified time range.\n"
    );
    assert_eq!(audit::whole_output("x\n"), "x\n");
}

#[test]
fn doctor_checks_the_kernel() {
    for (release, pass) in [
        ("5.10.0", false),
        ("5.11", true),
        ("6.1.0-9-amd64", true),
        ("5.x", false),
        ("6", false),
        ("", false),
        ("4.19.1", false),
    ] {
        let c = doctor::check_kernel_version(Some(release));
        assert_eq!(c.pass, pass);
        assert_eq!(c.detail, format!("{} (need 5.11+)", release));
    }
    let none = doctor::check_kernel_version(None);
    assert!(!none.pass);
    assert_eq!(none.detail, "failed to read uname");
    assert_eq!(none.name, "Kernel >= 5.11");
}

#[test]
fn doctor_checks_the_security_modules() {
    let yes = doctor::check_bpf_lsm_enabled(&Ok("lockdown,yama, bpf\n".to_string()));
    assert!(yes.pass);
    assert_eq!(yes.detail, "bpf found in active LSMs (lockdown,yama, bpf)");
    let no = doctor::check_bpf_lsm_enabled(&Ok("bpfx\n".to_string()));
    assert!(!no.pass);
    assert_eq!(
        no.detail,
        "bpf NOT in active LSMs (bpfx). Add lsm=...,bpf to kernel cmdline."
    );
    let e = doctor::check_bpf_lsm_enabled(&Err("denied".to_string()));
    assert_eq!(e.detail, "cannot read /sys/kernel/security/lsm: denied");
    assert!(!e.pass);
}

#[test]
fn doctor_checks_the_boot_parameters() {
    let a = doctor::check_bpf_lsm_boot_param("quiet lsm=yama,bpf ro", None);
    assert_eq!((a.pass, a.detail.as_str()), (true, "lsm= includes bpf"));
    let b = doctor::check_bpf_lsm_boot_param("lsm=bpf=x", None);
    assert!(b.pass);
    let c = doctor::check_bpf_lsm_boot_param("lsm=yama xlsm=bpf", Some("yama,bpf"));
    assert_eq!((c.pass, c.detail.as_str()), (true, "bpf LSM active (built-in or default)"));
    let d = doctor::check_bpf_lsm_boot_param("lsm= bpf", Some("yama"));
    assert_eq!(
        (d.pass, d.detail.as_str()),
        (false, "lsm= does not include bpf in /proc/cmdline")
    );
}

#[test]
fn doctor_checks_the_rest() {
    assert_eq!(doctor::check_btf_available(true).detail, "/sys/kernel/btf/vmlinux present");
    assert_eq!(
        doctor::check_btf_available(false).detail,
        "missing — kernel needs CONFIG_DEBUG_INFO_BTF=y"
    );
    assert!(doctor::check_cgroup_v2("proc /proc proc\ncgroup2 /sys/fs/cgroup cgroup2 rw\n").pass);
    let c = doctor::check_cgroup_v2("cgroup2 /mnt cgroup2\ntmpfs /sys/fs/cgroup tmpfs\n");
    assert!(!c.pass);
    assert_eq!(c.detail, "cgroup v2 unified hierarchy not found at /sys/fs/cgroup");
    assert_eq!(
        doctor::check_daemon_running(Some(("42\n", true))).detail,
        "pid=42 (systemd, logs: journalctl -u icb-sandboxd)"
    );
    assert_eq!(
        doctor::check_daemon_running(Some(("", false))).detail,
        "pid= (manual, logs: stderr or /tmp/icb-sandboxd.log)"
    );
    assert_eq!(
        doctor::check_daemon_running(None).detail,
        "no socket at /run/bpfjailer/enrollment.sock"
    );
    let on = doctor::check_disabled_sentinel(true);
    assert_eq!(
        (on.pass, on.detail.as_str()),
        (false, "/etc/icb/sandbox/disabled EXISTS — enforcement is OFF")
    );
    assert!(doctor::check_disabled_sentinel(false).pass);
}

#[test]
fn doctor_reports() {
    let (lines, pass) = doctor::report(&vec![
        doctor::check_btf_available(true),
        doctor::check_disabled_sentinel(false),
    ]);
    assert!(pass);
    assert_eq!(
        lines,
        vec![
            "icb-sandbox-ctl doctor — system readiness check",
            "",
            "  \x1b[32m✓\x1b[0m BTF (vmlinux): /sys/kernel/btf/vmlinux present",
            "  \x1b[32m✓\x1b[0m Emergency disable: not active (normal operation)",
            "",
            "\x1b[32mAll checks passed.\x1b[0m Ready to run icb-sandbox.",
        ]
    );
    let failing = vec![
        doctor::check_btf_available(false),
        doctor::check_disabled_sentinel(false),
        doctor::check_daemon_running(None),
    ];
    let (lines, pass) = doctor::report(&failing);
    assert!(!pass);
    assert_eq!(
        lines[6],
        "\x1b[31mSome checks failed.\x1b[0m Fix the issues above before running icb-sandbox."
    );
    assert_eq!(doctor::unmet(&failing), vec!["BTF (vmlinux)", "Daemon running"]);
}

#[test]
fn uninstall_needs_root() {
    assert_eq!(
        uninstall::plan(false, true).unwrap_err(),
        "uninstall requires root. Run with sudo."
    );
}

#[test]
fn uninstall_keeps_the_configuration_unless_purged() {
    let kept = uninstall::plan(true, false).unwrap();
    assert_eq!(kept.len(), 20);
    assert!(
        matches!(&kept[18], Step::Say(s) if s == "Config preserved at /etc/icb/sandbox. Use --purge to remove.")
    );
    let purged = uninstall::plan(true, true).unwrap();
    assert_eq!(purged.len(), 21);
    assert!(matches!(&purged[19], Step::RemoveDir(p) if p == "/etc/icb/sandbox"));
    assert!(matches!(&purged[13], Step::Systemctl(a) if a.len() == 1 && a[0] == "daemon-reload"));
    assert!(matches!(&purged[1], Step::Systemctl(a) if a.join(" ") == "stop icb-sandboxd"));
    assert!(matches!(&purged[7], Step::RemoveFile(p) if p == "/usr/sbin/icb-sandboxd"));
    assert_eq!(
        uninstall::warning("/x", "busy"),
        "  warning: could not remove /x: busy"
    );
}

#[test]
fn validate_accepts_a_sound_policy() {
    let policy = "{\"roles\":{\"a\":{\"id\":1,\"file_paths\":[{\"pattern\":\"/x\",\"allow\":false}]},\
                  \"b\":{\"id\":2}}}";
    match validate::validate("p.json", policy).unwrap() {
        validate::Report::Valid(line) => {
            assert_eq!(line, "\x1b[32m✓\x1b[0m p.json is valid")
        }
        other => panic!("{:?}", other),
    }
}

#[test]
fn validate_reports_every_error() {
    let policy = "{\"roles\":{\"b\":{\"id\":-1,\"file_paths\":[{\"pattern\":\"~/x\",\"allow\":1},\
                  {\"pattern\":\"y\"},{\"allow\":true}]},\"a\":{}}}";
    match validate::validate("p", policy).unwrap() {
        validate::Report::Invalid(lines) => assert_eq!(
            lines,
            vec![
                "\x1b[31m✗\x1b[0m p has 6 error(s):",
                "",
                "  - role \"a\": missing or invalid 'id' field",
                "  - role \"b\": missing or invalid 'id' field",
                "  - role \"b\".file_paths[0]: pattern \"~/x\" uses ~ shorthand. Use absolute paths (/home/*/...) instead.",
                "  - role \"b\".file_paths[1]: pattern \"y\" is not an absolute path",
                "  - role \"b\".file_paths[1]: missing 'allow' field",
                "  - role \"b\".file_paths[2]: pattern \"\" is not an absolute path",
            ]
        ),
        other => panic!("{:?}", other),
    }
    assert_eq!(
        validate::find_errors(&Json::Null),
        vec!["missing top-level 'roles' object"]
    );
    assert!(validate::validate("p", "x").unwrap_err().starts_with("invalid JSON in p: "));
    assert_eq!(validate::read_error("p", "gone"), "cannot read p: gone");
}

#[test]
fn enroll_refuses_other_processes() {
    let text = "cannot enroll PID 8: a process can only enroll itself (PID 7)".to_string();
    assert_eq!(enroll::request_line(8, 7, "r"), Err(text.clone()));
    assert_eq!(
        enroll::read_response(8, 7, "r", "{\"Enrolled\":{\"cgroup\":\"/bpfjailer/r\"}}"),
        Err(text.clone())
    );
    assert_eq!(enroll::interpret(8, 7, "r", "", &Json::Text("Success".to_string())), Err(text));
}

#[test]
fn audit_compares_whole_words() {
    let out = "a uid=1000 x\nb uid=100 y\nc xuid=100\nd role=code_agent2\ne\trole=code_agent\n";
    assert_eq!(audit::filter_lines(out, Some(100), None), vec!["b uid=100 y"]);
    assert_eq!(audit::filter_lines(out, None, Some("code_agent")), vec!["e\trole=code_agent"]);
    assert!(audit::is_wanted("z role=r uid=5", Some(5), Some("r")));
    assert!(!audit::is_wanted("z role=r uid=5", Some(5), Some("")));
}

#[test]
fn audit_finds_what_the_daemon_logs() {
    let line = "pid=7 role_id=100 pod_id=5000 decision=deny hook=file_open context=0xabc";
    let logged = bpfjailer::daemon::audit::attribute(line, Some(100), Some("code_agent"));
    assert!(audit::is_wanted(&logged, Some(100), Some("code_agent")));
    assert!(!audit::is_wanted(&logged, Some(10), None));
    assert!(!audit::is_wanted(&logged, Some(1000), None));
    assert!(!audit::is_wanted(&logged, None, Some("code")));
    assert!(!audit::is_wanted(&logged, None, Some("code_agent ")));
}

#[test]
fn audit_finds_roles_with_blanks_in_their_names() {
    let line = "pid=7 role_id=100 pod_id=5000 decision=deny hook=file_open context=0xabc";
    let logged = bpfjailer::daemon::audit::attribute(line, Some(100), Some("my role"));
    assert!(audit::is_wanted(&logged, None, Some("my role")));
    assert!(audit::is_wanted(&logged, Some(100), Some("my role")));
    assert!(!audit::is_wanted(&logged, None, Some("my rol")));
    assert!(!audit::is_wanted(&logged, None, Some("role")));
    assert!(!audit::is_wanted("x xrole=my role", None, Some("my role")));
    assert!(!audit::is_wanted("x role=my role2", None, Some("my role")));
    assert!(audit::is_wanted("x role=my role2 role=my role y", None, Some("my role")));
}

#[test]
fn doctor_wants_the_unified_groups_at_their_place() {
    let hybrid = "tmpfs /sys/fs/cgroup tmpfs ro 0 0\ncgroup2 /sys/fs/cgroup/unified cgroup2 rw 0 0\n";
    assert!(!doctor::check_cgroup_v2(hybrid).pass);
    assert!(doctor::check_cgroup_v2("none /sys/fs/cgroup cgroup2 rw 0 0").pass);
    assert!(!doctor::check_cgroup_v2("cgroup2 /sys/fs/cgroup").pass);
    assert!(!doctor::check_cgroup_v2("cgroup2 /sys/fs/cgroup cgroup2x rw").pass);
}

#[test]
fn the_asked_control_group_must_be_joined() {
    let asked = |path: &str| Wishes { policy: None, cgroup: Some(path.to_string()) };
    let seen = || Event::Cgroups(Ok("0::/bpfjailer/code_agent\n".to_string()));
    assert!(matches!(
        advance(Stage::Enrolled, seen(), &asked("/sys/fs/cgroup/bpfjailer/code_agent")),
        Move::Execute
    ));
    assert!(matches!(
        advance(Stage::Enrolled, seen(), &asked("/bpfjailer/code_agent")),
        Move::Execute
    ));
    assert_eq!(
        fail(advance(Stage::Enrolled, seen(), &asked("/sys/fs/cgroup/bpfjailer/x"))),
        "Cgroup join failed: expected /bpfjailer/x, got /bpfjailer/code_agent"
    );
}

#[test]
fn the_asked_control_group_may_be_written_in_many_ways() {
    let asked = |path: &str| Wishes { policy: None, cgroup: Some(path.to_string()) };
    let seen = || Event::Cgroups(Ok("0::/bpfjailer/code_agent\n".to_string()));
    for path in [
        "/sys/fs/cgroup/bpfjailer/code_agent/",
        "/sys/fs/cgroup/bpfjailer/code_agent//",
        "/sys/fs//cgroup/./bpfjailer/code_agent",
        "/bpfjailer/code_agent/",
        "bpfjailer/code_agent",
    ] {
        assert!(matches!(advance(Stage::Enrolled, seen(), &asked(path)), Move::Execute), "{path}");
    }
    assert_eq!(
        fail(advance(Stage::Enrolled, seen(), &asked("/sys/fs/cgroup/"))),
        "Cgroup join failed: expected /, got /bpfjailer/code_agent"
    );
    assert_eq!(
        fail(advance(Stage::Enrolled, seen(), &asked("/sys/fs/cgroup2/bpfjailer/code_agent/"))),
        "Cgroup join failed: expected /sys/fs/cgroup2/bpfjailer/code_agent, \
         got /bpfjailer/code_agent"
    );
    assert_eq!(
        fail(advance(Stage::Enrolled, seen(), &asked("/bpfjailer"))),
        "Cgroup join failed: expected /bpfjailer, got /bpfjailer/code_agent"
    );
}

#[test]
fn the_asked_policy_may_be_written_in_many_ways() {
    let line = "{\"StatusInfo\":{\"policy_path\":\"/etc/bpfjailer/./policy.json\"}}";
    for path in [
        "/etc/bpfjailer/policy.json",
        "/etc/bpfjailer/./policy.json",
        "/etc//bpfjailer/policy.json",
        "//etc/./bpfjailer//policy.json/",
    ] {
        assert_eq!(bpfjailer::ctl::run::read_policy(path, line), Ok(()), "{path}");
    }
    for path in ["etc/bpfjailer/policy.json", "/etc/bpfjailer", "/etc/bpfjailer/policy.json2"] {
        assert_eq!(
            bpfjailer::ctl::run::read_policy(path, line),
            Err(format!("daemon enforces policy /etc/bpfjailer/./policy.json, not {path}")),
        );
    }
}

#[test]
fn the_asked_policy_must_be_in_force() {
    let wishes = Wishes { policy: Some("/etc/p".to_string()), cgroup: None };
    let answer = |line: &str| Event::Answer(Ok(line.to_string()));
    assert!(matches!(
        advance(Stage::Outside, Event::Socket(true), &wishes),
        Move::Goto(Stage::PolicyAsked, None)
    ));
    assert!(matches!(
        advance(
            Stage::PolicyAsked,
            answer("{\"StatusInfo\":{\"policy_path\":\"/etc/p\"}}"),
            &wishes
        ),
        Move::Goto(Stage::DaemonThere, Some(_))
    ));
    assert_eq!(
        fail(advance(
            Stage::PolicyAsked,
            answer("{\"StatusInfo\":{\"policy_path\":\"/etc/q\"}}"),
            &wishes
        )),
        "daemon enforces policy /etc/q, not /etc/p"
    );
    assert_eq!(
        fail(advance(Stage::PolicyAsked, answer("{\"Error\":\"no\"}"), &wishes)),
        "status query failed: no"
    );
    assert_eq!(
        fail(advance(Stage::PolicyAsked, answer("1\n"), &wishes)),
        "unexpected response from daemon: 1"
    );
    assert_eq!(
        fail(advance(Stage::PolicyAsked, answer("{\"StatusInfo\":{}}"), &wishes)),
        "unexpected response from daemon: {\"StatusInfo\":{}}"
    );
    assert!(fail(advance(Stage::PolicyAsked, answer(""), &wishes))
        .starts_with("invalid response from daemon: "));
    assert_eq!(
        fail(advance(Stage::PolicyAsked, Event::Answer(Err("gone".to_string())), &wishes)),
        "gone"
    );
}
