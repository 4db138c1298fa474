//! The course of the daemon: how it starts, which policy it reads, what it puts
//! in force, and what a hangup signal does.

use crate::common::{
    copy_ip_rules, copy_texts, ip_rules, rules, IpRule, IpRuleView, PathPattern, PathPatternView,
    PolicyConfig, PolicyFlags, Role, RoleId, RoleView,
};
use crate::daemon::policy::{PolicyManager, PolicyState};
use crate::text::texts;
use vstd::prelude::*;

verus! {

/// The policy of the system.
pub const DEFAULT_POLICY_PATH: &'static str = "/etc/bpfjailer/policy.json";

/// The policy of a checkout.
pub const LOCAL_POLICY_PATH: &'static str = "config/policy.json";

/// While this file exists, nothing is enforced.
pub const DISABLED_SENTINEL: &'static str = "/etc/bpfjailer/disabled";

/// How the daemon starts.
#[derive(Debug)]
pub enum Startup {
    /// Not at all: the system lacks these requirements.
    Refuse(Vec<String>),
    /// With the kernel programs attached.
    Enforce,
    /// With everything but the kernel programs, so that a hangup signal is
    /// enough to go on once the sentinel is gone.
    Idle,
}

pub enum StartupView {
    Refuse(Seq<Seq<char>>),
    Enforce,
    Idle,
}

impl View for Startup {
    type V = StartupView;

    open spec fn view(&self) -> StartupView {
        match *self {
            Startup::Refuse(unmet) => StartupView::Refuse(texts(unmet@)),
            Startup::Enforce => StartupView::Enforce,
            Startup::Idle => StartupView::Idle,
        }
    }
}

/// How the daemon starts.
pub open spec fn startup_for(unmet: Seq<Seq<char>>, disabled: bool) -> StartupView {
    if unmet.len() > 0 {
        StartupView::Refuse(unmet)
    } else if disabled {
        StartupView::Idle
    } else {
        StartupView::Enforce
    }
}

/// How the daemon starts on a system that lacks some requirements, with or
/// without the sentinel.
pub fn startup(unmet: Vec<String>, disabled: bool) -> (s: Startup)
    ensures
        s@ == startup_for(texts(unmet@), disabled),
{
    if unmet.len() > 0 {
        Startup::Refuse(unmet)
    } else if disabled {
        Startup::Idle
    } else {
        Startup::Enforce
    }
}

/// The lines that say that nothing is enforced.
pub open spec fn disabled_banner() -> Seq<Seq<char>> {
    seq![
        "================================================================"@,
        "=  EMERGENCY DISABLE active: "@ + DISABLED_SENTINEL@ + " exists."@,
        "=  BPF LSM programs NOT attached. NO enforcement."@,
        "=  Remove the sentinel and `systemctl reload bpfjailer-daemon`"@,
        "=  (or send SIGHUP) to re-enable enforcement."@,
        "================================================================"@,
    ]
}

/// The lines that say that nothing is enforced.
pub fn disabled_banner_lines() -> (lines: Vec<String>)
    ensures
        texts(lines@) == disabled_banner(),
{
    let mut second = "=  EMERGENCY DISABLE active: ".to_owned();
    second.append(DISABLED_SENTINEL);
    second.append(" exists.");
    let mut lines: Vec<String> = Vec::new();
    lines.push("================================================================".to_owned());
    lines.push(second);
    lines.push("=  BPF LSM programs NOT attached. NO enforcement.".to_owned());
    lines.push("=  Remove the sentinel and `systemctl reload bpfjailer-daemon`".to_owned());
    lines.push("=  (or send SIGHUP) to re-enable enforcement.".to_owned());
    lines.push("================================================================".to_owned());
    assert(texts(lines@) =~= disabled_banner());
    lines
}

/// Which policy file is read: the one that the environment names, else that of
/// the system, else that of a checkout, else none.
pub open spec fn policy_path_for(
    named: Option<Seq<char>>,
    default_exists: bool,
    local_exists: bool,
) -> Option<Seq<char>> {
    match named {
        Some(path) => Some(path),
        None => if default_exists {
            Some(DEFAULT_POLICY_PATH@)
        } else if local_exists {
            Some(LOCAL_POLICY_PATH@)
        } else {
            None
        },
    }
}

/// Which policy file is read.
pub fn choose_policy_path(named: Option<String>, default_exists: bool, local_exists: bool) -> (r:
    Option<String>)
    ensures
        crate::common::optional_text(r) == policy_path_for(
            crate::common::optional_text(named),
            default_exists,
            local_exists,
        ),
{
    match named {
        Some(path) => Some(path),
        None => if default_exists {
            Some(DEFAULT_POLICY_PATH.to_owned())
        } else if local_exists {
            Some(LOCAL_POLICY_PATH.to_owned())
        } else {
            None
        },
    }
}

/// The line that says whether the daemon enforces.
pub open spec fn started_text(attached: bool) -> Seq<char> {
    "BpfJailer daemon started (enforcement "@ + (if attached {
        "ON"@
    } else {
        "OFF (disabled sentinel present)"@
    }) + ")"@
}

/// The line that says whether the daemon enforces.
pub fn started_line(attached: bool) -> (s: String)
    ensures
        s@ == started_text(attached),
{
    let mut s = "BpfJailer daemon started (enforcement ".to_owned();
    if attached {
        s.append("ON");
    } else {
        s.append("OFF (disabled sentinel present)");
    }
    s.append(")");
    s
}

/// What puts a policy in force.
#[derive(Debug)]
pub enum Application {
    CompilePatterns(Vec<String>),
    InvalidateCache,
    SetRolePolicy { role_id: RoleId, flags: PolicyFlags },
    ApplyNetworkRules { role_id: RoleId, rules: Vec<String> },
    ApplyPathRules { role_id: RoleId, paths: Vec<PathPattern> },
    ApplyIpRules { role_id: RoleId, ips: Vec<IpRule> },
    ApplyDomainRules { role_id: RoleId, domains: Vec<String> },
    SetProxy { role_id: RoleId, proxy: String },
}

pub enum ApplicationView {
    CompilePatterns(Seq<Seq<char>>),
    InvalidateCache,
    SetRolePolicy { role_id: RoleId, flags: PolicyFlags },
    ApplyNetworkRules { role_id: RoleId, rules: Seq<Seq<char>> },
    ApplyPathRules { role_id: RoleId, paths: Seq<PathPatternView> },
    ApplyIpRules { role_id: RoleId, ips: Seq<IpRuleView> },
    ApplyDomainRules { role_id: RoleId, domains: Seq<Seq<char>> },
    SetProxy { role_id: RoleId, proxy: Seq<char> },
}

impl View for Application {
    type V = ApplicationView;

    open spec fn view(&self) -> ApplicationView {
        match *self {
            Application::CompilePatterns(v) => ApplicationView::CompilePatterns(texts(v@)),
            Application::InvalidateCache => ApplicationView::InvalidateCache,
            Application::SetRolePolicy { role_id, flags } => ApplicationView::SetRolePolicy {
                role_id,
                flags,
            },
            Application::ApplyNetworkRules { role_id, rules } => {
                ApplicationView::ApplyNetworkRules { role_id, rules: texts(rules@) }
            },
            Application::ApplyPathRules { role_id, paths } => ApplicationView::ApplyPathRules {
                role_id,
                paths: rules(paths@),
            },
            Application::ApplyIpRules { role_id, ips } => ApplicationView::ApplyIpRules {
                role_id,
                ips: ip_rules(ips@),
            },
            Application::ApplyDomainRules { role_id, domains } => {
                ApplicationView::ApplyDomainRules { role_id, domains: texts(domains@) }
            },
            Application::SetProxy { role_id, proxy } => ApplicationView::SetProxy {
                role_id,
                proxy: proxy@,
            },
        }
    }
}

/// What a list of applications does.
pub open spec fn applications(v: Seq<Application>) -> Seq<ApplicationView> {
    v.map_values(|a: Application| a@)
}

/// The patterns of some path rules.
pub open spec fn patterns_of(paths: Seq<PathPatternView>) -> Seq<Seq<char>> {
    paths.map_values(|p: PathPatternView| p.pattern)
}

/// The patterns of all roles, one role after the other.
pub open spec fn all_patterns(roles: Seq<(Seq<char>, RoleView)>) -> Seq<Seq<char>>
    decreases roles.len(),
{
    if roles.len() == 0 {
        Seq::empty()
    } else {
        all_patterns(roles.drop_last()) + patterns_of(roles.last().1.file_paths)
    }
}

/// What makes the patterns known: nothing where there are none.
pub open spec fn pattern_applications(roles: Seq<(Seq<char>, RoleView)>) -> Seq<ApplicationView> {
    if all_patterns(roles).len() == 0 {
        Seq::empty()
    } else {
        seq![
            ApplicationView::CompilePatterns(all_patterns(roles)),
            ApplicationView::InvalidateCache,
        ]
    }
}

/// What puts the address rules, the domain rules and the proxy of a role in
/// force, as far as it has them.
pub open spec fn role_applications(role: RoleView) -> Seq<ApplicationView> {
    (if role.ip_rules.len() > 0 {
        seq![ApplicationView::ApplyIpRules { role_id: role.id, ips: role.ip_rules }]
    } else {
        Seq::empty()
    }) + (if role.domain_rules.len() > 0 {
        seq![ApplicationView::ApplyDomainRules { role_id: role.id, domains: role.domain_rules }]
    } else {
        Seq::empty()
    }) + (match role.proxy {
        Some(proxy) => seq![ApplicationView::SetProxy { role_id: role.id, proxy }],
        None => Seq::empty(),
    })
}

/// What puts the address rules, the domain rules and the proxies of all roles in
/// force.
pub open spec fn network_applications(roles: Seq<(Seq<char>, RoleView)>) -> Seq<ApplicationView>
    decreases roles.len(),
{
    if roles.len() == 0 {
        Seq::empty()
    } else {
        network_applications(roles.drop_last()) + role_applications(roles.last().1)
    }
}

/// The patterns of all roles.
fn collect_patterns(config: &PolicyConfig) -> (v: Vec<String>)
    ensures
        texts(v@) == all_patterns(config@.roles),
{
    let ghost t = config@.roles;
    let mut v: Vec<String> = Vec::new();
    assert(texts(v@) =~= all_patterns(t.take(0)));
    let mut i: usize = 0;
    while i < config.roles.len()
        invariant
            t == config.roles@,
            0 <= i <= t.len(),
            texts(v@) == all_patterns(t.take(i as int)),
        decreases t.len() - i,
    {
        assert(t.take(i + 1).drop_last() =~= t.take(i as int));
        let role = config.roles.role(i);
        let ghost held = texts(v@);
        let ghost more = patterns_of(role@.file_paths);
        let mut k: usize = 0;
        assert(texts(v@) =~= held + more.take(0));
        while k < role.file_paths.len()
            invariant
                more == patterns_of(rules(role.file_paths@)),
                0 <= k <= role.file_paths@.len(),
                texts(v@) == held + more.take(k as int),
            decreases role.file_paths@.len() - k,
        {
            let ghost before = texts(v@);
            v.push(role.file_paths[k].pattern.clone());
            assert(more[k as int] == role.file_paths@[k as int].pattern@);
            assert(texts(v@) =~= before.push(more[k as int]));
            assert(held + more.take(k + 1) =~= (held + more.take(k as int)).push(
                more[k as int],
            ));
            k = k + 1;
        }
        assert(more.take(k as int) =~= more);
        i = i + 1;
    }
    assert(t.take(i as int) =~= t);
    v
}

/// Puts an application behind others.
fn push_application(v: &mut Vec<Application>, a: Application)
    ensures
        applications(final(v)@) == applications(old(v)@).push(a@),
{
    let ghost before = applications(v@);
    let ghost last = a@;
    v.push(a);
    assert(applications(v@) =~= before.push(last));
}

/// Puts what a role needs behind others.
fn push_role(v: &mut Vec<Application>, role: &Role)
    ensures
        applications(final(v)@) == applications(old(v)@) + role_applications(role@),
{
    let ghost before = applications(v@);
    assert(role@.ip_rules.len() == role.ip_rules@.len());
    assert(role@.domain_rules.len() == role.domain_rules@.len());
    if role.ip_rules.len() > 0 {
        push_application(
            v,
            Application::ApplyIpRules { role_id: role.id, ips: copy_ip_rules(&role.ip_rules) },
        );
    }
    if role.domain_rules.len() > 0 {
        push_application(
            v,
            Application::ApplyDomainRules {
                role_id: role.id,
                domains: copy_texts(&role.domain_rules),
            },
        );
    }
    if let Some(proxy) = &role.proxy {
        push_application(
            v,
            Application::SetProxy { role_id: role.id, proxy: proxy.clone() },
        );
    }
    assert(applications(v@) =~= before + role_applications(role@));
}

/// What puts a policy in force when the daemon starts: the patterns of the path
/// rules, then the address rules, domain rules and proxies of the roles. Flags
/// and path rules of a role follow when a process is enrolled under it.
pub fn startup_applications(config: &PolicyConfig) -> (v: Vec<Application>)
    ensures
        applications(v@) == pattern_applications(config@.roles) + network_applications(
            config@.roles,
        ),
{
    let ghost t = config@.roles;
    let mut v: Vec<Application> = Vec::new();
    assert(applications(v@) =~= Seq::empty());
    let patterns = collect_patterns(config);
    assert(texts(patterns@).len() == patterns@.len());
    if patterns.len() > 0 {
        push_application(&mut v, Application::CompilePatterns(patterns));
        push_application(&mut v, Application::InvalidateCache);
    }
    assert(applications(v@) =~= pattern_applications(t));
    let ghost first = pattern_applications(t);
    assert(first =~= first + network_applications(t.take(0)));
    let mut i: usize = 0;
    while i < config.roles.len()
        invariant
            t == config.roles@,
            0 <= i <= t.len(),
            applications(v@) == first + network_applications(t.take(i as int)),
        decreases t.len() - i,
    {
        assert(t.take(i + 1).drop_last() =~= t.take(i as int));
        push_role(&mut v, config.roles.role(i));
        assert(applications(v@) =~= first + network_applications(t.take(i + 1)));
        i = i + 1;
    }
    assert(t.take(i as int) =~= t);
    v
}

/// What a reload puts in force of each role: its flags, its network rules, and
/// its path rules with those of all users. `paths` holds the path rules of each
/// role, in the order of the roles.
pub open spec fn reloaded_roles(
    roles: Seq<(Seq<char>, RoleView)>,
    paths: Seq<Seq<PathPatternView>>,
) -> Seq<ApplicationView>
    decreases roles.len(),
{
    if roles.len() == 0 {
        Seq::empty()
    } else {
        let role = roles.last().1;
        reloaded_roles(roles.drop_last(), paths.drop_last()) + seq![
            ApplicationView::SetRolePolicy { role_id: role.id, flags: role.flags },
            ApplicationView::ApplyNetworkRules { role_id: role.id, rules: role.network_rules },
            ApplicationView::ApplyPathRules { role_id: role.id, paths: paths.last() },
        ]
    }
}

/// The path rules of each role, with those of all users.
pub open spec fn paths_of_roles(pm: PolicyState, paths: Seq<Seq<PathPatternView>>) -> bool {
    &&& paths.len() == pm.config.roles.len()
    &&& forall|i: int|
        0 <= i < paths.len() ==> pm.paths_of_all(pm.config.roles[i].1.id, #[trigger] paths[i])
}

/// What puts a policy in force for processes that are enrolled already: the flags
/// and rules of every role, with the rules of all users, then what is put in
/// force when the daemon starts.
pub fn reload_applications(pm: &PolicyManager) -> (v: Vec<Application>)
    requires
        pm.wf(),
    ensures
        exists|paths: Seq<Seq<PathPatternView>>|
            {
                &&& #[trigger] paths_of_roles(pm@, paths)
                &&& applications(v@) == reloaded_roles(pm@.config.roles, paths)
                    + pattern_applications(pm@.config.roles) + network_applications(
                    pm@.config.roles,
                )
            },
{
    let config = pm.config();
    let ghost t = pm@.config.roles;
    let ghost mut paths: Seq<Seq<PathPatternView>> = Seq::empty();
    let mut v: Vec<Application> = Vec::new();
    assert(applications(v@) =~= reloaded_roles(t.take(0), paths));
    let mut i: usize = 0;
    while i < config.roles.len()
        invariant
            pm.wf(),
            t == config.roles@,
            t == pm@.config.roles,
            0 <= i <= t.len(),
            paths.len() == i,
            forall|k: int|
                0 <= k < paths.len() ==> pm@.paths_of_all(t[k].1.id, #[trigger] paths[k]),
            applications(v@) == reloaded_roles(t.take(i as int), paths),
        decreases t.len() - i,
    {
        assert(t.take(i + 1).drop_last() =~= t.take(i as int));
        let ghost before = applications(v@);
        let role = config.roles.role(i);
        let all = pm.effective_file_paths_all(role.id);
        proof {
            let now = paths.push(rules(all@));
            assert(now.drop_last() =~= paths);
            paths = now;
        }
        push_application(
            &mut v,
            Application::SetRolePolicy { role_id: role.id, flags: role.flags },
        );
        push_application(
            &mut v,
            Application::ApplyNetworkRules {
                role_id: role.id,
                rules: copy_texts(&role.network_rules),
            },
        );
        push_application(&mut v, Application::ApplyPathRules { role_id: role.id, paths: all });
        i = i + 1;
        assert(applications(v@) =~= reloaded_roles(t.take(i as int), paths));
    }
    assert(t.take(i as int) =~= t);
    let ghost first = applications(v@);
    let mut rest = startup_applications(config);
    let ghost second = applications(rest@);
    v.append(&mut rest);
    assert(applications(v@) =~= first + second);
    assert(applications(v@) =~= reloaded_roles(t, paths) + pattern_applications(t)
        + network_applications(t));
    assert(paths_of_roles(pm@, paths));
    v
}

/// What a hangup signal makes the daemon do.
#[derive(Clone, Copy, Debug, PartialEq, Eq, Structural)]
pub enum HangupStep {
    /// Take the kernel programs off their hooks.
    Detach,
    /// Put the kernel programs on their hooks.
    Attach,
    /// Empty the maps of the policy. Enrolled processes stay enrolled.
    ClearMaps,
    /// Read the policy and its fragments again.
    ReadPolicy,
    /// Read the extensions of the users again.
    ReadUserExtensions,
    /// Put the policy in force.
    PopulateMaps,
    /// Forget what the kernel programs remember of files.
    FlushCache,
}

/// What the sentinel makes the daemon do: nothing where it enforces already just
/// as the sentinel asks.
pub open spec fn switch_for(was_attached: bool, now_disabled: bool) -> Seq<HangupStep> {
    if was_attached && now_disabled {
        seq![HangupStep::Detach]
    } else if !was_attached && !now_disabled {
        seq![HangupStep::Attach]
    } else {
        Seq::empty()
    }
}

/// The steps of a reload.
pub open spec fn reload_steps() -> Seq<HangupStep> {
    seq![
        HangupStep::ClearMaps,
        HangupStep::ReadPolicy,
        HangupStep::ReadUserExtensions,
        HangupStep::PopulateMaps,
        HangupStep::FlushCache,
    ]
}

/// What a hangup signal makes the daemon do: follow the sentinel, then reload.
pub fn on_hangup(was_attached: bool, now_disabled: bool) -> (steps: Vec<HangupStep>)
    ensures
        steps@ == switch_for(was_attached, now_disabled) + reload_steps(),
{
    let mut steps: Vec<HangupStep> = Vec::new();
    if was_attached && now_disabled {
        steps.push(HangupStep::Detach);
    } else if !was_attached && !now_disabled {
        steps.push(HangupStep::Attach);
    }
    steps.push(HangupStep::ClearMaps);
    steps.push(HangupStep::ReadPolicy);
    steps.push(HangupStep::ReadUserExtensions);
    steps.push(HangupStep::PopulateMaps);
    steps.push(HangupStep::FlushCache);
    assert(steps@ =~= switch_for(was_attached, now_disabled) + reload_steps());
    steps
}

/// Whether the kernel programs are attached after some steps, each of which came
/// off.
pub open spec fn attached_after(attached: bool, steps: Seq<HangupStep>) -> bool
    decreases steps.len(),
{
    if steps.len() == 0 {
        attached
    } else if steps.last() == HangupStep::Attach {
        true
    } else if steps.last() == HangupStep::Detach {
        false
    } else {
        attached_after(attached, steps.drop_last())
    }
}

/// After a hangup signal the daemon enforces exactly where the sentinel is gone,
/// whatever it did before, and another signal switches nothing.
pub proof fn law_hangup_follows_the_sentinel(was_attached: bool, now_disabled: bool)
    ensures
        ({
            let steps = switch_for(was_attached, now_disabled) + reload_steps();
            let attached = attached_after(was_attached, steps);
            &&& attached == !now_disabled
            &&& switch_for(attached, now_disabled) == Seq::<HangupStep>::empty()
        }),
{
    let steps = switch_for(was_attached, now_disabled) + reload_steps();
    let s4 = steps.drop_last();
    let s3 = s4.drop_last();
    let s2 = s3.drop_last();
    let s1 = s2.drop_last();
    let s0 = s1.drop_last();
    assert(s0 =~= switch_for(was_attached, now_disabled));
    assert(attached_after(was_attached, s4) == attached_after(was_attached, s3));
    assert(attached_after(was_attached, s3) == attached_after(was_attached, s2));
    assert(attached_after(was_attached, s2) == attached_after(was_attached, s1));
    assert(attached_after(was_attached, s1) == attached_after(was_attached, s0));
}

/// A daemon that starts while the sentinel exists does not enforce, and enforces
/// after the first hangup signal once it is gone.
pub proof fn law_sentinel_before_start(unmet: Seq<Seq<char>>)
    requires
        unmet.len() == 0,
    ensures
        startup_for(unmet, true) is Idle,
        startup_for(unmet, false) is Enforce,
        attached_after(false, switch_for(false, false) + reload_steps()),
{
    law_hangup_follows_the_sentinel(false, false);
}

/// A reload reaches every role, and so every process that is enrolled already:
/// the flags, the network rules and the path rules of each role are put in force
/// anew.
pub proof fn law_reload_reaches_every_role(
    roles: Seq<(Seq<char>, RoleView)>,
    paths: Seq<Seq<PathPatternView>>,
    i: int,
)
    requires
        paths.len() == roles.len(),
        0 <= i < roles.len(),
    ensures
        ({
            let v = reloaded_roles(roles, paths);
            let role = roles[i].1;
            &&& v.len() == 3 * roles.len()
            &&& v[3 * i] == (ApplicationView::SetRolePolicy {
                role_id: role.id,
                flags: role.flags,
            })
            &&& v[3 * i + 1] == (ApplicationView::ApplyNetworkRules {
                role_id: role.id,
                rules: role.network_rules,
            })
            &&& v[3 * i + 2] == (ApplicationView::ApplyPathRules {
                role_id: role.id,
                paths: paths[i],
            })
        }),
    decreases roles.len(),
{
    if i < roles.len() - 1 {
        law_reload_reaches_every_role(roles.drop_last(), paths.drop_last(), i);
    } else {
        lemma_reloaded_len(roles.drop_last(), paths.drop_last());
    }
}

proof fn lemma_reloaded_len(
    roles: Seq<(Seq<char>, RoleView)>,
    paths: Seq<Seq<PathPatternView>>,
)
    ensures
        reloaded_roles(roles, paths).len() == 3 * roles.len(),
    decreases roles.len(),
{
    if roles.len() > 0 {
        lemma_reloaded_len(roles.drop_last(), paths.drop_last());
    }
}

/// A daemon starts exactly where nothing is missing, and enforces from the start
/// exactly where, in addition, the sentinel does not exist. What is missing is named,
/// all of it.
pub proof fn law_start(unmet: Vec<String>, disabled: bool, s: Startup)
    requires
        call_ensures(startup, (unmet, disabled), s),
    ensures
        s is Refuse <==> unmet@.len() > 0,
        s is Enforce <==> unmet@.len() == 0 && !disabled,
        s is Idle <==> unmet@.len() == 0 && disabled,
        s matches Startup::Refuse(named) ==> named@.len() == unmet@.len() && forall|i: int|
            0 <= i < named@.len() ==> (#[trigger] named@[i])@ == unmet@[i]@,
{
    assert(texts(unmet@).len() == unmet@.len());
    if let Startup::Refuse(named) = s {
        assert(texts(named@).len() == named@.len());
        assert forall|i: int| 0 <= i < named@.len() implies (#[trigger] named@[i])@
            == unmet@[i]@ by {
            assert(texts(named@)[i] == named@[i]@);
            assert(texts(unmet@)[i] == unmet@[i]@);
        }
    }
}

/// The policy that the environment names is read before all others, that of the
/// system before that of a checkout, and none where there is none.
pub proof fn law_policy_path(
    named: Option<String>,
    default_exists: bool,
    local_exists: bool,
    r: Option<String>,
)
    requires
        call_ensures(choose_policy_path, (named, default_exists, local_exists), r),
    ensures
        named matches Some(path) ==> r is Some && r->Some_0@ == path@,
        named is None && default_exists ==> r is Some && r->Some_0@
            == "/etc/bpfjailer/policy.json"@,
        named is None && !default_exists && local_exists ==> r is Some && r->Some_0@
            == "config/policy.json"@,
        r is None <==> named is None && !default_exists && !local_exists,
{
}

/// The daemon says that it enforces exactly where it does.
pub proof fn law_started_line(attached: bool, s: String)
    requires
        call_ensures(started_line, (attached,), s),
    ensures
        attached ==> s@ == "BpfJailer daemon started (enforcement "@ + "ON"@ + ")"@,
        !attached ==> s@ == "BpfJailer daemon started (enforcement "@
            + "OFF (disabled sentinel present)"@ + ")"@,
{
}

/// A daemon that does not enforce says so, names the sentinel, and says what to do.
pub proof fn law_banner(lines: Vec<String>)
    requires
        call_ensures(disabled_banner_lines, (), lines),
    ensures
        lines@.len() == 6,
        lines@[1]@ == "=  EMERGENCY DISABLE active: "@ + "/etc/bpfjailer/disabled"@ + " exists."@,
        lines@[2]@ == "=  BPF LSM programs NOT attached. NO enforcement."@,
        lines@[3]@ == "=  Remove the sentinel and `systemctl reload bpfjailer-daemon`"@,
        lines@[4]@ == "=  (or send SIGHUP) to re-enable enforcement."@,
        lines@[0]@ == lines@[5]@,
{
    let all = texts(lines@);
    assert(all.len() == lines@.len());
    assert(all[0] == lines@[0]@ && all[1] == lines@[1]@ && all[2] == lines@[2]@ && all[3]
        == lines@[3]@ && all[4] == lines@[4]@ && all[5] == lines@[5]@);
}

/// What an application shows is all that it does.
pub proof fn law_application_shows_all(a: Application)
    ensures
        match a {
            Application::CompilePatterns(v) => a@ == ApplicationView::CompilePatterns(
                v@.map_values(|s: String| s@),
            ),
            Application::InvalidateCache => a@ is InvalidateCache,
            Application::SetRolePolicy { role_id, flags } => a@ == (
            ApplicationView::SetRolePolicy { role_id, flags }),
            Application::ApplyNetworkRules { role_id, rules } => a@ == (
            ApplicationView::ApplyNetworkRules {
                role_id,
                rules: rules@.map_values(|s: String| s@),
            }),
            Application::ApplyPathRules { role_id, paths } => a@ == (
            ApplicationView::ApplyPathRules {
                role_id,
                paths: paths@.map_values(|p: PathPattern| p@),
            }),
            Application::ApplyIpRules { role_id, ips } => a@ == (ApplicationView::ApplyIpRules {
                role_id,
                ips: ips@.map_values(|r: IpRule| r@),
            }),
            Application::ApplyDomainRules { role_id, domains } => a@ == (
            ApplicationView::ApplyDomainRules {
                role_id,
                domains: domains@.map_values(|s: String| s@),
            }),
            Application::SetProxy { role_id, proxy } => a@ == (ApplicationView::SetProxy {
                role_id,
                proxy: proxy@,
            }),
        },
{
    match a {
        Application::CompilePatterns(v) => {
            assert(texts(v@) =~= v@.map_values(|s: String| s@));
        },
        Application::ApplyNetworkRules { role_id, rules } => {
            assert(texts(rules@) =~= rules@.map_values(|s: String| s@));
        },
        Application::ApplyPathRules { role_id, paths } => {
            assert(rules(paths@) =~= paths@.map_values(|p: PathPattern| p@));
        },
        Application::ApplyIpRules { role_id, ips } => {
            assert(ip_rules(ips@) =~= ips@.map_values(|r: IpRule| r@));
        },
        Application::ApplyDomainRules { role_id, domains } => {
            assert(texts(domains@) =~= domains@.map_values(|s: String| s@));
        },
        _ => {},
    }
}

/// Among what is put in force for some roles stands what each of them needs.
proof fn lemma_network_contains(
    roles: Seq<(Seq<char>, RoleView)>,
    i: int,
    a: ApplicationView,
)
    requires
        0 <= i < roles.len(),
        role_applications(roles[i].1).contains(a),
    ensures
        network_applications(roles).contains(a),
    decreases roles.len(),
{
    let before = roles.drop_last();
    let all = network_applications(roles);
    if i < before.len() {
        assert(before[i] == roles[i]);
        lemma_network_contains(before, i, a);
        let first = network_applications(before);
        let k = choose|k: int| 0 <= k < first.len() && first[k] == a;
        assert(all[k] == a);
    } else {
        let last = role_applications(roles[i].1);
        let k = choose|k: int| 0 <= k < last.len() && last[k] == a;
        assert(all[network_applications(before).len() + k] == a);
    }
}

/// What is put in force for some roles is what one of them needs.
proof fn lemma_network_origin(roles: Seq<(Seq<char>, RoleView)>, a: ApplicationView) -> (i: int)
    requires
        network_applications(roles).contains(a),
    ensures
        0 <= i < roles.len(),
        role_applications(roles[i].1).contains(a),
    decreases roles.len(),
{
    let before = roles.drop_last();
    let first = network_applications(before);
    let last = role_applications(roles.last().1);
    let all = network_applications(roles);
    let k = choose|k: int| 0 <= k < all.len() && all[k] == a;
    if k < first.len() {
        assert(first[k] == a);
        lemma_network_origin(before, a)
    } else {
        assert(last[k - first.len()] == a);
        roles.len() - 1
    }
}

/// The patterns of all roles are those of each role, one role after the other.
proof fn lemma_all_patterns(roles: Seq<(Seq<char>, RoleView)>)
    ensures
        all_patterns(roles) == roles.map_values(
            |e: (Seq<char>, RoleView)|
                e.1.file_paths.map_values(|p: PathPatternView| p.pattern),
        ).flatten_alt(),
    decreases roles.len(),
{
    let lists = roles.map_values(
        |e: (Seq<char>, RoleView)| e.1.file_paths.map_values(|p: PathPatternView| p.pattern),
    );
    if roles.len() > 0 {
        lemma_all_patterns(roles.drop_last());
        assert(lists.drop_last() =~= roles.drop_last().map_values(
            |e: (Seq<char>, RoleView)| e.1.file_paths.map_values(|p: PathPatternView| p.pattern),
        ));
        assert(lists.last() =~= patterns_of(roles.last().1.file_paths));
    }
}

/// What is put in force at the start is for each role all of its address rules, all
/// of its domain rules and its proxy, as far as it has them and whatever else it has.
pub proof fn law_start_reaches_every_role(config: &PolicyConfig, v: Vec<Application>, i: int)
    requires
        call_ensures(startup_applications, (config,), v),
        0 <= i < config@.roles.len(),
    ensures
        ({
            let all = v@.map_values(|a: Application| a@);
            let role = config@.roles[i].1;
            &&& role.proxy matches Some(proxy) ==> all.contains(
                ApplicationView::SetProxy { role_id: role.id, proxy },
            )
            &&& role.ip_rules.len() > 0 ==> all.contains(
                ApplicationView::ApplyIpRules { role_id: role.id, ips: role.ip_rules },
            )
            &&& role.domain_rules.len() > 0 ==> all.contains(
                ApplicationView::ApplyDomainRules {
                    role_id: role.id,
                    domains: role.domain_rules,
                },
            )
        }),
{
    assert(v@.map_values(|a: Application| a@) =~= applications(v@));
    lemma_role_is_reached(config@.roles, i);
    lemma_behind_patterns(config@.roles, i);
}

/// What puts a role in force stands among what puts all roles in force.
proof fn lemma_role_is_reached(roles: Seq<(Seq<char>, RoleView)>, i: int)
    requires
        0 <= i < roles.len(),
    ensures
        ({
            let all = network_applications(roles);
            let role = roles[i].1;
            &&& role.proxy matches Some(proxy) ==> all.contains(
                ApplicationView::SetProxy { role_id: role.id, proxy },
            )
            &&& role.ip_rules.len() > 0 ==> all.contains(
                ApplicationView::ApplyIpRules { role_id: role.id, ips: role.ip_rules },
            )
            &&& role.domain_rules.len() > 0 ==> all.contains(
                ApplicationView::ApplyDomainRules {
                    role_id: role.id,
                    domains: role.domain_rules,
                },
            )
        }),
{
    let role = roles[i].1;
    let own = role_applications(role);
    if let Some(proxy) = role.proxy {
        let a = ApplicationView::SetProxy { role_id: role.id, proxy };
        assert(own[own.len() - 1] == a);
        lemma_network_contains(roles, i, a);
    }
    if role.ip_rules.len() > 0 {
        let a = ApplicationView::ApplyIpRules { role_id: role.id, ips: role.ip_rules };
        assert(own[0] == a);
        lemma_network_contains(roles, i, a);
    }
    if role.domain_rules.len() > 0 {
        let a = ApplicationView::ApplyDomainRules { role_id: role.id, domains: role.domain_rules };
        let at: int = if role.ip_rules.len() > 0 {
            1
        } else {
            0
        };
        assert(own[at] == a);
        lemma_network_contains(roles, i, a);
    }
}

proof fn lemma_behind_patterns(roles: Seq<(Seq<char>, RoleView)>, i: int)
    ensures
        forall|a: ApplicationView|
            network_applications(roles).contains(a) ==> #[trigger] (pattern_applications(roles)
                + network_applications(roles)).contains(a),
{
    let first = pattern_applications(roles);
    let all = network_applications(roles);
    assert forall|a: ApplicationView| all.contains(a) implies #[trigger] (first + all).contains(
        a,
    ) by {
        let k = choose|k: int| 0 <= k < all.len() && all[k] == a;
        assert((first + all)[first.len() + k] == a);
    }
}

/// The patterns of all path rules are made known first, role by role and in order,
/// and what the kernel programs remember is dropped next; neither happens where there
/// are no path rules.
pub proof fn law_start_makes_patterns_known(config: &PolicyConfig, v: Vec<Application>)
    requires
        call_ensures(startup_applications, (config,), v),
    ensures
        ({
            let patterns = config@.roles.map_values(
                |e: (Seq<char>, RoleView)|
                    e.1.file_paths.map_values(|p: PathPatternView| p.pattern),
            ).flatten_alt();
            &&& patterns.len() > 0 ==> v@.len() >= 2 && v@[0]@ == ApplicationView::CompilePatterns(
                patterns,
            ) && v@[1]@ is InvalidateCache
            &&& forall|k: int|
                0 <= k < v@.len() && (k >= 2 || patterns.len() == 0) ==> !((#[trigger] v@[k])@
                    is CompilePatterns) && !(v@[k]@ is InvalidateCache)
        }),
{
    let t = config@.roles;
    let all = applications(v@);
    assert(all.len() == v@.len());
    assert(forall|k: int| 0 <= k < v@.len() ==> all[k] == (#[trigger] v@[k])@);
    lemma_all_patterns(t);
    let first = pattern_applications(t);
    assert forall|k: int| 0 <= k < v@.len() && (k >= 2 || all_patterns(t).len() == 0) implies !((
    #[trigger] v@[k])@ is CompilePatterns) && !(v@[k]@ is InvalidateCache) by {
        assert(all[k] == v@[k]@);
        let rest = network_applications(t);
        assert(rest[k - first.len()] == all[k]);
        assert(rest.contains(all[k]));
        let i = lemma_network_origin(t, all[k]);
    }
}

/// Nothing else is put in force at the start: an application that is not about
/// patterns is for a role of the policy and holds just what that role holds.
pub proof fn law_start_puts_nothing_else_in_force(
    config: &PolicyConfig,
    v: Vec<Application>,
    k: int,
) -> (i: int)
    requires
        call_ensures(startup_applications, (config,), v),
        0 <= k < v@.len(),
        !(v@[k]@ is CompilePatterns),
        !(v@[k]@ is InvalidateCache),
    ensures
        0 <= i < config@.roles.len(),
        ({
            let role = config@.roles[i].1;
            match v@[k]@ {
                ApplicationView::ApplyIpRules { role_id, ips } => role_id == role.id && ips
                    == role.ip_rules && ips.len() > 0,
                ApplicationView::ApplyDomainRules { role_id, domains } => role_id == role.id
                    && domains == role.domain_rules && domains.len() > 0,
                ApplicationView::SetProxy { role_id, proxy } => role_id == role.id && role.proxy
                    == Some(proxy),
                _ => false,
            }
        }),
{
    let t = config@.roles;
    let all = applications(v@);
    assert(all.len() == v@.len());
    assert(all[k] == v@[k]@);
    let first = pattern_applications(t);
    let rest = network_applications(t);
    assert(k >= first.len());
    assert(rest[k - first.len()] == all[k]);
    assert(rest.contains(all[k]));
    lemma_network_origin(t, all[k])
}

/// A reload reaches every role with all that it holds: its flags, its network rules,
/// its path rules with those of all users behind them, and what the start puts in
/// force too.
pub proof fn law_reload_reaches_all(pm: &PolicyManager, v: Vec<Application>, i: int)
    requires
        call_ensures(reload_applications, (pm,), v),
        0 <= i < pm@.config.roles.len(),
    ensures
        ({
            let all = v@.map_values(|a: Application| a@);
            let role = pm@.config.roles[i].1;
            &&& all.contains(
                ApplicationView::SetRolePolicy { role_id: role.id, flags: role.flags },
            )
            &&& all.contains(
                ApplicationView::ApplyNetworkRules { role_id: role.id, rules: role.network_rules },
            )
            &&& exists|paths: Seq<PathPatternView>|
                {
                    &&& #[trigger] pm@.paths_of_all(role.id, paths)
                    &&& all.contains(
                        ApplicationView::ApplyPathRules { role_id: role.id, paths },
                    )
                }
            &&& role.proxy matches Some(proxy) ==> all.contains(
                ApplicationView::SetProxy { role_id: role.id, proxy },
            )
            &&& role.ip_rules.len() > 0 ==> all.contains(
                ApplicationView::ApplyIpRules { role_id: role.id, ips: role.ip_rules },
            )
            &&& role.domain_rules.len() > 0 ==> all.contains(
                ApplicationView::ApplyDomainRules {
                    role_id: role.id,
                    domains: role.domain_rules,
                },
            )
        }),
{
    let t = pm@.config.roles;
    let all = v@.map_values(|a: Application| a@);
    assert(all =~= applications(v@));
    let paths = choose|paths: Seq<Seq<PathPatternView>>|
        {
            &&& #[trigger] paths_of_roles(pm@, paths)
            &&& applications(v@) == reloaded_roles(t, paths) + pattern_applications(t)
                + network_applications(t)
        };
    let first = reloaded_roles(t, paths);
    law_reload_reaches_every_role(t, paths, i);
    assert(all[3 * i] == first[3 * i]);
    assert(all[3 * i + 1] == first[3 * i + 1]);
    assert(all[3 * i + 2] == first[3 * i + 2]);
    assert(pm@.paths_of_all(t[i].1.id, paths[i]));
    lemma_role_is_reached(t, i);
    let head = first + pattern_applications(t);
    let rest = network_applications(t);
    assert forall|a: ApplicationView| #[trigger] rest.contains(a) implies all.contains(a) by {
        let k = choose|k: int| 0 <= k < rest.len() && rest[k] == a;
        assert(all[head.len() + k] == a);
    }
}

/// A reload makes all patterns known anew, and forgets what the kernel programs
/// remember, wherever there are path rules.
pub proof fn law_reload_makes_patterns_known(pm: &PolicyManager, v: Vec<Application>)
    requires
        call_ensures(reload_applications, (pm,), v),
    ensures
        ({
            let patterns = pm@.config.roles.map_values(
                |e: (Seq<char>, RoleView)|
                    e.1.file_paths.map_values(|p: PathPatternView| p.pattern),
            ).flatten_alt();
            let n = 3 * pm@.config.roles.len() as int;
            patterns.len() > 0 ==> v@.len() >= n + 2 && v@[n]@ == ApplicationView::CompilePatterns(
                patterns,
            ) && v@[n + 1]@ is InvalidateCache
        }),
{
    let t = pm@.config.roles;
    let all = applications(v@);
    assert(all.len() == v@.len());
    let paths = choose|paths: Seq<Seq<PathPatternView>>|
        {
            &&& #[trigger] paths_of_roles(pm@, paths)
            &&& all == reloaded_roles(t, paths) + pattern_applications(t) + network_applications(t)
        };
    lemma_reloaded_len(t, paths);
    lemma_all_patterns(t);
    let n = 3 * t.len() as int;
    if all_patterns(t).len() > 0 {
        assert(all[n] == pattern_applications(t)[0]);
        assert(all[n + 1] == pattern_applications(t)[1]);
        assert(all[n] == v@[n]@ && all[n + 1] == v@[n + 1]@);
    }
}

/// A hangup signal switches the enforcement on or off only where the sentinel asks
/// for the other, and always reads everything again: the maps are emptied, the policy
/// and then the rules of the users are read, the maps are filled, and what is
/// remembered is dropped.
pub proof fn law_hangup(was_attached: bool, now_disabled: bool, steps: Vec<HangupStep>)
    requires
        call_ensures(on_hangup, (was_attached, now_disabled), steps),
    ensures
        steps@.contains(HangupStep::Detach) <==> was_attached && now_disabled,
        steps@.contains(HangupStep::Attach) <==> !was_attached && !now_disabled,
        steps@.len() == if was_attached == now_disabled {
            6int
        } else {
            5int
        },
        ({
            let n = steps@.len();
            &&& steps@[n - 5] == HangupStep::ClearMaps
            &&& steps@[n - 4] == HangupStep::ReadPolicy
            &&& steps@[n - 3] == HangupStep::ReadUserExtensions
            &&& steps@[n - 2] == HangupStep::PopulateMaps
            &&& steps@[n - 1] == HangupStep::FlushCache
        }),
{
    let n = steps@.len();
    let s = steps@;
    assert(s[n - 5] == HangupStep::ClearMaps);
    if was_attached == now_disabled {
        assert(s[0] == if was_attached {
            HangupStep::Detach
        } else {
            HangupStep::Attach
        });
    }
}

/// What is put in force for the roles at the start comes role by role, in their order, and
/// of each role the address rules before the domain rules and these before the proxy.
pub proof fn law_start_in_order(config: &PolicyConfig, v: Vec<Application>)
    requires
        call_ensures(startup_applications, (config,), v),
    ensures
        ({
            let rest = config@.roles.map_values(
                |e: (Seq<char>, RoleView)|
                    (if e.1.ip_rules.len() > 0 {
                        seq![ApplicationView::ApplyIpRules { role_id: e.1.id, ips: e.1.ip_rules }]
                    } else {
                        Seq::empty()
                    }) + (if e.1.domain_rules.len() > 0 {
                        seq![
                            ApplicationView::ApplyDomainRules {
                                role_id: e.1.id,
                                domains: e.1.domain_rules,
                            },
                        ]
                    } else {
                        Seq::empty()
                    }) + (if e.1.proxy is Some {
                        seq![
                            ApplicationView::SetProxy {
                                role_id: e.1.id,
                                proxy: e.1.proxy->Some_0,
                            },
                        ]
                    } else {
                        Seq::empty()
                    }),
            ).flatten_alt();
            let all = v@.map_values(|a: Application| a@);
            &&& all.len() >= rest.len()
            &&& all.skip(all.len() - rest.len()) == rest
            &&& all.len() - rest.len() == 0 || all.len() - rest.len() == 2
        }),
{
    let t = config@.roles;
    let all = v@.map_values(|a: Application| a@);
    assert(all =~= applications(v@));
    let f = |e: (Seq<char>, RoleView)|
        (if e.1.ip_rules.len() > 0 {
            seq![ApplicationView::ApplyIpRules { role_id: e.1.id, ips: e.1.ip_rules }]
        } else {
            Seq::empty()
        }) + (if e.1.domain_rules.len() > 0 {
            seq![
                ApplicationView::ApplyDomainRules { role_id: e.1.id, domains: e.1.domain_rules },
            ]
        } else {
            Seq::empty()
        }) + (if e.1.proxy is Some {
            seq![ApplicationView::SetProxy { role_id: e.1.id, proxy: e.1.proxy->Some_0 }]
        } else {
            Seq::empty()
        });
    assert forall|e: (Seq<char>, RoleView)| #[trigger] f(e) == role_applications(e.1) by {
        assert(f(e) =~= role_applications(e.1));
    }
    lemma_network_flattened(t, f);
    let rest = t.map_values(f).flatten_alt();
    assert(all.skip(all.len() - rest.len()) =~= rest);
}

proof fn lemma_network_flattened(
    roles: Seq<(Seq<char>, RoleView)>,
    f: spec_fn((Seq<char>, RoleView)) -> Seq<ApplicationView>,
)
    requires
        forall|e: (Seq<char>, RoleView)| #[trigger] f(e) == role_applications(e.1),
    ensures
        network_applications(roles) == roles.map_values(f).flatten_alt(),
    decreases roles.len(),
{
    let lists = roles.map_values(f);
    if roles.len() > 0 {
        lemma_network_flattened(roles.drop_last(), f);
        assert(lists.drop_last() =~= roles.drop_last().map_values(f));
        assert(lists.last() == f(roles.last()));
    }
}

/// A reload puts flags, network rules and path rules of each role in force, role by role,
/// then all that the start puts in force, and nothing else.
pub proof fn law_reload_ends_as_the_start(
    pm: &PolicyManager,
    config: &PolicyConfig,
    v: Vec<Application>,
    start: Vec<Application>,
    i: int,
)
    requires
        config@ == pm@.config,
        call_ensures(reload_applications, (pm,), v),
        call_ensures(startup_applications, (config,), start),
    ensures
        ({
            let all = v@.map_values(|a: Application| a@);
            let n = 3 * pm@.config.roles.len() as int;
            &&& all.len() == n + start@.len()
            &&& all.skip(n) == start@.map_values(|a: Application| a@)
            &&& 0 <= i < pm@.config.roles.len() ==> {
                let role = pm@.config.roles[i].1;
                &&& all[3 * i] == (ApplicationView::SetRolePolicy {
                    role_id: role.id,
                    flags: role.flags,
                })
                &&& all[3 * i + 1] == (ApplicationView::ApplyNetworkRules {
                    role_id: role.id,
                    rules: role.network_rules,
                })
                &&& all[3 * i + 2] is ApplyPathRules
                &&& all[3 * i + 2]->ApplyPathRules_role_id == role.id
                &&& pm@.paths_of_all(role.id, all[3 * i + 2]->ApplyPathRules_paths)
            }
        }),
{
    let t = pm@.config.roles;
    let all = v@.map_values(|a: Application| a@);
    let tail = start@.map_values(|a: Application| a@);
    assert(all =~= applications(v@));
    assert(tail =~= applications(start@));
    let paths = choose|paths: Seq<Seq<PathPatternView>>|
        {
            &&& #[trigger] paths_of_roles(pm@, paths)
            &&& applications(v@) == reloaded_roles(t, paths) + pattern_applications(t)
                + network_applications(t)
        };
    lemma_reloaded_len(t, paths);
    let n = 3 * t.len() as int;
    assert(all.skip(n) =~= tail);
    if 0 <= i < t.len() {
        law_reload_reaches_every_role(t, paths, i);
        let first = reloaded_roles(t, paths);
        assert(all[3 * i] == first[3 * i]);
        assert(all[3 * i + 1] == first[3 * i + 1]);
        assert(all[3 * i + 2] == first[3 * i + 2]);
        assert(pm@.paths_of_all(t[i].1.id, paths[i]));
    }
}

/// Where the daemon looks: the policies, the fragments, the sentinel, the socket, the
/// control groups, and the group that may connect.
pub proof fn law_places()
    ensures
        DEFAULT_POLICY_PATH@ == "/etc/bpfjailer/policy.json"@,
        LOCAL_POLICY_PATH@ == "config/policy.json"@,
        DISABLED_SENTINEL@ == "/etc/bpfjailer/disabled"@,
        crate::daemon::policy::DROP_IN_DIR@ == "/etc/icb/sandbox/policy.d"@,
        crate::daemon::enrollment::SOCKET_PATH@ == "/run/bpfjailer/enrollment.sock"@,
        crate::daemon::enrollment::CGROUP_BASE@ == "/sys/fs/cgroup/bpfjailer"@,
        crate::daemon::enrollment::BPFJAILER_GROUP@ == "bpfjailer"@,
{
}

} // verus!
