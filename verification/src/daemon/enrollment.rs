//! How the daemon serves a client. A request becomes a session: a list of steps
//! that the daemon performs one after the other, and the answer that follows
//! them.

use crate::client::enrollment::{
    annotated, AnnotatedRule, AnnotatedRuleView, EffectiveRole, EffectiveRoleView,
    EnrollmentRequest, EnrollmentResponse, RequestView, ResponseView,
};
use crate::common::{
    copy_rules, copy_texts, distinct_names, lemma_place_of, place_of, rules, IpRule, IpRuleView,
    PathPattern, PathPatternView, PodId, PolicyFlags, Role, RoleId, RoleView,
};
use crate::daemon::policy::{law_role_is_found, lemma_by_number, PolicyManager, PolicyState};
use crate::text::{
    decimal, lines, lines_of, parse_u32, same, signed_decimal, split, split_on, texts, to_decimal,
    to_signed_decimal, u32_of,
};
use vstd::prelude::*;

verus! {

/// Where the daemon listens.
pub const SOCKET_PATH: &'static str = "/run/bpfjailer/enrollment.sock";

/// Where the control groups of the roles stand.
pub const CGROUP_BASE: &'static str = "/sys/fs/cgroup/bpfjailer";

/// The group whose members may connect.
pub const BPFJAILER_GROUP: &'static str = "bpfjailer";

/// The process and the user at the other end of a connection.
#[derive(Clone, Copy, Debug)]
pub struct Peer {
    pub pid: i32,
    pub uid: u32,
}

/// What the daemon does to the system for a client.
#[derive(Debug)]
pub enum Effect {
    SetRolePolicy { role_id: RoleId, flags: PolicyFlags },
    ApplyNetworkRules { role_id: RoleId, rules: Vec<String> },
    ApplyPathRules { role_id: RoleId, paths: Vec<PathPattern> },
    EnrollProcess { pid: u32, pod_id: PodId, role_id: RoleId },
    QueryProcess { pid: u32 },
    EnrollExecutable { path: String, pod_id: PodId, role_id: RoleId },
    RemoveExecutable { path: String },
    EnrollCgroup { path: String, pod_id: PodId, role_id: RoleId },
    RemoveCgroup { path: String },
    SetXattr { path: String, pod_id: PodId, role_id: RoleId },
    CheckXattr { path: String },
    RemoveXattr { path: String },
    /// Create the directory and its parents, where it does not exist.
    EnsureDirectory { path: String },
    WriteFile { path: String, content: String },
    /// Send the daemon itself a hangup signal.
    RaiseHangup,
    /// See whether the kernel programs are attached, and how many.
    ReadHooks,
}

pub enum EffectView {
    SetRolePolicy { role_id: RoleId, flags: PolicyFlags },
    ApplyNetworkRules { role_id: RoleId, rules: Seq<Seq<char>> },
    ApplyPathRules { role_id: RoleId, paths: Seq<PathPatternView> },
    EnrollProcess { pid: u32, pod_id: PodId, role_id: RoleId },
    QueryProcess { pid: u32 },
    EnrollExecutable { path: Seq<char>, pod_id: PodId, role_id: RoleId },
    RemoveExecutable { path: Seq<char> },
    EnrollCgroup { path: Seq<char>, pod_id: PodId, role_id: RoleId },
    RemoveCgroup { path: Seq<char> },
    SetXattr { path: Seq<char>, pod_id: PodId, role_id: RoleId },
    CheckXattr { path: Seq<char> },
    RemoveXattr { path: Seq<char> },
    EnsureDirectory { path: Seq<char> },
    WriteFile { path: Seq<char>, content: Seq<char> },
    RaiseHangup,
    ReadHooks,
}

impl View for Effect {
    type V = EffectView;

    open spec fn view(&self) -> EffectView {
        match *self {
            Effect::SetRolePolicy { role_id, flags } => EffectView::SetRolePolicy {
                role_id,
                flags,
            },
            Effect::ApplyNetworkRules { role_id, rules } => EffectView::ApplyNetworkRules {
                role_id,
                rules: texts(rules@),
            },
            Effect::ApplyPathRules { role_id, paths } => EffectView::ApplyPathRules {
                role_id,
                paths: rules(paths@),
            },
            Effect::EnrollProcess { pid, pod_id, role_id } => EffectView::EnrollProcess {
                pid,
                pod_id,
                role_id,
            },
            Effect::QueryProcess { pid } => EffectView::QueryProcess { pid },
            Effect::EnrollExecutable { path, pod_id, role_id } => EffectView::EnrollExecutable {
                path: path@,
                pod_id,
                role_id,
            },
            Effect::RemoveExecutable { path } => EffectView::RemoveExecutable { path: path@ },
            Effect::EnrollCgroup { path, pod_id, role_id } => EffectView::EnrollCgroup {
                path: path@,
                pod_id,
                role_id,
            },
            Effect::RemoveCgroup { path } => EffectView::RemoveCgroup { path: path@ },
            Effect::SetXattr { path, pod_id, role_id } => EffectView::SetXattr {
                path: path@,
                pod_id,
                role_id,
            },
            Effect::CheckXattr { path } => EffectView::CheckXattr { path: path@ },
            Effect::RemoveXattr { path } => EffectView::RemoveXattr { path: path@ },
            Effect::EnsureDirectory { path } => EffectView::EnsureDirectory { path: path@ },
            Effect::WriteFile { path, content } => EffectView::WriteFile {
                path: path@,
                content: content@,
            },
            Effect::RaiseHangup => EffectView::RaiseHangup,
            Effect::ReadHooks => EffectView::ReadHooks,
        }
    }
}

/// What follows the failure of a step.
#[derive(Debug)]
pub enum OnFailure {
    /// The next step, as after a success.
    Continue,
    /// The end of the session, with an error that begins with this text and
    /// ends with the reason.
    Abort(String),
}

pub enum OnFailureView {
    Continue,
    Abort(Seq<char>),
}

impl View for OnFailure {
    type V = OnFailureView;

    open spec fn view(&self) -> OnFailureView {
        match *self {
            OnFailure::Continue => OnFailureView::Continue,
            OnFailure::Abort(m) => OnFailureView::Abort(m@),
        }
    }
}

/// One step of a session.
#[derive(Debug)]
pub struct Step {
    pub effect: Effect,
    pub on_failure: OnFailure,
}

pub struct StepView {
    pub effect: EffectView,
    pub on_failure: OnFailureView,
}

impl View for Step {
    type V = StepView;

    open spec fn view(&self) -> StepView {
        StepView { effect: self.effect@, on_failure: self.on_failure@ }
    }
}

/// What a list of steps does.
pub open spec fn steps_view(v: Seq<Step>) -> Seq<StepView> {
    v.map_values(|s: Step| s@)
}

/// What came of an effect.
#[derive(Debug)]
pub enum Outcome {
    Done,
    Failed(String),
    /// The pod and the role that were found, if any.
    Enrollment(Option<(PodId, RoleId)>),
    /// Whether the kernel programs are attached, and how many.
    Hooks { attached: bool, lsm_hooks: usize },
}

/// How a session is answered once its steps are done.
#[derive(Debug)]
pub enum Finish {
    Success,
    Enrolled { cgroup: String },
    /// With the pod and the role of a process.
    Process,
    /// With the pod and the role that an executable is marked with.
    Xattr,
    /// With the state of the daemon.
    Status {
        roles: Vec<String>,
        cgroup_enrollments: usize,
        exec_enrollments: usize,
        policy_path: String,
    },
}

pub enum FinishView {
    Success,
    Enrolled { cgroup: Seq<char> },
    Process,
    Xattr,
    Status {
        roles: Seq<Seq<char>>,
        cgroup_enrollments: nat,
        exec_enrollments: nat,
        policy_path: Seq<char>,
    },
}

impl View for Finish {
    type V = FinishView;

    open spec fn view(&self) -> FinishView {
        match *self {
            Finish::Success => FinishView::Success,
            Finish::Enrolled { cgroup } => FinishView::Enrolled { cgroup: cgroup@ },
            Finish::Process => FinishView::Process,
            Finish::Xattr => FinishView::Xattr,
            Finish::Status { roles, cgroup_enrollments, exec_enrollments, policy_path } => {
                FinishView::Status {
                    roles: texts(roles@),
                    cgroup_enrollments: cgroup_enrollments as nat,
                    exec_enrollments: exec_enrollments as nat,
                    policy_path: policy_path@,
                }
            },
        }
    }
}

/// The steps that are left, the first of them to be performed now.
pub struct SessionView {
    pub steps: Seq<StepView>,
    pub finish: FinishView,
}

/// A request that is being served.
#[derive(Debug)]
pub struct Session {
    steps: Vec<Step>,
    done: usize,
    finish: Finish,
}

impl View for Session {
    type V = SessionView;

    closed spec fn view(&self) -> SessionView {
        SessionView {
            steps: steps_view(self.steps@).skip(self.done as int),
            finish: self.finish@,
        }
    }
}

/// Where a session stands.
#[derive(Debug)]
pub enum Progress {
    /// A step is to be performed.
    Waiting(Session),
    /// The client is to be answered.
    Finished(EnrollmentResponse),
}

pub enum ProgressView {
    Waiting(SessionView),
    Finished(ResponseView),
}

impl View for Progress {
    type V = ProgressView;

    open spec fn view(&self) -> ProgressView {
        match *self {
            Progress::Waiting(s) => ProgressView::Waiting(s@),
            Progress::Finished(r) => ProgressView::Finished(r@),
        }
    }
}

impl Progress {
    pub open spec fn wf(&self) -> bool {
        *self matches Progress::Waiting(s) ==> s.wf()
    }
}

/// The answer that follows the last step.
pub open spec fn answer(finish: FinishView, outcome: Outcome) -> ResponseView {
    match finish {
        FinishView::Success => ResponseView::Success,
        FinishView::Enrolled { cgroup } => ResponseView::Enrolled { cgroup },
        FinishView::Process => match outcome {
            Outcome::Enrollment(Some((pod_id, role_id))) => ResponseView::ProcessInfo {
                pod_id,
                role_id,
            },
            _ => ResponseView::Error("Process not found or not enrolled"@),
        },
        FinishView::Xattr => match outcome {
            Outcome::Enrollment(Some((pod_id, role_id))) => ResponseView::XattrInfo {
                pod_id,
                role_id,
            },
            _ => ResponseView::Error("No xattr enrollment found"@),
        },
        FinishView::Status { roles, cgroup_enrollments, exec_enrollments, policy_path } => {
            let (attached, lsm_hooks) = match outcome {
                Outcome::Hooks { attached, lsm_hooks } => (attached, lsm_hooks),
                _ => (false, 0usize),
            };
            ResponseView::StatusInfo {
                attached,
                lsm_hooks,
                roles,
                cgroup_enrollments,
                exec_enrollments,
                policy_path,
            }
        },
    }
}

/// Where a session stands after the first of its steps came out in some way.
pub open spec fn resumed(s: SessionView, outcome: Outcome) -> ProgressView {
    match (s.steps[0].on_failure, outcome) {
        (OnFailureView::Abort(prefix), Outcome::Failed(why)) => ProgressView::Finished(
            ResponseView::Error(prefix + why@),
        ),
        _ => if s.steps.len() == 1 {
            ProgressView::Finished(answer(s.finish, outcome))
        } else {
            ProgressView::Waiting(
                SessionView { steps: s.steps.drop_first(), finish: s.finish },
            )
        },
    }
}

impl Session {
    /// A session that waits has a step to perform.
    pub closed spec fn wf(&self) -> bool {
        self.done < self.steps@.len()
    }

    /// A session with all of its steps ahead.
    fn start(steps: Vec<Step>, finish: Finish) -> (p: Progress)
        requires
            steps@.len() > 0,
        ensures
            p.wf(),
            p@ == ProgressView::Waiting(
                SessionView { steps: steps_view(steps@), finish: finish@ },
            ),
    {
        let s = Session { steps, done: 0, finish };
        assert(s@.steps =~= steps_view(steps@));
        Progress::Waiting(s)
    }

    /// What is to be done now.
    pub fn effect(&self) -> (e: &Effect)
        requires
            self.wf(),
        ensures
            e@ == self@.steps[0].effect,
    {
        &self.steps[self.done].effect
    }

    /// Goes on after the effect came out in some way.
    pub fn resume(self, outcome: Outcome) -> (p: Progress)
        requires
            self.wf(),
        ensures
            p.wf(),
            p@ == resumed(self@, outcome),
    {
        let ghost all = steps_view(self.steps@);
        assert(self@.steps[0] == self.steps@[self.done as int]@);
        if let Outcome::Failed(why) = &outcome {
            if let OnFailure::Abort(prefix) = &self.steps[self.done].on_failure {
                let mut m = prefix.clone();
                m.append(why.as_str());
                return Progress::Finished(EnrollmentResponse::Error(m));
            }
        }
        if self.steps.len() - self.done == 1 {
            return Progress::Finished(make_answer(self.finish, outcome));
        }
        let ghost before = self@;
        let s = Session { steps: self.steps, done: self.done + 1, finish: self.finish };
        assert(s@.steps =~= before.steps.drop_first());
        Progress::Waiting(s)
    }
}

/// The answer that follows the last step.
fn make_answer(finish: Finish, outcome: Outcome) -> (r: EnrollmentResponse)
    ensures
        r@ == answer(finish@, outcome),
{
    match finish {
        Finish::Success => EnrollmentResponse::Success,
        Finish::Enrolled { cgroup } => EnrollmentResponse::Enrolled { cgroup },
        Finish::Process => match outcome {
            Outcome::Enrollment(Some((pod_id, role_id))) => EnrollmentResponse::ProcessInfo {
                pod_id,
                role_id,
            },
            _ => EnrollmentResponse::Error("Process not found or not enrolled".to_owned()),
        },
        Finish::Xattr => match outcome {
            Outcome::Enrollment(Some((pod_id, role_id))) => EnrollmentResponse::XattrInfo {
                pod_id,
                role_id,
            },
            _ => EnrollmentResponse::Error("No xattr enrollment found".to_owned()),
        },
        Finish::Status { roles, cgroup_enrollments, exec_enrollments, policy_path } => {
            let (attached, lsm_hooks): (bool, usize) = match outcome {
                Outcome::Hooks { attached, lsm_hooks } => (attached, lsm_hooks),
                _ => (false, 0),
            };
            EnrollmentResponse::StatusInfo {
                attached,
                lsm_hooks,
                roles,
                cgroup_enrollments,
                exec_enrollments,
                policy_path,
            }
        },
    }
}

/// A step whose failure ends the session.
pub open spec fn vital(effect: EffectView, prefix: Seq<char>) -> StepView {
    StepView { effect, on_failure: OnFailureView::Abort(prefix) }
}

/// A step whose failure is passed over.
pub open spec fn optional(effect: EffectView) -> StepView {
    StepView { effect, on_failure: OnFailureView::Continue }
}

/// A session of a single step.
pub open spec fn single(step: StepView, finish: FinishView) -> ProgressView {
    ProgressView::Waiting(SessionView { steps: seq![step], finish })
}

/// The steps that confine a process: the policy and the rules of its role are
/// put in force, then the process is enrolled.
pub open spec fn confinement(
    role: RoleView,
    paths: Seq<PathPatternView>,
    pid: u32,
    pod_id: PodId,
    role_id: RoleId,
    on_policy: Seq<char>,
    on_enroll: Seq<char>,
) -> Seq<StepView> {
    seq![
        vital(EffectView::SetRolePolicy { role_id, flags: role.flags }, on_policy),
        optional(EffectView::ApplyNetworkRules { role_id, rules: role.network_rules }),
        optional(EffectView::ApplyPathRules { role_id, paths }),
        vital(EffectView::EnrollProcess { pid, pod_id, role_id }, on_enroll),
    ]
}

/// How a process is enrolled that named its pod and its role by number.
pub open spec fn enroll_session(
    pod_id: PodId,
    role_id: RoleId,
    peer: Peer,
    pm: PolicyState,
) -> ProgressView {
    match pm.role(role_id) {
        None => ProgressView::Finished(
            ResponseView::Error("Unknown role ID: "@ + decimal(role_id.0 as nat)),
        ),
        Some(role) => ProgressView::Waiting(
            SessionView {
                steps: confinement(
                    role,
                    role.file_paths,
                    peer.pid as u32,
                    pod_id,
                    role_id,
                    "Failed to set role policy: "@,
                    "Enrollment failed: "@,
                ),
                finish: FinishView::Success,
            },
        ),
    }
}

/// The control group directory of a role.
pub open spec fn role_directory(role: Seq<char>) -> Seq<char> {
    CGROUP_BASE@ + "/"@ + role
}

/// The file that takes the processes of a role's control group.
pub open spec fn role_processes(role: Seq<char>) -> Seq<char> {
    role_directory(role) + "/cgroup.procs"@
}

/// The pod of a process that enrolls itself.
pub open spec fn own_pod(pid: i32) -> PodId {
    PodId((pid + 10000) as u64)
}

/// How a process is enrolled that named its role only: it is placed into the
/// control group of the role, and the rules of its user are put in force too.
pub open spec fn enroll_self_session(
    role_name: Seq<char>,
    peer: Peer,
    pm: PolicyState,
) -> ProgressView {
    if peer.pid <= 0 {
        ProgressView::Finished(ResponseView::Error("cannot determine caller PID"@))
    } else {
        match pm.role_by_name(role_name) {
            None => ProgressView::Finished(ResponseView::Error("unknown role: "@ + role_name)),
            Some(role) => ProgressView::Waiting(
                SessionView {
                    steps: seq![
                        vital(
                            EffectView::EnsureDirectory { path: role_directory(role_name) },
                            "mkdir "@ + role_directory(role_name) + ": "@,
                        ),
                        vital(
                            EffectView::WriteFile {
                                path: role_processes(role_name),
                                content: signed_decimal(peer.pid as int) + "\n"@,
                            },
                            "write "@ + signed_decimal(peer.pid as int) + " to "@ + role_processes(
                                role_name,
                            ) + ": "@,
                        ),
                    ] + confinement(
                        role,
                        pm.effective_paths(role.id, Some(peer.uid)),
                        peer.pid as u32,
                        own_pod(peer.pid),
                        role.id,
                        "set_role_policy: "@,
                        "enroll_process: "@,
                    ),
                    finish: FinishView::Enrolled { cgroup: "/bpfjailer/"@ + role_name },
                },
            ),
        }
    }
}

/// The word for what a rule does.
pub open spec fn verdict(allow: bool) -> Seq<char> {
    if allow {
        "allow"@
    } else {
        "deny"@
    }
}

/// A path rule with its source.
pub open spec fn annotated_path(p: PathPatternView, source: Seq<char>) -> AnnotatedRuleView {
    AnnotatedRuleView {
        rule: verdict(p.allow) + " "@ + p.pattern,
        source,
        lockdown: p.lockdown,
    }
}

/// Path rules with their source.
pub open spec fn annotated_paths(
    v: Seq<PathPatternView>,
    source: Seq<char>,
) -> Seq<AnnotatedRuleView> {
    v.map_values(|p: PathPatternView| annotated_path(p, source))
}

/// An address rule of the global policy.
pub open spec fn annotated_ip(r: IpRuleView) -> AnnotatedRuleView {
    AnnotatedRuleView {
        rule: verdict(r.allow) + " "@ + r.direction + " "@ + r.cidr,
        source: "base"@,
        lockdown: false,
    }
}

/// A domain rule of the global policy.
pub open spec fn annotated_domain(rule: Seq<char>) -> AnnotatedRuleView {
    AnnotatedRuleView { rule, source: "base"@, lockdown: false }
}

/// The flags of a role by name.
pub open spec fn named_flags(f: PolicyFlags) -> Seq<(Seq<char>, bool)> {
    seq![
        ("allow_file_access"@, f.allow_file_access),
        ("allow_network"@, f.allow_network),
        ("allow_exec"@, f.allow_exec),
        ("require_signed_binary"@, f.require_signed_binary),
        ("allow_setuid"@, f.allow_setuid),
        ("allow_ptrace"@, f.allow_ptrace),
        ("allow_module_load"@, f.allow_module_load),
        ("allow_bpf_load"@, f.allow_bpf_load),
        ("require_proxy"@, f.require_proxy),
    ]
}

/// A role as it is in force for a user with rules of their own: each path rule
/// says whether it comes from the global policy or from the user.
pub open spec fn effective_role(
    name: Seq<char>,
    role: RoleView,
    user: Seq<PathPatternView>,
) -> EffectiveRoleView {
    EffectiveRoleView {
        name,
        id: role.id.0,
        flags: named_flags(role.flags),
        file_paths: annotated_paths(role.file_paths, "base"@) + annotated_paths(user, "user"@),
        ip_rules: role.ip_rules.map_values(|r: IpRuleView| annotated_ip(r)),
        domain_rules: role.domain_rules.map_values(|r: Seq<char>| annotated_domain(r)),
        proxy: role.proxy,
    }
}

/// All roles as they are in force for a user: under each name the role that has
/// the number that goes with it.
pub open spec fn effective_roles(pm: PolicyState, uid: u32) -> Seq<EffectiveRoleView> {
    pm.config.roles.map_values(
        |e: (Seq<char>, RoleView)|
            effective_role(e.0, pm.role(e.1.id)->Some_0, pm.user_rules(Some(uid))),
    )
}

/// How a request is served.
pub open spec fn session_for(request: RequestView, peer: Peer, pm: PolicyState) -> ProgressView {
    match request {
        RequestView::EnrollSelf { role } => enroll_self_session(role, peer, pm),
        RequestView::Reload => single(optional(EffectView::RaiseHangup), FinishView::Success),
        RequestView::Status => single(
            optional(EffectView::ReadHooks),
            FinishView::Status {
                roles: pm.config.roles.map_values(|e: (Seq<char>, RoleView)| e.0),
                cgroup_enrollments: pm.config.cgroup_enrollments.len(),
                exec_enrollments: pm.config.exec_enrollments.len(),
                policy_path: pm.loaded_path,
            },
        ),
        RequestView::Enroll { pod_id, role_id } => enroll_session(pod_id, role_id, peer, pm),
        RequestView::Query { pid } => single(
            vital(EffectView::QueryProcess { pid }, "Query failed: "@),
            FinishView::Process,
        ),
        RequestView::EnrollExecutable { path, pod_id, role_id } => single(
            vital(
                EffectView::EnrollExecutable { path, pod_id, role_id },
                "Failed to enroll executable: "@,
            ),
            FinishView::Success,
        ),
        RequestView::RemoveExecutable { path } => single(
            vital(
                EffectView::RemoveExecutable { path },
                "Failed to remove executable enrollment: "@,
            ),
            FinishView::Success,
        ),
        RequestView::EnrollCgroup { path, pod_id, role_id } => single(
            vital(
                EffectView::EnrollCgroup { path, pod_id, role_id },
                "Failed to enroll cgroup: "@,
            ),
            FinishView::Success,
        ),
        RequestView::RemoveCgroup { path } => single(
            vital(EffectView::RemoveCgroup { path }, "Failed to remove cgroup enrollment: "@),
            FinishView::Success,
        ),
        RequestView::SetXattr { path, pod_id, role_id } => single(
            vital(
                EffectView::SetXattr { path, pod_id, role_id },
                "Failed to set xattr enrollment: "@,
            ),
            FinishView::Success,
        ),
        RequestView::CheckXattr { path } => single(
            vital(EffectView::CheckXattr { path }, "Failed to check xattr enrollment: "@),
            FinishView::Xattr,
        ),
        RequestView::RemoveXattr { path } => single(
            vital(EffectView::RemoveXattr { path }, "Failed to remove xattr enrollment: "@),
            FinishView::Success,
        ),
        RequestView::EffectivePolicy => ProgressView::Finished(
            ResponseView::EffectivePolicyInfo { roles: effective_roles(pm, peer.uid) },
        ),
    }
}

/// A step whose failure ends the session with `prefix` and the reason.
fn vital_step(effect: Effect, prefix: &str) -> (s: Step)
    ensures
        s@ == vital(effect@, prefix@),
{
    Step { effect, on_failure: OnFailure::Abort(prefix.to_owned()) }
}

/// A session of a single step.
fn single_step(step: Step, finish: Finish) -> (p: Progress)
    ensures
        p.wf(),
        p@ == single(step@, finish@),
{
    let ghost s = step@;
    let mut steps: Vec<Step> = Vec::new();
    steps.push(step);
    assert(steps_view(steps@) =~= seq![s]);
    Session::start(steps, finish)
}

/// Puts the steps that confine a process behind others.
fn push_confinement(
    steps: &mut Vec<Step>,
    role: &Role,
    paths: Vec<PathPattern>,
    pid: u32,
    pod_id: PodId,
    role_id: RoleId,
    on_policy: &str,
    on_enroll: &str,
)
    ensures
        final(steps)@.len() == old(steps)@.len() + 4,
        steps_view(final(steps)@) == steps_view(old(steps)@) + confinement(
            role@,
            rules(paths@),
            pid,
            pod_id,
            role_id,
            on_policy@,
            on_enroll@,
        ),
{
    let ghost before = steps_view(steps@);
    let ghost path_rules = rules(paths@);
    steps.push(vital_step(Effect::SetRolePolicy { role_id, flags: role.flags }, on_policy));
    steps.push(
        Step {
            effect: Effect::ApplyNetworkRules { role_id, rules: copy_texts(&role.network_rules) },
            on_failure: OnFailure::Continue,
        },
    );
    steps.push(
        Step {
            effect: Effect::ApplyPathRules { role_id, paths },
            on_failure: OnFailure::Continue,
        },
    );
    steps.push(vital_step(Effect::EnrollProcess { pid, pod_id, role_id }, on_enroll));
    assert(steps_view(steps@) =~= before + confinement(
        role@,
        path_rules,
        pid,
        pod_id,
        role_id,
        on_policy@,
        on_enroll@,
    ));
}

/// How a process is enrolled that named its pod and its role by number.
fn handle_enroll(pod_id: PodId, role_id: RoleId, peer: Peer, pm: &PolicyManager) -> (p: Progress)
    requires
        pm.wf(),
    ensures
        p.wf(),
        p@ == enroll_session(pod_id, role_id, peer, pm@),
{
    match pm.get_role(role_id) {
        None => {
            let mut m = "Unknown role ID: ".to_owned();
            m.append(to_decimal(role_id.0 as u64).as_str());
            Progress::Finished(EnrollmentResponse::Error(m))
        },
        Some(role) => {
            let mut steps: Vec<Step> = Vec::new();
            assert(steps_view(steps@) =~= Seq::empty());
            push_confinement(
                &mut steps,
                role,
                copy_rules(&role.file_paths),
                peer.pid as u32,
                pod_id,
                role_id,
                "Failed to set role policy: ",
                "Enrollment failed: ",
            );
            assert(steps_view(steps@) =~= confinement(
                role@,
                role@.file_paths,
                peer.pid as u32,
                pod_id,
                role_id,
                "Failed to set role policy: "@,
                "Enrollment failed: "@,
            ));
            Session::start(steps, Finish::Success)
        },
    }
}

/// How a process is enrolled that named its role only.
fn handle_enroll_self(role_name: &str, peer: Peer, pm: &PolicyManager) -> (p: Progress)
    requires
        pm.wf(),
    ensures
        p.wf(),
        p@ == enroll_self_session(role_name@, peer, pm@),
{
    if peer.pid <= 0 {
        return Progress::Finished(
            EnrollmentResponse::Error("cannot determine caller PID".to_owned()),
        );
    }
    match pm.get_role_by_name(role_name) {
        None => {
            let mut m = "unknown role: ".to_owned();
            m.append(role_name);
            Progress::Finished(EnrollmentResponse::Error(m))
        },
        Some(role) => {
            let mut dir = CGROUP_BASE.to_owned();
            dir.append("/");
            dir.append(role_name);
            let mut procs = dir.clone();
            procs.append("/cgroup.procs");
            let pid_text = to_signed_decimal(peer.pid);
            let mut content = pid_text.clone();
            content.append("\n");
            let mut on_mkdir = "mkdir ".to_owned();
            on_mkdir.append(dir.as_str());
            on_mkdir.append(": ");
            let mut on_write = "write ".to_owned();
            on_write.append(pid_text.as_str());
            on_write.append(" to ");
            on_write.append(procs.as_str());
            on_write.append(": ");
            let mut cgroup = "/bpfjailer/".to_owned();
            cgroup.append(role_name);

            let mut steps: Vec<Step> = Vec::new();
            let ghost first = vital(
                EffectView::EnsureDirectory { path: role_directory(role_name@) },
                "mkdir "@ + role_directory(role_name@) + ": "@,
            );
            let ghost second = vital(
                EffectView::WriteFile {
                    path: role_processes(role_name@),
                    content: signed_decimal(peer.pid as int) + "\n"@,
                },
                "write "@ + signed_decimal(peer.pid as int) + " to "@ + role_processes(role_name@)
                    + ": "@,
            );
            steps.push(vital_step(Effect::EnsureDirectory { path: dir }, on_mkdir.as_str()));
            steps.push(
                vital_step(Effect::WriteFile { path: procs, content }, on_write.as_str()),
            );
            assert(steps_view(steps@) =~= seq![first, second]);
            push_confinement(
                &mut steps,
                role,
                pm.effective_file_paths(role.id, Some(peer.uid)),
                peer.pid as u32,
                PodId(peer.pid as u64 + 10000),
                role.id,
                "set_role_policy: ",
                "enroll_process: ",
            );
            Session::start(steps, Finish::Enrolled { cgroup })
        },
    }
}

/// The session for the state of the daemon.
fn handle_status(pm: &PolicyManager) -> (p: Progress)
    ensures
        p.wf(),
        forall|peer: Peer| p@ == session_for(RequestView::Status, peer, pm@),
{
    single_step(
        Step { effect: Effect::ReadHooks, on_failure: OnFailure::Continue },
        Finish::Status {
            roles: pm.role_names(),
            cgroup_enrollments: pm.cgroup_enrollment_count(),
            exec_enrollments: pm.exec_enrollment_count(),
            policy_path: pm.policy_path().to_owned(),
        },
    )
}

/// The word for what a rule does.
fn verdict_text(allow: bool) -> (s: String)
    ensures
        s@ == verdict(allow),
{
    if allow {
        "allow".to_owned()
    } else {
        "deny".to_owned()
    }
}

/// Puts path rules with their source behind others.
fn push_paths(out: &mut Vec<AnnotatedRule>, paths: &Vec<PathPattern>, source: &str)
    ensures
        annotated(final(out)@) == annotated(old(out)@) + annotated_paths(rules(paths@), source@),
{
    let ghost before = annotated(out@);
    let ghost all = annotated_paths(rules(paths@), source@);
    let mut i: usize = 0;
    assert(annotated(out@) =~= before + all.take(0));
    while i < paths.len()
        invariant
            all == annotated_paths(rules(paths@), source@),
            0 <= i <= paths@.len(),
            annotated(out@) == before + all.take(i as int),
        decreases paths@.len() - i,
    {
        let ghost held = annotated(out@);
        let mut rule = verdict_text(paths[i].allow);
        rule.append(" ");
        rule.append(paths[i].pattern.as_str());
        out.push(
            AnnotatedRule { rule, source: source.to_owned(), lockdown: paths[i].lockdown },
        );
        assert(all[i as int] == annotated_path(paths@[i as int]@, source@));
        assert(annotated(out@) =~= held.push(all[i as int]));
        assert(before + all.take(i + 1) =~= (before + all.take(i as int)).push(all[i as int]));
        i = i + 1;
    }
    assert(all.take(i as int) =~= all);
}

/// The address rules of a role with their source.
fn annotate_ip_rules(list: &Vec<IpRule>) -> (out: Vec<AnnotatedRule>)
    ensures
        annotated(out@) == crate::common::ip_rules(list@).map_values(
            |r: IpRuleView| annotated_ip(r),
        ),
{
    let ghost all = crate::common::ip_rules(list@).map_values(|r: IpRuleView| annotated_ip(r));
    let mut out: Vec<AnnotatedRule> = Vec::new();
    let mut i: usize = 0;
    assert(annotated(out@) =~= all.take(0));
    while i < list.len()
        invariant
            all == crate::common::ip_rules(list@).map_values(|r: IpRuleView| annotated_ip(r)),
            0 <= i <= list@.len(),
            annotated(out@) == all.take(i as int),
        decreases list@.len() - i,
    {
        let ghost held = annotated(out@);
        let mut rule = verdict_text(list[i].allow);
        rule.append(" ");
        rule.append(list[i].direction.as_str());
        rule.append(" ");
        rule.append(list[i].cidr.as_str());
        out.push(AnnotatedRule { rule, source: "base".to_owned(), lockdown: false });
        assert(all[i as int] == annotated_ip(list@[i as int]@));
        assert(annotated(out@) =~= held.push(all[i as int]));
        assert(all.take(i + 1) =~= all.take(i as int).push(all[i as int]));
        i = i + 1;
    }
    assert(all.take(i as int) =~= all);
    out
}

/// The domain rules of a role with their source.
fn annotate_domain_rules(list: &Vec<String>) -> (out: Vec<AnnotatedRule>)
    ensures
        annotated(out@) == texts(list@).map_values(|r: Seq<char>| annotated_domain(r)),
{
    let ghost all = texts(list@).map_values(|r: Seq<char>| annotated_domain(r));
    let mut out: Vec<AnnotatedRule> = Vec::new();
    let mut i: usize = 0;
    assert(annotated(out@) =~= all.take(0));
    while i < list.len()
        invariant
            all == texts(list@).map_values(|r: Seq<char>| annotated_domain(r)),
            0 <= i <= list@.len(),
            annotated(out@) == all.take(i as int),
        decreases list@.len() - i,
    {
        let ghost held = annotated(out@);
        out.push(
            AnnotatedRule { rule: list[i].clone(), source: "base".to_owned(), lockdown: false },
        );
        assert(all[i as int] == annotated_domain(list@[i as int]@));
        assert(annotated(out@) =~= held.push(all[i as int]));
        assert(all.take(i + 1) =~= all.take(i as int).push(all[i as int]));
        i = i + 1;
    }
    assert(all.take(i as int) =~= all);
    out
}

/// The flags of a role by name.
fn name_flags(f: &PolicyFlags) -> (out: Vec<(String, bool)>)
    ensures
        out@.map_values(|x: (String, bool)| (x.0@, x.1)) == named_flags(*f),
{
    let mut out: Vec<(String, bool)> = Vec::new();
    out.push(("allow_file_access".to_owned(), f.allow_file_access));
    out.push(("allow_network".to_owned(), f.allow_network));
    out.push(("allow_exec".to_owned(), f.allow_exec));
    out.push(("require_signed_binary".to_owned(), f.require_signed_binary));
    out.push(("allow_setuid".to_owned(), f.allow_setuid));
    out.push(("allow_ptrace".to_owned(), f.allow_ptrace));
    out.push(("allow_module_load".to_owned(), f.allow_module_load));
    out.push(("allow_bpf_load".to_owned(), f.allow_bpf_load));
    out.push(("require_proxy".to_owned(), f.require_proxy));
    assert(out@.map_values(|x: (String, bool)| (x.0@, x.1)) =~= named_flags(*f));
    out
}

/// A role as it is in force for a user.
fn make_effective_role(name: &String, role: &Role, user: Option<&Vec<PathPattern>>) -> (r:
    EffectiveRole)
    ensures
        r@ == effective_role(
            name@,
            role@,
            match user {
                Some(exts) => rules(exts@),
                None => Seq::empty(),
            },
        ),
{
    let mut file_paths: Vec<AnnotatedRule> = Vec::new();
    assert(annotated(file_paths@) =~= Seq::empty());
    push_paths(&mut file_paths, &role.file_paths, "base");
    if let Some(exts) = user {
        push_paths(&mut file_paths, exts, "user");
    }
    let ghost exts = match user {
        Some(exts) => rules(exts@),
        None => Seq::empty(),
    };
    assert(annotated(file_paths@) =~= annotated_paths(role@.file_paths, "base"@)
        + annotated_paths(exts, "user"@));
    EffectiveRole {
        name: name.clone(),
        id: role.id.0,
        flags: name_flags(&role.flags),
        file_paths,
        ip_rules: annotate_ip_rules(&role.ip_rules),
        domain_rules: annotate_domain_rules(&role.domain_rules),
        proxy: match &role.proxy {
            Some(p) => Some(p.clone()),
            None => None,
        },
    }
}

/// The answer with the policy in force for a user.
fn handle_effective_policy(uid: u32, pm: &PolicyManager) -> (r: EnrollmentResponse)
    requires
        pm.wf(),
    ensures
        r@ == (ResponseView::EffectivePolicyInfo { roles: effective_roles(pm@, uid) }),
{
    let ghost all = effective_roles(pm@, uid);
    let config = pm.config();
    let user = pm.get_user_extensions(uid);
    let mut roles: Vec<EffectiveRole> = Vec::new();
    let mut i: usize = 0;
    assert(roles@.map_values(|r: EffectiveRole| r@) =~= all.take(0));
    while i < config.roles.len()
        invariant
            pm.wf(),
            all == effective_roles(pm@, uid),
            config@ == pm@.config,
            user is Some == pm@.extensions.contains_key(uid),
            user matches Some(exts) ==> rules(exts@) == pm@.extensions[uid],
            0 <= i <= all.len(),
            roles@.map_values(|r: EffectiveRole| r@) == all.take(i as int),
        decreases all.len() - i,
    {
        let ghost held = roles@.map_values(|r: EffectiveRole| r@);
        proof {
            lemma_by_number(pm@.config.roles);
            assert(pm@.config.roles[i as int] == config@.roles[i as int]);
        }
        if let Some(in_force) = pm.get_role(config.roles.role(i).id) {
            let role = make_effective_role(config.roles.name(i), in_force, user);
            assert(role@ == all[i as int]);
            roles.push(role);
        }
        assert(roles@.map_values(|r: EffectiveRole| r@) =~= held.push(all[i as int]));
        assert(all.take(i + 1) =~= all.take(i as int).push(all[i as int]));
        i = i + 1;
    }
    assert(all.take(i as int) =~= all);
    EnrollmentResponse::EffectivePolicyInfo { roles }
}

/// Begins to serve a request of the process at the other end of a connection.
pub fn handle_client(request: EnrollmentRequest, peer: Peer, pm: &PolicyManager) -> (p: Progress)
    requires
        pm.wf(),
    ensures
        p.wf(),
        p@ == session_for(request@, peer, pm@),
{
    match request {
        EnrollmentRequest::EnrollSelf { role } => handle_enroll_self(role.as_str(), peer, pm),
        EnrollmentRequest::Reload => single_step(
            Step { effect: Effect::RaiseHangup, on_failure: OnFailure::Continue },
            Finish::Success,
        ),
        EnrollmentRequest::Status => handle_status(pm),
        EnrollmentRequest::Enroll { pod_id, role_id } => handle_enroll(
            pod_id,
            role_id,
            peer,
            pm,
        ),
        EnrollmentRequest::Query { pid } => single_step(
            vital_step(Effect::QueryProcess { pid }, "Query failed: "),
            Finish::Process,
        ),
        EnrollmentRequest::EnrollExecutable { executable_path, pod_id, role_id } => single_step(
            vital_step(
                Effect::EnrollExecutable { path: executable_path, pod_id, role_id },
                "Failed to enroll executable: ",
            ),
            Finish::Success,
        ),
        EnrollmentRequest::RemoveExecutable { executable_path } => single_step(
            vital_step(
                Effect::RemoveExecutable { path: executable_path },
                "Failed to remove executable enrollment: ",
            ),
            Finish::Success,
        ),
        EnrollmentRequest::EnrollCgroup { cgroup_path, pod_id, role_id } => single_step(
            vital_step(
                Effect::EnrollCgroup { path: cgroup_path, pod_id, role_id },
                "Failed to enroll cgroup: ",
            ),
            Finish::Success,
        ),
        EnrollmentRequest::RemoveCgroup { cgroup_path } => single_step(
            vital_step(
                Effect::RemoveCgroup { path: cgroup_path },
                "Failed to remove cgroup enrollment: ",
            ),
            Finish::Success,
        ),
        EnrollmentRequest::SetXattr { executable_path, pod_id, role_id } => single_step(
            vital_step(
                Effect::SetXattr { path: executable_path, pod_id, role_id },
                "Failed to set xattr enrollment: ",
            ),
            Finish::Success,
        ),
        EnrollmentRequest::CheckXattr { executable_path } => single_step(
            vital_step(
                Effect::CheckXattr { path: executable_path },
                "Failed to check xattr enrollment: ",
            ),
            Finish::Xattr,
        ),
        EnrollmentRequest::RemoveXattr { executable_path } => single_step(
            vital_step(
                Effect::RemoveXattr { path: executable_path },
                "Failed to remove xattr enrollment: ",
            ),
            Finish::Success,
        ),
        EnrollmentRequest::EffectivePolicy => Progress::Finished(
            handle_effective_policy(peer.uid, pm),
        ),
    }
}

/// A line of the group database that speaks of the group `name`.
pub open spec fn names_group(line: Seq<char>, name: Seq<char>) -> bool {
    split_on(line, ':').len() >= 3 && split_on(line, ':')[0] == name
}

/// The number of the group `name`: what the first line that speaks of it says.
pub open spec fn group_number(lines: Seq<Seq<char>>, name: Seq<char>) -> Option<u32>
    decreases lines.len(),
{
    if lines.len() == 0 {
        None
    } else if names_group(lines[0], name) {
        u32_of(split_on(lines[0], ':')[2])
    } else {
        group_number(lines.drop_first(), name)
    }
}

/// The number of a group in the group database.
pub fn lookup_group_gid(content: &str, name: &str) -> (gid: Option<u32>)
    ensures
        gid == group_number(lines_of(content@), name@),
{
    let all = lines(content);
    let ghost every = lines_of(content@);
    assert(every.skip(0) =~= every);
    let mut i: usize = 0;
    while i < all.len()
        invariant
            every == lines_of(content@),
            texts(all@) == every,
            0 <= i <= all@.len(),
            group_number(every, name@) == group_number(every.skip(i as int), name@),
        decreases all@.len() - i,
    {
        let fields = split(all[i].as_str(), ':');
        proof {
            let rest = every.skip(i as int);
            assert(rest[0] == all@[i as int]@);
            assert(rest.drop_first() =~= every.skip(i + 1));
            assert(texts(fields@).len() >= 3 ==> texts(fields@)[0] == fields@[0]@);
        }
        if fields.len() >= 3 && same(fields[0].as_str(), name) {
            assert(texts(fields@)[2] == fields@[2]@);
            return parse_u32(fields[2].as_str());
        }
        i = i + 1;
    }
    None
}

/// Who may use the socket: its group alone where the group exists and owns it
/// now, and everybody otherwise.
pub open spec fn socket_mode(group: Option<u32>, owned_by_group: bool) -> u32 {
    if group is Some && owned_by_group {
        0o660
    } else {
        0o666
    }
}

/// The permissions of the socket.
pub fn socket_permissions(group: Option<u32>, owned_by_group: bool) -> (mode: u32)
    ensures
        mode == socket_mode(group, owned_by_group),
{
    if group.is_some() && owned_by_group {
        0o660
    } else {
        0o666
    }
}

/// Where a session stands after some outcomes.
pub open spec fn served(p: ProgressView, outcomes: Seq<Outcome>) -> ProgressView
    decreases outcomes.len(),
{
    match p {
        ProgressView::Finished(_) => p,
        ProgressView::Waiting(s) => if outcomes.len() == 0 {
            p
        } else {
            served(resumed(s, outcomes[0]), outcomes.drop_first())
        },
    }
}

/// The outcome ends a session at this step.
pub open spec fn fatal(step: StepView, outcome: Outcome) -> bool {
    step.on_failure is Abort && outcome is Failed
}

/// Every request is answered or has a step to perform, and a session is answered
/// after as many outcomes as it has steps at the latest.
pub proof fn law_every_request_is_answered(
    request: RequestView,
    peer: Peer,
    pm: PolicyState,
    outcomes: Seq<Outcome>,
)
    ensures
        session_for(request, peer, pm) matches ProgressView::Waiting(s) ==> {
            &&& s.steps.len() > 0
            &&& outcomes.len() >= s.steps.len() ==> served(
                ProgressView::Waiting(s),
                outcomes,
            ) is Finished
        },
{
    if let ProgressView::Waiting(s) = session_for(request, peer, pm) {
        if outcomes.len() >= s.steps.len() {
            lemma_session_ends(s, outcomes);
        }
    }
}

proof fn lemma_session_ends(s: SessionView, outcomes: Seq<Outcome>)
    requires
        0 < s.steps.len() <= outcomes.len(),
    ensures
        served(ProgressView::Waiting(s), outcomes) is Finished,
    decreases s.steps.len(),
{
    let next = resumed(s, outcomes[0]);
    match next {
        ProgressView::Waiting(rest) => {
            lemma_session_ends(rest, outcomes.drop_first());
        },
        ProgressView::Finished(_) => {
            assert(served(next, outcomes.drop_first()) == next);
        },
    }
}

/// The first step whose failure ends the session decides the answer: an error
/// that begins with the text of the step and ends with the reason.
pub proof fn law_first_fatal_failure_is_reported(s: SessionView, outcomes: Seq<Outcome>, k: int)
    requires
        0 <= k < s.steps.len(),
        k < outcomes.len(),
        fatal(s.steps[k], outcomes[k]),
        forall|i: int| 0 <= i < k ==> !fatal(s.steps[i], #[trigger] outcomes[i]),
    ensures
        served(ProgressView::Waiting(s), outcomes) == ProgressView::Finished(
            ResponseView::Error(s.steps[k].on_failure->Abort_0 + outcomes[k]->Failed_0@),
        ),
    decreases k,
{
    let rest = outcomes.drop_first();
    let next = resumed(s, outcomes[0]);
    if k > 0 {
        assert(!fatal(s.steps[0], outcomes[0]));
        let later = SessionView { steps: s.steps.drop_first(), finish: s.finish };
        assert(next == ProgressView::Waiting(later));
        assert(later.steps[k - 1] == s.steps[k] && rest[k - 1] == outcomes[k]);
        assert forall|i: int| 0 <= i < k - 1 implies !fatal(later.steps[i], #[trigger] rest[i]) by {
            assert(rest[i] == outcomes[i + 1] && later.steps[i] == s.steps[i + 1]);
        }
        law_first_fatal_failure_is_reported(later, rest, k - 1);
    } else {
        assert(served(next, rest) == next);
    }
}

/// Where no failure ends the session, the outcome of its last step decides the
/// answer: whatever else failed is passed over.
pub proof fn law_answer_follows_the_last_step(s: SessionView, outcomes: Seq<Outcome>)
    requires
        0 < s.steps.len() <= outcomes.len(),
        forall|i: int| 0 <= i < s.steps.len() ==> !fatal(s.steps[i], #[trigger] outcomes[i]),
    ensures
        served(ProgressView::Waiting(s), outcomes) == ProgressView::Finished(
            answer(s.finish, outcomes[s.steps.len() - 1]),
        ),
    decreases s.steps.len(),
{
    let rest = outcomes.drop_first();
    let next = resumed(s, outcomes[0]);
    assert(!fatal(s.steps[0], outcomes[0]));
    if s.steps.len() > 1 {
        let later = SessionView { steps: s.steps.drop_first(), finish: s.finish };
        assert(next == ProgressView::Waiting(later));
        assert forall|i: int| 0 <= i < later.steps.len() implies !fatal(
            later.steps[i],
            #[trigger] rest[i],
        ) by {
            assert(rest[i] == outcomes[i + 1] && later.steps[i] == s.steps[i + 1]);
        }
        law_answer_follows_the_last_step(later, rest);
        assert(rest[later.steps.len() - 1] == outcomes[s.steps.len() - 1]);
    } else {
        assert(served(next, rest) == next);
    }
}

/// Nobody enrolls another process: the process that a request enrolls, and the
/// process that it writes into a control group, is the one at the other end of
/// the connection.
pub proof fn law_only_the_caller_is_enrolled(
    request: RequestView,
    peer: Peer,
    pm: PolicyState,
    i: int,
)
    requires
        session_for(request, peer, pm) is Waiting,
        0 <= i < session_for(request, peer, pm)->Waiting_0.steps.len(),
    ensures
        ({
            let effect = session_for(request, peer, pm)->Waiting_0.steps[i].effect;
            &&& effect matches EffectView::EnrollProcess { pid, .. } ==> pid == peer.pid as u32
            &&& effect matches EffectView::WriteFile { content, .. } ==> content
                == signed_decimal(peer.pid as int) + "\n"@
        }),
{
}

/// No process is enrolled without its policy: before the step that enrolls a
/// process under a role stands one that puts the flags of that role in force,
/// whose failure ends the session.
pub proof fn law_policy_before_enrollment(
    request: RequestView,
    peer: Peer,
    pm: PolicyState,
    i: int,
) -> (k: int)
    requires
        session_for(request, peer, pm) is Waiting,
        0 <= i < session_for(request, peer, pm)->Waiting_0.steps.len(),
        session_for(request, peer, pm)->Waiting_0.steps[i].effect is EnrollProcess,
    ensures
        0 <= k < i,
        ({
            let steps = session_for(request, peer, pm)->Waiting_0.steps;
            let role_id = steps[i].effect->EnrollProcess_role_id;
            &&& pm.role(role_id) is Some
            &&& steps[k].effect == (EffectView::SetRolePolicy {
                role_id,
                flags: pm.role(role_id)->Some_0.flags,
            })
            &&& steps[k].on_failure is Abort
        }),
{
    lemma_by_number(pm.config.roles);
    match request {
        RequestView::EnrollSelf { role } => {
            lemma_role_by_name(pm, role);
            2
        },
        _ => 0,
    }
}

/// A role that is found by its name is found by its number too.
proof fn lemma_role_by_name(pm: PolicyState, name: Seq<char>)
    requires
        pm.role_by_name(name) is Some,
    ensures
        pm.role(pm.role_by_name(name)->Some_0.id) == pm.role_by_name(name),
{
    lemma_by_number(pm.config.roles);
}

/// A request for a role that the policy does not have, or from a process that is
/// not known, is answered with an error and changes nothing.
pub proof fn law_unknown_is_refused(
    role_name: Seq<char>,
    pod_id: PodId,
    role_id: RoleId,
    peer: Peer,
    pm: PolicyState,
)
    ensures
        pm.role(role_id) is None ==> session_for(
            RequestView::Enroll { pod_id, role_id },
            peer,
            pm,
        ) == ProgressView::Finished(
            ResponseView::Error("Unknown role ID: "@ + decimal(role_id.0 as nat)),
        ),
        peer.pid <= 0 ==> session_for(RequestView::EnrollSelf { role: role_name }, peer, pm)
            == ProgressView::Finished(ResponseView::Error("cannot determine caller PID"@)),
        peer.pid > 0 && pm.role_by_name(role_name) is None ==> session_for(
            RequestView::EnrollSelf { role: role_name },
            peer,
            pm,
        ) == ProgressView::Finished(ResponseView::Error("unknown role: "@ + role_name)),
{
}

/// The effect only reads.
pub open spec fn only_reads(effect: EffectView) -> bool {
    effect is QueryProcess || effect is CheckXattr || effect is ReadHooks
}

/// Questions change nothing.
pub proof fn law_questions_change_nothing(
    request: RequestView,
    peer: Peer,
    pm: PolicyState,
    i: int,
)
    requires
        request is Query || request is CheckXattr || request is Status || request
            is EffectivePolicy,
        session_for(request, peer, pm) is Waiting,
        0 <= i < session_for(request, peer, pm)->Waiting_0.steps.len(),
    ensures
        only_reads(session_for(request, peer, pm)->Waiting_0.steps[i].effect),
{
}

/// A process that enrolls itself gets the rules of its role and of its user, and
/// is told the control group that it was written into.
pub proof fn law_self_enrollment(
    role_name: Seq<char>,
    peer: Peer,
    pm: PolicyState,
    outcomes: Seq<Outcome>,
)
    requires
        peer.pid > 0,
        pm.role_by_name(role_name) is Some,
        outcomes.len() >= 6,
        forall|i: int| 0 <= i < 6 ==> !((#[trigger] outcomes[i]) is Failed),
    ensures
        ({
            let p = session_for(RequestView::EnrollSelf { role: role_name }, peer, pm);
            let role = pm.role_by_name(role_name)->Some_0;
            &&& p matches ProgressView::Waiting(s)
            &&& s.steps.len() == 6
            &&& s.steps[1].effect == (EffectView::WriteFile {
                path: role_processes(role_name),
                content: signed_decimal(peer.pid as int) + "\n"@,
            })
            &&& s.steps[4].effect == (EffectView::ApplyPathRules {
                role_id: role.id,
                paths: role.file_paths + pm.user_rules(Some(peer.uid)),
            })
            &&& served(p, outcomes) == ProgressView::Finished(
                ResponseView::Enrolled { cgroup: "/bpfjailer/"@ + role_name },
            )
        }),
{
    lemma_role_by_name(pm, role_name);
    let s = session_for(
        RequestView::EnrollSelf { role: role_name },
        peer,
        pm,
    )->Waiting_0;
    law_answer_follows_the_last_step(s, outcomes);
}

/// What a client is shown under the name of a role is what a process of its user
/// gets that enrolls under that name: the path rules of the role come first and
/// are said to be of the global policy, those of the user come behind them, and
/// each is shown as it is.
pub proof fn law_shown_is_enforced(pm: PolicyState, uid: u32, i: int)
    requires
        distinct_names(pm.config.roles),
        0 <= i < pm.config.roles.len(),
    ensures
        pm.role_by_name(pm.config.roles[i].0) is Some,
        ({
            let role = pm.role_by_name(pm.config.roles[i].0)->Some_0;
            let shown = effective_roles(pm, uid)[i].file_paths;
            let enforced = pm.effective_paths(role.id, Some(uid));
            &&& shown.len() == enforced.len()
            &&& forall|k: int|
                0 <= k < shown.len() ==> (#[trigger] shown[k]) == annotated_path(
                    enforced[k],
                    if k < role.file_paths.len() {
                        "base"@
                    } else {
                        "user"@
                    },
                )
        }),
{
    law_role_is_found(pm, i);
    lemma_role_by_name(pm, pm.config.roles[i].0);
    lemma_place_of(pm.config.roles, pm.config.roles[i].0);
    lemma_by_number(pm.config.roles);
    let k = place_of(pm.config.roles, pm.config.roles[i].0)->Some_0;
    assert(k == i) by {
        if k < i {
            assert(pm.config.roles[k].0 != pm.config.roles[i].0);
        }
        if i < k {
            assert(pm.config.roles[i].0 != pm.config.roles[k].0);
        }
    }
}

/// What an effect and a step show is all that they do.
pub proof fn law_step_shows_all(step: Step)
    ensures
        step@.effect == step.effect@,
        step.on_failure is Continue <==> step@.on_failure is Continue,
        step.on_failure matches OnFailure::Abort(text) ==> step@.on_failure
            == OnFailureView::Abort(text@),
        match step.effect {
            Effect::SetRolePolicy { role_id, flags } => step@.effect == (
            EffectView::SetRolePolicy { role_id, flags }),
            Effect::ApplyNetworkRules { role_id, rules } => step@.effect == (
            EffectView::ApplyNetworkRules {
                role_id,
                rules: rules@.map_values(|s: String| s@),
            }),
            Effect::ApplyPathRules { role_id, paths } => step@.effect == (
            EffectView::ApplyPathRules {
                role_id,
                paths: paths@.map_values(|p: PathPattern| p@),
            }),
            Effect::EnrollProcess { pid, pod_id, role_id } => step@.effect == (
            EffectView::EnrollProcess { pid, pod_id, role_id }),
            Effect::QueryProcess { pid } => step@.effect == (EffectView::QueryProcess { pid }),
            Effect::EnrollExecutable { path, pod_id, role_id } => step@.effect == (
            EffectView::EnrollExecutable { path: path@, pod_id, role_id }),
            Effect::RemoveExecutable { path } => step@.effect == (
            EffectView::RemoveExecutable { path: path@ }),
            Effect::EnrollCgroup { path, pod_id, role_id } => step@.effect == (
            EffectView::EnrollCgroup { path: path@, pod_id, role_id }),
            Effect::RemoveCgroup { path } => step@.effect == (EffectView::RemoveCgroup {
                path: path@,
            }),
            Effect::SetXattr { path, pod_id, role_id } => step@.effect == (EffectView::SetXattr {
                path: path@,
                pod_id,
                role_id,
            }),
            Effect::CheckXattr { path } => step@.effect == (EffectView::CheckXattr { path: path@ }),
            Effect::RemoveXattr { path } => step@.effect == (EffectView::RemoveXattr {
                path: path@,
            }),
            Effect::EnsureDirectory { path } => step@.effect == (EffectView::EnsureDirectory {
                path: path@,
            }),
            Effect::WriteFile { path, content } => step@.effect == (EffectView::WriteFile {
                path: path@,
                content: content@,
            }),
            Effect::RaiseHangup => step@.effect is RaiseHangup,
            Effect::ReadHooks => step@.effect is ReadHooks,
        },
{
    if let Effect::ApplyNetworkRules { role_id, rules } = step.effect {
        assert(texts(rules@) =~= rules@.map_values(|s: String| s@));
    }
    if let Effect::ApplyPathRules { role_id, paths } = step.effect {
        assert(rules(paths@) =~= paths@.map_values(|p: PathPattern| p@));
    }
}

/// No process is enrolled without the rules of its role: wherever a session enrolls
/// a process, it puts the flags, the network rules and the path rules of the role in
/// force before, each for the number of the role and just as the policy holds them.
/// A process that enrolls itself gets the path rules of its user too.
pub proof fn law_rules_before_enrollment(
    request: EnrollmentRequest,
    peer: Peer,
    pm: &PolicyManager,
    p: Progress,
    i: int,
) -> (k: int)
    requires
        call_ensures(handle_client, (request, peer, pm), p),
        p@ is Waiting,
        0 <= i < p@->Waiting_0.steps.len(),
        p@->Waiting_0.steps[i].effect is EnrollProcess,
    ensures
        0 <= k,
        k + 3 == i,
        ({
            let steps = p@->Waiting_0.steps;
            let role_id = steps[i].effect->EnrollProcess_role_id;
            let role = pm@.role(role_id)->Some_0;
            &&& pm@.role(role_id) is Some
            &&& i == steps.len() - 1
            &&& steps[i].on_failure is Abort
            &&& steps[k].effect == (EffectView::SetRolePolicy { role_id, flags: role.flags })
            &&& steps[k].on_failure is Abort
            &&& steps[k + 1].effect == (EffectView::ApplyNetworkRules {
                role_id,
                rules: role.network_rules,
            })
            &&& steps[k + 1].on_failure is Continue
            &&& steps[k + 2].effect is ApplyPathRules
            &&& steps[k + 2].effect->ApplyPathRules_role_id == role_id
            &&& steps[k + 2].effect->ApplyPathRules_paths == role.file_paths + (if request
                is EnrollSelf && pm@.extensions.contains_key(peer.uid) {
                pm@.extensions[peer.uid]
            } else {
                Seq::empty()
            })
            &&& steps[k + 2].on_failure is Continue
            &&& steps[i].effect->EnrollProcess_pid == peer.pid as u32
        }),
{
    lemma_by_number(pm@.config.roles);
    if let EnrollmentRequest::EnrollSelf { role } = request {
        lemma_role_by_name(pm@, role@);
    }
    let steps = p@->Waiting_0.steps;
    let paths = steps[i - 1].effect->ApplyPathRules_paths;
    let role = pm@.role(steps[i].effect->EnrollProcess_role_id)->Some_0;
    assert(paths =~= role.file_paths + (if request is EnrollSelf && pm@.extensions.contains_key(
        peer.uid,
    ) {
        pm@.extensions[peer.uid]
    } else {
        Seq::empty()
    }));
    i - 3
}

/// A process that names its pod and its role by number is enrolled under exactly
/// these, and is told so; a number that no role has is refused.
pub proof fn law_enroll_by_number(
    pod_id: PodId,
    role_id: RoleId,
    peer: Peer,
    pm: &PolicyManager,
    p: Progress,
)
    requires
        call_ensures(handle_client, (EnrollmentRequest::Enroll { pod_id, role_id }, peer, pm), p),
    ensures
        pm@.role(role_id) is None <==> p@ is Finished,
        p@ is Finished ==> p@->Finished_0 == ResponseView::Error(
            "Unknown role ID: "@ + decimal(role_id.0 as nat),
        ),
        p@ matches ProgressView::Waiting(s) ==> {
            &&& s.steps.len() == 4
            &&& s.steps[3].effect == (EffectView::EnrollProcess {
                pid: peer.pid as u32,
                pod_id,
                role_id,
            })
            &&& s.steps[0].on_failure == OnFailureView::Abort("Failed to set role policy: "@)
            &&& s.steps[3].on_failure == OnFailureView::Abort("Enrollment failed: "@)
            &&& s.finish is Success
        },
{
}

/// A process that enrolls itself is first written into the control group of the role
/// that it names, and is enrolled under the number of that role, in the pod with its
/// own number and ten thousand. It is told the control group. A process that is not
/// known and a role that does not exist are refused.
pub proof fn law_enroll_by_name(role: String, peer: Peer, pm: &PolicyManager, p: Progress)
    requires
        call_ensures(handle_client, (EnrollmentRequest::EnrollSelf { role }, peer, pm), p),
    ensures
        peer.pid <= 0 ==> p@ == ProgressView::Finished(
            ResponseView::Error("cannot determine caller PID"@),
        ),
        peer.pid > 0 && pm@.role_by_name(role@) is None ==> p@ == ProgressView::Finished(
            ResponseView::Error("unknown role: "@ + role@),
        ),
        peer.pid > 0 && pm@.role_by_name(role@) is Some ==> {
            let steps = p@->Waiting_0.steps;
            let found = pm@.role_by_name(role@)->Some_0;
            let dir = "/sys/fs/cgroup/bpfjailer"@ + "/"@ + role@;
            let number = decimal(peer.pid as nat);
            &&& p@ is Waiting
            &&& steps.len() == 6
            &&& steps[0].effect == (EffectView::EnsureDirectory { path: dir })
            &&& steps[0].on_failure == OnFailureView::Abort("mkdir "@ + dir + ": "@)
            &&& steps[1].effect == (EffectView::WriteFile {
                path: dir + "/cgroup.procs"@,
                content: number + "\n"@,
            })
            &&& steps[1].on_failure == OnFailureView::Abort(
                "write "@ + number + " to "@ + (dir + "/cgroup.procs"@) + ": "@,
            )
            &&& steps[2].on_failure == OnFailureView::Abort("set_role_policy: "@)
            &&& steps[5].effect == (EffectView::EnrollProcess {
                pid: peer.pid as u32,
                pod_id: PodId((peer.pid + 10000) as u64),
                role_id: found.id,
            })
            &&& steps[5].on_failure == OnFailureView::Abort("enroll_process: "@)
            &&& p@->Waiting_0.finish == (FinishView::Enrolled { cgroup: "/bpfjailer/"@ + role@ })
        },
{
}

/// A request about an executable, a control group or a process is served by a single
/// step, which does just what was asked to just what was named, and whose failure is
/// reported.
#[verifier::rlimit(40)]
pub proof fn law_served_as_asked(
    request: EnrollmentRequest,
    peer: Peer,
    pm: &PolicyManager,
    p: Progress,
)
    requires
        call_ensures(handle_client, (request, peer, pm), p),
        !(request is Enroll),
        !(request is EnrollSelf),
        !(request is EffectivePolicy),
    ensures
        p@ is Waiting,
        p@->Waiting_0.steps.len() == 1,
        ({
            let effect = p@->Waiting_0.steps[0].effect;
            let on_failure = p@->Waiting_0.steps[0].on_failure;
            let finish = p@->Waiting_0.finish;
            match request {
                EnrollmentRequest::Query { pid } => effect == (EffectView::QueryProcess { pid })
                    && on_failure == OnFailureView::Abort("Query failed: "@) && finish is Process,
                EnrollmentRequest::EnrollExecutable { executable_path, pod_id, role_id } => effect
                    == (EffectView::EnrollExecutable { path: executable_path@, pod_id, role_id })
                    && on_failure == OnFailureView::Abort("Failed to enroll executable: "@)
                    && finish is Success,
                EnrollmentRequest::RemoveExecutable { executable_path } => effect == (
                EffectView::RemoveExecutable { path: executable_path@ }) && on_failure
                    == OnFailureView::Abort("Failed to remove executable enrollment: "@)
                    && finish is Success,
                EnrollmentRequest::EnrollCgroup { cgroup_path, pod_id, role_id } => effect == (
                EffectView::EnrollCgroup { path: cgroup_path@, pod_id, role_id }) && on_failure
                    == OnFailureView::Abort("Failed to enroll cgroup: "@) && finish is Success,
                EnrollmentRequest::RemoveCgroup { cgroup_path } => effect == (
                EffectView::RemoveCgroup { path: cgroup_path@ }) && on_failure
                    == OnFailureView::Abort("Failed to remove cgroup enrollment: "@)
                    && finish is Success,
                EnrollmentRequest::SetXattr { executable_path, pod_id, role_id } => effect == (
                EffectView::SetXattr { path: executable_path@, pod_id, role_id }) && on_failure
                    == OnFailureView::Abort("Failed to set xattr enrollment: "@) && finish
                    is Success,
                EnrollmentRequest::CheckXattr { executable_path } => effect == (
                EffectView::CheckXattr { path: executable_path@ }) && on_failure
                    == OnFailureView::Abort("Failed to check xattr enrollment: "@) && finish
                    is Xattr,
                EnrollmentRequest::RemoveXattr { executable_path } => effect == (
                EffectView::RemoveXattr { path: executable_path@ }) && on_failure
                    == OnFailureView::Abort("Failed to remove xattr enrollment: "@) && finish
                    is Success,
                EnrollmentRequest::Reload => effect is RaiseHangup && on_failure is Continue
                    && finish is Success,
                EnrollmentRequest::Status => effect is ReadHooks && on_failure is Continue
                    && finish is Status && {
                    &&& finish->roles.len() == pm@.config.roles.len()
                    &&& forall|i: int|
                        0 <= i < finish->roles.len() ==> #[trigger] finish->roles[i]
                            == pm@.config.roles[i].0
                    &&& finish->cgroup_enrollments == pm@.config.cgroup_enrollments.len()
                    &&& finish->exec_enrollments == pm@.config.exec_enrollments.len()
                    &&& finish->policy_path == pm@.loaded_path
                },
                _ => true,
            }
        }),
{
}

/// A session goes on to its next step, in order, unless a failure ends it, and is
/// answered after its last one: with an error where a vital step failed, with what
/// was found where something was asked for, and with a success otherwise.
pub proof fn law_session_goes_on(s: Session, outcome: Outcome, p: Progress)
    requires
        s@.steps.len() > 0,
        call_ensures(Session::resume, (s, outcome), p),
    ensures
        ({
            let vital = s@.steps[0].on_failure matches OnFailureView::Abort(_) && outcome is Failed;
            &&& vital ==> p@ == ProgressView::Finished(
                ResponseView::Error(s@.steps[0].on_failure->Abort_0 + outcome->Failed_0@),
            )
            &&& !vital && s@.steps.len() > 1 ==> {
                &&& p@ is Waiting
                &&& p@->Waiting_0.finish == s@.finish
                &&& p@->Waiting_0.steps.len() == s@.steps.len() - 1
                &&& forall|i: int|
                    0 <= i < p@->Waiting_0.steps.len() ==> #[trigger] p@->Waiting_0.steps[i]
                        == s@.steps[i + 1]
            }
            &&& !vital && s@.steps.len() == 1 ==> {
                &&& p@ is Finished
                &&& s@.finish is Success ==> p@->Finished_0 is Success
                &&& s@.finish matches FinishView::Enrolled { cgroup } ==> p@->Finished_0 == (
                ResponseView::Enrolled { cgroup })
                &&& s@.finish is Process ==> p@->Finished_0 == match outcome {
                    Outcome::Enrollment(Some((pod_id, role_id))) => ResponseView::ProcessInfo {
                        pod_id,
                        role_id,
                    },
                    _ => ResponseView::Error("Process not found or not enrolled"@),
                }
                &&& s@.finish is Xattr ==> p@->Finished_0 == match outcome {
                    Outcome::Enrollment(Some((pod_id, role_id))) => ResponseView::XattrInfo {
                        pod_id,
                        role_id,
                    },
                    _ => ResponseView::Error("No xattr enrollment found"@),
                }
                &&& s@.finish matches FinishView::Status {
                    roles,
                    cgroup_enrollments,
                    exec_enrollments,
                    policy_path,
                } ==> p@->Finished_0 == (ResponseView::StatusInfo {
                    attached: outcome is Hooks && outcome->attached,
                    lsm_hooks: if outcome is Hooks {
                        outcome->lsm_hooks
                    } else {
                        0
                    },
                    roles,
                    cgroup_enrollments,
                    exec_enrollments,
                    policy_path,
                })
            }
        }),
{
}

/// What is to be done now is the first step that is left.
pub proof fn law_effect_is_the_first_step(s: &Session, e: &Effect)
    requires
        call_ensures(Session::effect, (s,), e),
    ensures
        e@ == s@.steps[0].effect,
{
}

/// A client is shown every role of the policy, in order, under its name: the number,
/// all nine flags, each path rule of the role and behind them each of the user's,
/// each address rule, each domain rule, and the proxy. Every rule says whether it
/// allows or denies, and whom it comes from; only a path rule can be locked, and is
/// shown to be where it is.
#[verifier::rlimit(40)]
pub proof fn law_everything_is_shown(
    peer: Peer,
    pm: &PolicyManager,
    p: Progress,
    i: int,
    k: int,
)
    requires
        call_ensures(handle_client, (EnrollmentRequest::EffectivePolicy, peer, pm), p),
        0 <= i < pm@.config.roles.len(),
    ensures
        p@ is Finished,
        p@->Finished_0 is EffectivePolicyInfo,
        ({
            let all = p@->Finished_0->EffectivePolicyInfo_roles;
            let role = pm@.role(pm@.config.roles[i].1.id)->Some_0;
            let shown = all[i];
            let user = if pm@.extensions.contains_key(peer.uid) {
                pm@.extensions[peer.uid]
            } else {
                Seq::empty()
            };
            &&& all.len() == pm@.config.roles.len()
            &&& pm@.role(pm@.config.roles[i].1.id) is Some
            &&& shown.name == pm@.config.roles[i].0
            &&& shown.id == role.id.0
            &&& shown.flags == seq![
                ("allow_file_access"@, role.flags.allow_file_access),
                ("allow_network"@, role.flags.allow_network),
                ("allow_exec"@, role.flags.allow_exec),
                ("require_signed_binary"@, role.flags.require_signed_binary),
                ("allow_setuid"@, role.flags.allow_setuid),
                ("allow_ptrace"@, role.flags.allow_ptrace),
                ("allow_module_load"@, role.flags.allow_module_load),
                ("allow_bpf_load"@, role.flags.allow_bpf_load),
                ("require_proxy"@, role.flags.require_proxy),
            ]
            &&& shown.file_paths.len() == role.file_paths.len() + user.len()
            &&& 0 <= k < role.file_paths.len() ==> {
                &&& shown.file_paths[k].source == "base"@
                &&& shown.file_paths[k].lockdown == role.file_paths[k].lockdown
                &&& shown.file_paths[k].rule == (if role.file_paths[k].allow {
                    "allow"@
                } else {
                    "deny"@
                }) + " "@ + role.file_paths[k].pattern
            }
            &&& 0 <= k < user.len() ==> {
                let line = shown.file_paths[role.file_paths.len() + k];
                &&& line.source == "user"@
                &&& line.lockdown == user[k].lockdown
                &&& line.rule == (if user[k].allow {
                    "allow"@
                } else {
                    "deny"@
                }) + " "@ + user[k].pattern
            }
            &&& shown.ip_rules.len() == role.ip_rules.len()
            &&& 0 <= k < role.ip_rules.len() ==> {
                &&& shown.ip_rules[k].source == "base"@
                &&& !shown.ip_rules[k].lockdown
                &&& shown.ip_rules[k].rule == (if role.ip_rules[k].allow {
                    "allow"@
                } else {
                    "deny"@
                }) + " "@ + role.ip_rules[k].direction + " "@ + role.ip_rules[k].cidr
            }
            &&& shown.domain_rules.len() == role.domain_rules.len()
            &&& 0 <= k < role.domain_rules.len() ==> {
                &&& shown.domain_rules[k].source == "base"@
                &&& !shown.domain_rules[k].lockdown
                &&& shown.domain_rules[k].rule == role.domain_rules[k]
            }
            &&& shown.proxy == role.proxy
        }),
{
    lemma_by_number(pm@.config.roles);
}

/// The number of a group is what the first line with at least three fields says that
/// begins with its name, in the third field.
pub proof fn law_group_number(content: &str, name: &str, gid: Option<u32>, i: int)
    requires
        call_ensures(lookup_group_gid, (content, name), gid),
    ensures
        (forall|k: int|
            0 <= k < lines_of(content@).len() ==> !(split_on(
                #[trigger] lines_of(content@)[k],
                ':',
            ).len() >= 3 && split_on(lines_of(content@)[k], ':')[0] == name@)) ==> gid is None,
        0 <= i < lines_of(content@).len() && split_on(lines_of(content@)[i], ':').len() >= 3
            && split_on(lines_of(content@)[i], ':')[0] == name@ && (forall|k: int|
            0 <= k < i ==> !(split_on(#[trigger] lines_of(content@)[k], ':').len() >= 3
                && split_on(lines_of(content@)[k], ':')[0] == name@)) ==> gid == u32_of(
            split_on(lines_of(content@)[i], ':')[2],
        ),
{
    let all = lines_of(content@);
    if forall|k: int|
        0 <= k < all.len() ==> !(split_on(#[trigger] all[k], ':').len() >= 3 && split_on(
            all[k],
            ':',
        )[0] == name@) {
        lemma_no_group(all, name@);
    }
    if 0 <= i < all.len() && split_on(all[i], ':').len() >= 3 && split_on(all[i], ':')[0] == name@
        && (forall|k: int|
        0 <= k < i ==> !(split_on(#[trigger] all[k], ':').len() >= 3 && split_on(all[k], ':')[0]
            == name@)) {
        lemma_first_group(all, name@, i);
    }
}

proof fn lemma_no_group(all: Seq<Seq<char>>, name: Seq<char>)
    requires
        forall|k: int|
            0 <= k < all.len() ==> !(split_on(#[trigger] all[k], ':').len() >= 3 && split_on(
                all[k],
                ':',
            )[0] == name),
    ensures
        group_number(all, name) is None,
    decreases all.len(),
{
    if all.len() > 0 {
        assert(!names_group(all[0], name));
        let rest = all.drop_first();
        assert forall|k: int| 0 <= k < rest.len() implies !(split_on(#[trigger] rest[k], ':').len()
            >= 3 && split_on(rest[k], ':')[0] == name) by {
            assert(rest[k] == all[k + 1]);
        }
        lemma_no_group(rest, name);
    }
}

proof fn lemma_first_group(all: Seq<Seq<char>>, name: Seq<char>, i: int)
    requires
        0 <= i < all.len(),
        split_on(all[i], ':').len() >= 3,
        split_on(all[i], ':')[0] == name,
        forall|k: int|
            0 <= k < i ==> !(split_on(#[trigger] all[k], ':').len() >= 3 && split_on(all[k], ':')[0]
                == name),
    ensures
        group_number(all, name) == u32_of(split_on(all[i], ':')[2]),
    decreases all.len(),
{
    if i > 0 {
        assert(!names_group(all[0], name));
        let rest = all.drop_first();
        assert(rest[i - 1] == all[i]);
        assert forall|k: int| 0 <= k < i - 1 implies !(split_on(#[trigger] rest[k], ':').len() >= 3
            && split_on(rest[k], ':')[0] == name) by {
            assert(rest[k] == all[k + 1]);
        }
        lemma_first_group(rest, name, i - 1);
    }
}

/// The socket is for its owner and its group alone exactly where the group exists
/// and owns it; otherwise everybody may read and write it.
pub proof fn law_socket_permissions(group: Option<u32>, owned_by_group: bool, mode: u32)
    requires
        call_ensures(socket_permissions, (group, owned_by_group), mode),
    ensures
        group is Some && owned_by_group ==> mode == 0o660,
        group is None || !owned_by_group ==> mode == 0o666,
{
}

/// Where a session stands is shown as it is.
pub proof fn law_progress_shows_all(p: Progress)
    ensures
        p matches Progress::Waiting(s) ==> p@ == ProgressView::Waiting(s@),
        p matches Progress::Finished(r) ==> p@ == ProgressView::Finished(r@),
{
}

} // verus!
