//! The enrollment protocol: requests, responses, and the client's reading of
//! the responses.

use crate::common::{PodId, RoleId};
use crate::text::{texts, with_text};
use vstd::prelude::*;

verus! {

/// What a client asks of the daemon.
#[derive(Debug)]
pub enum EnrollmentRequest {
    /// Enroll the calling process under a pod and a role.
    Enroll { pod_id: PodId, role_id: RoleId },
    /// Ask which pod and role a process has.
    Query { pid: u32 },
    /// Place the calling process into the jailer control group and enroll it
    /// with the named role. The daemon takes the process from the credentials
    /// of the connection and does the privileged writes itself.
    EnrollSelf { role: String },
    /// Reload the policy, as a hangup signal does.
    Reload,
    /// Ask for the state of the daemon.
    Status,
    EnrollExecutable { executable_path: String, pod_id: PodId, role_id: RoleId },
    RemoveExecutable { executable_path: String },
    EnrollCgroup { cgroup_path: String, pod_id: PodId, role_id: RoleId },
    RemoveCgroup { cgroup_path: String },
    SetXattr { executable_path: String, pod_id: PodId, role_id: RoleId },
    CheckXattr { executable_path: String },
    RemoveXattr { executable_path: String },
    /// Ask for the policy in force for the calling user: the global policy, its
    /// drop-in fragments and the user's own extensions.
    EffectivePolicy,
}

pub enum RequestView {
    Enroll { pod_id: PodId, role_id: RoleId },
    Query { pid: u32 },
    EnrollSelf { role: Seq<char> },
    Reload,
    Status,
    EnrollExecutable { path: Seq<char>, pod_id: PodId, role_id: RoleId },
    RemoveExecutable { path: Seq<char> },
    EnrollCgroup { path: Seq<char>, pod_id: PodId, role_id: RoleId },
    RemoveCgroup { path: Seq<char> },
    SetXattr { path: Seq<char>, pod_id: PodId, role_id: RoleId },
    CheckXattr { path: Seq<char> },
    RemoveXattr { path: Seq<char> },
    EffectivePolicy,
}

impl View for EnrollmentRequest {
    type V = RequestView;

    open spec fn view(&self) -> RequestView {
        match *self {
            EnrollmentRequest::Enroll { pod_id, role_id } => RequestView::Enroll {
                pod_id,
                role_id,
            },
            EnrollmentRequest::Query { pid } => RequestView::Query { pid },
            EnrollmentRequest::EnrollSelf { role } => RequestView::EnrollSelf { role: role@ },
            EnrollmentRequest::Reload => RequestView::Reload,
            EnrollmentRequest::Status => RequestView::Status,
            EnrollmentRequest::EnrollExecutable {
                executable_path,
                pod_id,
                role_id,
            } => RequestView::EnrollExecutable { path: executable_path@, pod_id, role_id },
            EnrollmentRequest::RemoveExecutable { executable_path } => {
                RequestView::RemoveExecutable { path: executable_path@ }
            },
            EnrollmentRequest::EnrollCgroup { cgroup_path, pod_id, role_id } => {
                RequestView::EnrollCgroup { path: cgroup_path@, pod_id, role_id }
            },
            EnrollmentRequest::RemoveCgroup { cgroup_path } => RequestView::RemoveCgroup {
                path: cgroup_path@,
            },
            EnrollmentRequest::SetXattr { executable_path, pod_id, role_id } => {
                RequestView::SetXattr { path: executable_path@, pod_id, role_id }
            },
            EnrollmentRequest::CheckXattr { executable_path } => RequestView::CheckXattr {
                path: executable_path@,
            },
            EnrollmentRequest::RemoveXattr { executable_path } => RequestView::RemoveXattr {
                path: executable_path@,
            },
            EnrollmentRequest::EffectivePolicy => RequestView::EffectivePolicy,
        }
    }
}

/// A rule with where it comes from and whether it is locked.
#[derive(Debug)]
pub struct AnnotatedRule {
    pub rule: String,
    pub source: String,
    pub lockdown: bool,
}

pub struct AnnotatedRuleView {
    pub rule: Seq<char>,
    pub source: Seq<char>,
    pub lockdown: bool,
}

impl View for AnnotatedRule {
    type V = AnnotatedRuleView;

    open spec fn view(&self) -> AnnotatedRuleView {
        AnnotatedRuleView { rule: self.rule@, source: self.source@, lockdown: self.lockdown }
    }
}

/// What a sequence of annotated rules says.
pub open spec fn annotated(v: Seq<AnnotatedRule>) -> Seq<AnnotatedRuleView> {
    v.map_values(|r: AnnotatedRule| r@)
}

/// A role as it is in force for a user.
#[derive(Debug)]
pub struct EffectiveRole {
    pub name: String,
    pub id: u32,
    pub flags: Vec<(String, bool)>,
    pub file_paths: Vec<AnnotatedRule>,
    pub ip_rules: Vec<AnnotatedRule>,
    pub domain_rules: Vec<AnnotatedRule>,
    pub proxy: Option<String>,
}

pub struct EffectiveRoleView {
    pub name: Seq<char>,
    pub id: u32,
    pub flags: Seq<(Seq<char>, bool)>,
    pub file_paths: Seq<AnnotatedRuleView>,
    pub ip_rules: Seq<AnnotatedRuleView>,
    pub domain_rules: Seq<AnnotatedRuleView>,
    pub proxy: Option<Seq<char>>,
}

impl View for EffectiveRole {
    type V = EffectiveRoleView;

    open spec fn view(&self) -> EffectiveRoleView {
        EffectiveRoleView {
            name: self.name@,
            id: self.id,
            flags: self.flags@.map_values(|f: (String, bool)| (f.0@, f.1)),
            file_paths: annotated(self.file_paths@),
            ip_rules: annotated(self.ip_rules@),
            domain_rules: annotated(self.domain_rules@),
            proxy: crate::common::optional_text(self.proxy),
        }
    }
}

/// What the daemon answers.
#[allow(inconsistent_fields)]
#[derive(Debug)]
pub enum EnrollmentResponse {
    Success,
    Error(String),
    ProcessInfo { pod_id: PodId, role_id: RoleId },
    XattrInfo { pod_id: PodId, role_id: RoleId },
    /// The control group that the caller was placed in.
    Enrolled { cgroup: String },
    /// The state of the daemon.
    StatusInfo {
        attached: bool,
        lsm_hooks: usize,
        roles: Vec<String>,
        cgroup_enrollments: usize,
        exec_enrollments: usize,
        policy_path: String,
    },
    /// The rules in force, with where they come from.
    EffectivePolicyInfo { roles: Vec<EffectiveRole> },
}

#[allow(inconsistent_fields)]
pub enum ResponseView {
    Success,
    Error(Seq<char>),
    ProcessInfo { pod_id: PodId, role_id: RoleId },
    XattrInfo { pod_id: PodId, role_id: RoleId },
    Enrolled { cgroup: Seq<char> },
    StatusInfo {
        attached: bool,
        lsm_hooks: usize,
        roles: Seq<Seq<char>>,
        cgroup_enrollments: nat,
        exec_enrollments: nat,
        policy_path: Seq<char>,
    },
    EffectivePolicyInfo { roles: Seq<EffectiveRoleView> },
}

impl View for EnrollmentResponse {
    type V = ResponseView;

    open spec fn view(&self) -> ResponseView {
        match *self {
            EnrollmentResponse::Success => ResponseView::Success,
            EnrollmentResponse::Error(e) => ResponseView::Error(e@),
            EnrollmentResponse::ProcessInfo { pod_id, role_id } => ResponseView::ProcessInfo {
                pod_id,
                role_id,
            },
            EnrollmentResponse::XattrInfo { pod_id, role_id } => ResponseView::XattrInfo {
                pod_id,
                role_id,
            },
            EnrollmentResponse::Enrolled { cgroup } => ResponseView::Enrolled { cgroup: cgroup@ },
            EnrollmentResponse::StatusInfo {
                attached,
                lsm_hooks,
                roles,
                cgroup_enrollments,
                exec_enrollments,
                policy_path,
            } => ResponseView::StatusInfo {
                attached,
                lsm_hooks,
                roles: texts(roles@),
                cgroup_enrollments: cgroup_enrollments as nat,
                exec_enrollments: exec_enrollments as nat,
                policy_path: policy_path@,
            },
            EnrollmentResponse::EffectivePolicyInfo { roles } => {
                ResponseView::EffectivePolicyInfo {
                    roles: roles@.map_values(|r: EffectiveRole| r@),
                }
            },
        }
    }
}

/// What the answer to an enrollment means to the client: the error it reports,
/// or nothing where the daemon enrolled the process.
pub open spec fn enroll_meaning(response: ResponseView) -> Result<(), Seq<char>> {
    match response {
        ResponseView::Success => Ok(()),
        ResponseView::Error(e) => Err("Enrollment failed: "@ + e),
        _ => Err("Unexpected response type"@),
    }
}

/// What the answer to a query means to the client: the pod and the role of the
/// process, or the error it reports.
pub open spec fn query_meaning(response: ResponseView) -> Result<(PodId, RoleId), Seq<char>> {
    match response {
        ResponseView::ProcessInfo { pod_id, role_id } => Ok((pod_id, role_id)),
        ResponseView::Error(e) => Err("Query failed: "@ + e),
        _ => Err("Unexpected response type"@),
    }
}

/// A client of the daemon that listens on a socket.
pub struct EnrollmentClient {
    socket_path: String,
}

impl EnrollmentClient {
    /// The path of the socket.
    pub closed spec fn socket(&self) -> Seq<char> {
        self.socket_path@
    }

    /// A client of the daemon at `socket_path`.
    pub fn new(socket_path: &str) -> (client: Self)
        ensures
            client.socket() == socket_path@,
    {
        EnrollmentClient { socket_path: socket_path.to_owned() }
    }

    /// The path of the socket to connect to.
    pub fn socket_path(&self) -> (path: &str)
        ensures
            path@ == self.socket(),
    {
        self.socket_path.as_str()
    }

    /// The request to enroll the calling process.
    pub fn enroll_request(&self, pod_id: PodId, role_id: RoleId) -> (request: EnrollmentRequest)
        ensures
            request@ == (RequestView::Enroll { pod_id, role_id }),
    {
        EnrollmentRequest::Enroll { pod_id, role_id }
    }

    /// What the daemon's answer to an enrollment means.
    pub fn enroll_result(&self, response: EnrollmentResponse) -> (r: Result<(), String>)
        ensures
            with_text(r) == enroll_meaning(response@),
    {
        match response {
            EnrollmentResponse::Success => Ok(()),
            EnrollmentResponse::Error(e) => {
                let mut m = "Enrollment failed: ".to_owned();
                m.append(e.as_str());
                Err(m)
            },
            _ => Err("Unexpected response type".to_owned()),
        }
    }

    /// The request for the pod and the role of a process.
    pub fn query_request(&self, pid: u32) -> (request: EnrollmentRequest)
        ensures
            request@ == (RequestView::Query { pid }),
    {
        EnrollmentRequest::Query { pid }
    }

    /// What the daemon's answer to a query means.
    pub fn query_result(&self, response: EnrollmentResponse) -> (r: Result<
        (PodId, RoleId),
        String,
    >)
        ensures
            with_text(r) == query_meaning(response@),
    {
        match response {
            EnrollmentResponse::ProcessInfo { pod_id, role_id } => Ok((pod_id, role_id)),
            EnrollmentResponse::Error(e) => {
                let mut m = "Query failed: ".to_owned();
                m.append(e.as_str());
                Err(m)
            },
            _ => Err("Unexpected response type".to_owned()),
        }
    }
}

/// What a request shows is all that it asks for.
pub proof fn law_request_shows_all(request: EnrollmentRequest)
    ensures
        match request {
            EnrollmentRequest::Enroll { pod_id, role_id } => request@ == (RequestView::Enroll {
                pod_id,
                role_id,
            }),
            EnrollmentRequest::Query { pid } => request@ == (RequestView::Query { pid }),
            EnrollmentRequest::EnrollSelf { role } => request@ == (RequestView::EnrollSelf {
                role: role@,
            }),
            EnrollmentRequest::Reload => request@ is Reload,
            EnrollmentRequest::Status => request@ is Status,
            EnrollmentRequest::EnrollExecutable { executable_path, pod_id, role_id } => request@
                == (RequestView::EnrollExecutable { path: executable_path@, pod_id, role_id }),
            EnrollmentRequest::RemoveExecutable { executable_path } => request@
                == (RequestView::RemoveExecutable { path: executable_path@ }),
            EnrollmentRequest::EnrollCgroup { cgroup_path, pod_id, role_id } => request@
                == (RequestView::EnrollCgroup { path: cgroup_path@, pod_id, role_id }),
            EnrollmentRequest::RemoveCgroup { cgroup_path } => request@
                == (RequestView::RemoveCgroup { path: cgroup_path@ }),
            EnrollmentRequest::SetXattr { executable_path, pod_id, role_id } => request@
                == (RequestView::SetXattr { path: executable_path@, pod_id, role_id }),
            EnrollmentRequest::CheckXattr { executable_path } => request@
                == (RequestView::CheckXattr { path: executable_path@ }),
            EnrollmentRequest::RemoveXattr { executable_path } => request@
                == (RequestView::RemoveXattr { path: executable_path@ }),
            EnrollmentRequest::EffectivePolicy => request@ is EffectivePolicy,
        },
{
}

/// What an answer shows is all that it says.
pub proof fn law_response_shows_all(response: EnrollmentResponse)
    ensures
        response is Success <==> response@ is Success,
        response matches EnrollmentResponse::Error(e) ==> response@ == ResponseView::Error(e@),
        response matches EnrollmentResponse::ProcessInfo { pod_id, role_id } ==> response@ == (
        ResponseView::ProcessInfo { pod_id, role_id }),
        response matches EnrollmentResponse::XattrInfo { pod_id, role_id } ==> response@ == (
        ResponseView::XattrInfo { pod_id, role_id }),
        response matches EnrollmentResponse::Enrolled { cgroup } ==> response@ == (
        ResponseView::Enrolled { cgroup: cgroup@ }),
        response matches EnrollmentResponse::StatusInfo {
            attached,
            lsm_hooks,
            roles,
            cgroup_enrollments,
            exec_enrollments,
            policy_path,
        } ==> response@ == (ResponseView::StatusInfo {
            attached,
            lsm_hooks,
            roles: roles@.map_values(|s: String| s@),
            cgroup_enrollments: cgroup_enrollments as nat,
            exec_enrollments: exec_enrollments as nat,
            policy_path: policy_path@,
        }),
        response matches EnrollmentResponse::EffectivePolicyInfo { roles } ==> response@
            is EffectivePolicyInfo && response@->EffectivePolicyInfo_roles.len() == roles@.len()
            && forall|i: int|
            0 <= i < roles@.len() ==> #[trigger] response@->EffectivePolicyInfo_roles[i]
                == roles@[i]@,
{
}

/// What a role in an answer shows is all that it says.
pub proof fn law_effective_role_shows_all(role: EffectiveRole, i: int)
    ensures
        role@.name == role.name@,
        role@.id == role.id,
        role@.flags.len() == role.flags@.len(),
        0 <= i < role.flags@.len() ==> role@.flags[i] == (role.flags@[i].0@, role.flags@[i].1),
        role@.file_paths.len() == role.file_paths@.len(),
        0 <= i < role.file_paths@.len() ==> {
            let rule = role.file_paths@[i];
            &&& role@.file_paths[i].rule == rule.rule@
            &&& role@.file_paths[i].source == rule.source@
            &&& role@.file_paths[i].lockdown == rule.lockdown
        },
        role@.ip_rules.len() == role.ip_rules@.len(),
        0 <= i < role.ip_rules@.len() ==> role@.ip_rules[i] == role.ip_rules@[i]@,
        role@.domain_rules.len() == role.domain_rules@.len(),
        0 <= i < role.domain_rules@.len() ==> role@.domain_rules[i] == role.domain_rules@[i]@,
        role@.proxy is Some <==> role.proxy is Some,
        role.proxy matches Some(proxy) ==> role@.proxy == Some(proxy@),
{
}

/// An enrollment has come off exactly where the daemon says so. What the daemon
/// gives as the reason is reported, and no other answer passes for a success.
pub proof fn law_enrollment_is_reported_as_answered(
    client: &EnrollmentClient,
    response: EnrollmentResponse,
    r: Result<(), String>,
)
    requires
        call_ensures(EnrollmentClient::enroll_result, (client, response), r),
    ensures
        r is Ok <==> response is Success,
        response matches EnrollmentResponse::Error(e) ==> r->Err_0@ == "Enrollment failed: "@ + e@,
        !(response is Success) && !(response is Error) ==> r->Err_0@
            == "Unexpected response type"@,
{
}

/// A query gives the pod and the role that the daemon names, and nothing where it
/// names none. What the daemon gives as the reason is reported.
pub proof fn law_query_is_reported_as_answered(
    client: &EnrollmentClient,
    response: EnrollmentResponse,
    r: Result<(PodId, RoleId), String>,
)
    requires
        call_ensures(EnrollmentClient::query_result, (client, response), r),
    ensures
        r is Ok <==> response is ProcessInfo,
        response matches EnrollmentResponse::ProcessInfo { pod_id, role_id } ==> r->Ok_0 == (
            pod_id,
            role_id,
        ),
        response matches EnrollmentResponse::Error(e) ==> r->Err_0@ == "Query failed: "@ + e@,
        !(response is ProcessInfo) && !(response is Error) ==> r->Err_0@
            == "Unexpected response type"@,
{
}

/// A client asks for what it was told to ask for, of the daemon that it was made
/// for.
pub proof fn law_client_asks_as_told(
    path: &str,
    client: EnrollmentClient,
    socket: &str,
    pod_id: PodId,
    role_id: RoleId,
    pid: u32,
    enroll: EnrollmentRequest,
    query: EnrollmentRequest,
)
    requires
        call_ensures(EnrollmentClient::new, (path,), client),
        call_ensures(EnrollmentClient::socket_path, (&client,), socket),
        call_ensures(EnrollmentClient::enroll_request, (&client, pod_id, role_id), enroll),
        call_ensures(EnrollmentClient::query_request, (&client, pid), query),
    ensures
        socket@ == path@,
        enroll == (EnrollmentRequest::Enroll { pod_id, role_id }),
        query == (EnrollmentRequest::Query { pid }),
{
}

} // verus!
