//! The policy as data: roles with their flags and rules, the table of roles, and
//! the configuration that a policy file holds.

use crate::text::{same, texts};
use vstd::prelude::*;

verus! {

/// The number of a role.
#[derive(Clone, Copy, Debug, PartialEq, Eq, Structural)]
pub struct RoleId(pub u32);

/// The number of a pod, a group of processes that are confined together.
#[derive(Clone, Copy, Debug, PartialEq, Eq, Structural)]
pub struct PodId(pub u64);

/// What a role allows as a whole.
#[derive(Clone, Copy, Debug, PartialEq, Eq, Structural)]
pub struct PolicyFlags {
    pub allow_file_access: bool,
    pub allow_network: bool,
    pub allow_exec: bool,
    pub require_signed_binary: bool,
    pub allow_setuid: bool,
    pub allow_ptrace: bool,
    pub allow_module_load: bool,
    pub allow_bpf_load: bool,
    pub require_proxy: bool,
}

/// A rule on the paths that match a pattern.
#[derive(Debug)]
pub struct PathPattern {
    pub pattern: String,
    pub allow: bool,
    /// A locked rule that users cannot touch.
    pub lockdown: bool,
}

pub struct PathPatternView {
    pub pattern: Seq<char>,
    pub allow: bool,
    pub lockdown: bool,
}

impl View for PathPattern {
    type V = PathPatternView;

    open spec fn view(&self) -> PathPatternView {
        PathPatternView { pattern: self.pattern@, allow: self.allow, lockdown: self.lockdown }
    }
}

impl Clone for PathPattern {
    fn clone(&self) -> (r: Self)
        ensures
            r == *self,
    {
        PathPattern {
            pattern: self.pattern.clone(),
            allow: self.allow,
            lockdown: self.lockdown,
        }
    }
}

/// What a sequence of path rules says.
pub open spec fn rules(v: Seq<PathPattern>) -> Seq<PathPatternView> {
    v.map_values(|p: PathPattern| p@)
}

/// A copy of a list of path rules.
pub fn copy_rules(v: &Vec<PathPattern>) -> (r: Vec<PathPattern>)
    ensures
        r@ == v@,
{
    let r = v.clone();
    assert(r@ =~= v@);
    r
}

/// A copy of a list of strings.
pub fn copy_texts(v: &Vec<String>) -> (r: Vec<String>)
    ensures
        r@ == v@,
{
    let r = v.clone();
    assert(r@ =~= v@);
    r
}

/// A rule on a range of addresses.
#[derive(Debug)]
pub struct IpRule {
    pub cidr: String,
    pub direction: String,
    pub allow: bool,
}

pub struct IpRuleView {
    pub cidr: Seq<char>,
    pub direction: Seq<char>,
    pub allow: bool,
}

impl View for IpRule {
    type V = IpRuleView;

    open spec fn view(&self) -> IpRuleView {
        IpRuleView { cidr: self.cidr@, direction: self.direction@, allow: self.allow }
    }
}

impl Clone for IpRule {
    fn clone(&self) -> (r: Self)
        ensures
            r == *self,
    {
        IpRule {
            cidr: self.cidr.clone(),
            direction: self.direction.clone(),
            allow: self.allow,
        }
    }
}

/// What a sequence of address rules says.
pub open spec fn ip_rules(v: Seq<IpRule>) -> Seq<IpRuleView> {
    v.map_values(|p: IpRule| p@)
}

/// A copy of a list of address rules.
pub fn copy_ip_rules(v: &Vec<IpRule>) -> (r: Vec<IpRule>)
    ensures
        r@ == v@,
{
    let r = v.clone();
    assert(r@ =~= v@);
    r
}

/// A role: a name for what the processes that carry it may do. Network,
/// execution and domain rules and the proxy are carried in the notation of the
/// policy file.
#[derive(Debug)]
pub struct Role {
    pub id: RoleId,
    pub name: String,
    pub flags: PolicyFlags,
    pub file_paths: Vec<PathPattern>,
    pub network_rules: Vec<String>,
    pub execution_rules: Vec<String>,
    pub require_signed_binary: bool,
    pub ip_rules: Vec<IpRule>,
    pub domain_rules: Vec<String>,
    pub proxy: Option<String>,
}

pub struct RoleView {
    pub id: RoleId,
    pub name: Seq<char>,
    pub flags: PolicyFlags,
    pub file_paths: Seq<PathPatternView>,
    pub network_rules: Seq<Seq<char>>,
    pub execution_rules: Seq<Seq<char>>,
    pub require_signed_binary: bool,
    pub ip_rules: Seq<IpRuleView>,
    pub domain_rules: Seq<Seq<char>>,
    pub proxy: Option<Seq<char>>,
}

/// The text of an optional string.
pub open spec fn optional_text(s: Option<String>) -> Option<Seq<char>> {
    match s {
        Some(t) => Some(t@),
        None => None,
    }
}

impl View for Role {
    type V = RoleView;

    open spec fn view(&self) -> RoleView {
        RoleView {
            id: self.id,
            name: self.name@,
            flags: self.flags,
            file_paths: rules(self.file_paths@),
            network_rules: texts(self.network_rules@),
            execution_rules: texts(self.execution_rules@),
            require_signed_binary: self.require_signed_binary,
            ip_rules: ip_rules(self.ip_rules@),
            domain_rules: texts(self.domain_rules@),
            proxy: optional_text(self.proxy),
        }
    }
}

impl Clone for Role {
    fn clone(&self) -> (r: Self)
        ensures
            r@ == self@,
    {
        Role {
            id: self.id,
            name: self.name.clone(),
            flags: self.flags,
            file_paths: copy_rules(&self.file_paths),
            network_rules: copy_texts(&self.network_rules),
            execution_rules: copy_texts(&self.execution_rules),
            require_signed_binary: self.require_signed_binary,
            ip_rules: copy_ip_rules(&self.ip_rules),
            domain_rules: copy_texts(&self.domain_rules),
            proxy: match &self.proxy {
                Some(p) => Some(p.clone()),
                None => None,
            },
        }
    }
}

/// The place of `name` in a table of roles.
pub open spec fn place_of(t: Seq<(Seq<char>, RoleView)>, name: Seq<char>) -> Option<int>
    decreases t.len(),
{
    if t.len() == 0 {
        None
    } else if t.last().0 == name {
        Some(t.len() - 1)
    } else {
        place_of(t.drop_last(), name)
    }
}

/// The role that a table holds under `name`.
pub open spec fn role_named(t: Seq<(Seq<char>, RoleView)>, name: Seq<char>) -> Option<RoleView> {
    match place_of(t, name) {
        Some(i) => Some(t[i].1),
        None => None,
    }
}

/// The table with `role` under `name`, in the place of the role that had it.
pub open spec fn with_role(
    t: Seq<(Seq<char>, RoleView)>,
    name: Seq<char>,
    role: RoleView,
) -> Seq<(Seq<char>, RoleView)> {
    match place_of(t, name) {
        Some(i) => t.update(i, (name, role)),
        None => t.push((name, role)),
    }
}

/// The table with all of `more` put into it, one after the other.
pub open spec fn with_roles(
    t: Seq<(Seq<char>, RoleView)>,
    more: Seq<(Seq<char>, RoleView)>,
) -> Seq<(Seq<char>, RoleView)>
    decreases more.len(),
{
    if more.len() == 0 {
        t
    } else {
        with_role(with_roles(t, more.drop_last()), more.last().0, more.last().1)
    }
}

/// No two entries of the table have the same name.
pub open spec fn distinct_names(t: Seq<(Seq<char>, RoleView)>) -> bool {
    forall|i: int, j: int| 0 <= i < j < t.len() ==> t[i].0 != t[j].0
}

/// What `place_of` finds.
pub proof fn lemma_place_of(t: Seq<(Seq<char>, RoleView)>, name: Seq<char>)
    ensures
        match place_of(t, name) {
            Some(i) => 0 <= i < t.len() && t[i].0 == name,
            None => forall|i: int| 0 <= i < t.len() ==> t[i].0 != name,
        },
    decreases t.len(),
{
    if t.len() > 0 && t.last().0 != name {
        lemma_place_of(t.drop_last(), name);
        assert forall|i: int| place_of(t, name) is None && 0 <= i < t.len() implies t[i].0
            != name by {
            if i < t.len() - 1 {
                assert(t.drop_last()[i].0 != name);
            }
        }
    }
}

/// The roles of a policy by name, in the order in which their names came.
#[derive(Debug)]
pub struct RoleTable {
    entries: Vec<(String, Role)>,
}

impl View for RoleTable {
    type V = Seq<(Seq<char>, RoleView)>;

    closed spec fn view(&self) -> Seq<(Seq<char>, RoleView)> {
        self.entries@.map_values(|e: (String, Role)| (e.0@, e.1@))
    }
}

impl RoleTable {
    /// A name stands in the table once at most.
    pub open spec fn wf(&self) -> bool {
        distinct_names(self@)
    }

    /// A table without roles.
    pub fn new() -> (t: RoleTable)
        ensures
            t.wf(),
            t@ == Seq::<(Seq<char>, RoleView)>::empty(),
    {
        let t = RoleTable { entries: Vec::new() };
        assert(t@ =~= Seq::<(Seq<char>, RoleView)>::empty());
        t
    }

    /// The number of roles.
    pub fn len(&self) -> (n: usize)
        ensures
            n == self@.len(),
    {
        self.entries.len()
    }

    /// The name of the entry at `i`.
    pub fn name(&self, i: usize) -> (name: &String)
        requires
            i < self@.len(),
        ensures
            name@ == self@[i as int].0,
    {
        &self.entries[i].0
    }

    /// The role of the entry at `i`.
    pub fn role(&self, i: usize) -> (role: &Role)
        requires
            i < self@.len(),
        ensures
            role@ == self@[i as int].1,
    {
        &self.entries[i].1
    }

    /// The place of `name`.
    fn find(&self, name: &str) -> (r: Option<usize>)
        ensures
            match r {
                Some(i) => place_of(self@, name@) == Some(i as int) && i < self@.len(),
                None => place_of(self@, name@) is None,
            },
    {
        let mut i: usize = self.entries.len();
        assert(self@.take(i as int) =~= self@);
        while i > 0
            invariant
                0 <= i <= self.entries@.len(),
                place_of(self@, name@) == place_of(self@.take(i as int), name@),
            decreases i,
        {
            assert(self@.take(i as int).drop_last() =~= self@.take(i - 1));
            if same(self.entries[i - 1].0.as_str(), name) {
                return Some(i - 1);
            }
            i = i - 1;
        }
        None
    }

    /// The role with the given name.
    pub fn get(&self, name: &str) -> (r: Option<&Role>)
        ensures
            match r {
                Some(role) => role_named(self@, name@) == Some(role@),
                None => role_named(self@, name@) is None,
            },
    {
        match self.find(name) {
            Some(i) => Some(&self.entries[i].1),
            None => None,
        }
    }

    /// Puts a role under a name; a role that had the name leaves.
    pub fn insert(&mut self, name: String, role: Role)
        requires
            old(self).wf(),
        ensures
            final(self).wf(),
            final(self)@ == with_role(old(self)@, name@, role@),
    {
        let ghost before = self@;
        let ghost n = name@;
        let ghost r = role@;
        proof {
            lemma_place_of(before, n);
        }
        match self.find(name.as_str()) {
            Some(i) => {
                self.entries.set(i, (name, role));
                assert(self@ =~= before.update(i as int, (n, r)));
            },
            None => {
                self.entries.push((name, role));
                assert(self@ =~= before.push((n, r)));
            },
        }
        assert(self@ == with_role(before, n, r));
    }

    /// Puts all roles of another table into this one.
    pub fn insert_all(&mut self, more: RoleTable)
        requires
            old(self).wf(),
        ensures
            final(self).wf(),
            final(self)@ == with_roles(old(self)@, more@),
    {
        let ghost before = self@;
        let ghost all = more@;
        let mut i: usize = 0;
        while i < more.entries.len()
            invariant
                self.wf(),
                all == more@,
                0 <= i <= more.entries@.len(),
                self@ == with_roles(before, all.take(i as int)),
            decreases more.entries@.len() - i,
        {
            assert(all.take(i + 1).drop_last() =~= all.take(i as int));
            self.insert(more.entries[i].0.clone(), more.entries[i].1.clone());
            i = i + 1;
        }
        assert(all.take(i as int) =~= all);
    }
}

/// Binds an executable to a pod and a role.
#[derive(Debug)]
pub struct ExecEnrollment {
    pub executable_path: String,
    pub pod_id: u64,
    pub role: String,
}

/// Binds a control group to a pod and a role.
#[derive(Debug)]
pub struct CgroupEnrollment {
    pub cgroup_path: String,
    pub pod_id: u64,
    pub role: String,
}

/// A path with the pod and the name of the role that it is bound to.
pub struct EnrollmentView {
    pub path: Seq<char>,
    pub pod_id: u64,
    pub role: Seq<char>,
}

impl View for ExecEnrollment {
    type V = EnrollmentView;

    open spec fn view(&self) -> EnrollmentView {
        EnrollmentView { path: self.executable_path@, pod_id: self.pod_id, role: self.role@ }
    }
}

impl View for CgroupEnrollment {
    type V = EnrollmentView;

    open spec fn view(&self) -> EnrollmentView {
        EnrollmentView { path: self.cgroup_path@, pod_id: self.pod_id, role: self.role@ }
    }
}

/// What a policy file holds.
#[derive(Debug)]
pub struct PolicyConfig {
    pub roles: RoleTable,
    pub pods: Vec<String>,
    pub exec_enrollments: Vec<ExecEnrollment>,
    pub cgroup_enrollments: Vec<CgroupEnrollment>,
}

pub struct PolicyConfigView {
    pub roles: Seq<(Seq<char>, RoleView)>,
    pub pods: Seq<Seq<char>>,
    pub exec_enrollments: Seq<EnrollmentView>,
    pub cgroup_enrollments: Seq<EnrollmentView>,
}

impl View for PolicyConfig {
    type V = PolicyConfigView;

    open spec fn view(&self) -> PolicyConfigView {
        PolicyConfigView {
            roles: self.roles@,
            pods: texts(self.pods@),
            exec_enrollments: self.exec_enrollments@.map_values(|e: ExecEnrollment| e@),
            cgroup_enrollments: self.cgroup_enrollments@.map_values(|e: CgroupEnrollment| e@),
        }
    }
}

/// The policy `a` with the fragment `b` laid over it: roles of `b` replace roles
/// of the same name, and the lists of `b` come behind those of `a`.
pub open spec fn overlaid(a: PolicyConfigView, b: PolicyConfigView) -> PolicyConfigView {
    PolicyConfigView {
        roles: with_roles(a.roles, b.roles),
        pods: a.pods + b.pods,
        exec_enrollments: a.exec_enrollments + b.exec_enrollments,
        cgroup_enrollments: a.cgroup_enrollments + b.cgroup_enrollments,
    }
}

impl PolicyConfig {
    pub open spec fn wf(&self) -> bool {
        self.roles.wf()
    }

    /// A policy that holds nothing.
    pub fn new() -> (c: PolicyConfig)
        ensures
            c.wf(),
            c@ == (PolicyConfigView {
                roles: Seq::empty(),
                pods: Seq::empty(),
                exec_enrollments: Seq::empty(),
                cgroup_enrollments: Seq::empty(),
            }),
    {
        let c = PolicyConfig {
            roles: RoleTable::new(),
            pods: Vec::new(),
            exec_enrollments: Vec::new(),
            cgroup_enrollments: Vec::new(),
        };
        assert(c@.pods =~= Seq::empty());
        assert(c@.exec_enrollments =~= Seq::empty());
        assert(c@.cgroup_enrollments =~= Seq::empty());
        c
    }

    /// The role with the given name.
    pub fn get_role(&self, name: &str) -> (r: Option<&Role>)
        ensures
            match r {
                Some(role) => role_named(self@.roles, name@) == Some(role@),
                None => role_named(self@.roles, name@) is None,
            },
    {
        self.roles.get(name)
    }

    /// Lays a fragment over this policy.
    pub fn merge(&mut self, fragment: PolicyConfig)
        requires
            old(self).wf(),
        ensures
            final(self).wf(),
            final(self)@ == overlaid(old(self)@, fragment@),
    {
        let ghost before = self@;
        let ghost more = fragment@;
        let mut pods = fragment.pods;
        let mut execs = fragment.exec_enrollments;
        let mut cgroups = fragment.cgroup_enrollments;
        self.roles.insert_all(fragment.roles);
        self.pods.append(&mut pods);
        self.exec_enrollments.append(&mut execs);
        self.cgroup_enrollments.append(&mut cgroups);
        assert(self@.pods =~= before.pods + more.pods);
        assert(self@.exec_enrollments =~= before.exec_enrollments + more.exec_enrollments);
        assert(self@.cgroup_enrollments =~= before.cgroup_enrollments + more.cgroup_enrollments);
    }
}

/// The extensions that a user wrote.
#[derive(Debug)]
pub struct UserExtensionConfig {
    pub user_extensions: Vec<PathPattern>,
}

/// What a role shows is all that it holds.
pub proof fn law_role_shows_all(role: Role)
    ensures
        role@.id == role.id,
        role@.name == role.name@,
        role@.flags == role.flags,
        role@.require_signed_binary == role.require_signed_binary,
        role@.file_paths.len() == role.file_paths@.len(),
        forall|i: int|
            0 <= i < role.file_paths@.len() ==> {
                let rule = role.file_paths@[i];
                &&& (#[trigger] role@.file_paths[i]).pattern == rule.pattern@
                &&& role@.file_paths[i].allow == rule.allow
                &&& role@.file_paths[i].lockdown == rule.lockdown
            },
        role@.ip_rules.len() == role.ip_rules@.len(),
        forall|i: int|
            0 <= i < role.ip_rules@.len() ==> {
                let rule = role.ip_rules@[i];
                &&& (#[trigger] role@.ip_rules[i]).cidr == rule.cidr@
                &&& role@.ip_rules[i].direction == rule.direction@
                &&& role@.ip_rules[i].allow == rule.allow
            },
        role@.network_rules.len() == role.network_rules@.len(),
        forall|i: int|
            0 <= i < role.network_rules@.len() ==> #[trigger] role@.network_rules[i]
                == role.network_rules@[i]@,
        role@.execution_rules.len() == role.execution_rules@.len(),
        forall|i: int|
            0 <= i < role.execution_rules@.len() ==> #[trigger] role@.execution_rules[i]
                == role.execution_rules@[i]@,
        role@.domain_rules.len() == role.domain_rules@.len(),
        forall|i: int|
            0 <= i < role.domain_rules@.len() ==> #[trigger] role@.domain_rules[i]
                == role.domain_rules@[i]@,
        role@.proxy is Some <==> role.proxy is Some,
        role.proxy matches Some(proxy) ==> role@.proxy == Some(proxy@),
{
}

/// What a configuration shows is all that it holds.
pub proof fn law_configuration_shows_all(config: PolicyConfig, i: int)
    ensures
        config@.roles == config.roles@,
        config@.pods.len() == config.pods@.len(),
        0 <= i < config.pods@.len() ==> config@.pods[i] == config.pods@[i]@,
        config@.exec_enrollments.len() == config.exec_enrollments@.len(),
        0 <= i < config.exec_enrollments@.len() ==> {
            let e = config.exec_enrollments@[i];
            &&& config@.exec_enrollments[i].path == e.executable_path@
            &&& config@.exec_enrollments[i].pod_id == e.pod_id
            &&& config@.exec_enrollments[i].role == e.role@
        },
        config@.cgroup_enrollments.len() == config.cgroup_enrollments@.len(),
        0 <= i < config.cgroup_enrollments@.len() ==> {
            let e = config.cgroup_enrollments@[i];
            &&& config@.cgroup_enrollments[i].path == e.cgroup_path@
            &&& config@.cgroup_enrollments[i].pod_id == e.pod_id
            &&& config@.cgroup_enrollments[i].role == e.role@
        },
{
}

/// A role is found under a name exactly where the table has an entry with that
/// name, and what is found is the role of such an entry: the only one, where no
/// name comes twice.
pub proof fn law_role_under_a_name(t: Seq<(Seq<char>, RoleView)>, name: Seq<char>)
    ensures
        role_named(t, name) is Some <==> exists|i: int| 0 <= i < t.len() && (#[trigger] t[i]).0
            == name,
        role_named(t, name) matches Some(role) ==> t.contains((name, role)),
        distinct_names(t) ==> forall|i: int|
            0 <= i < t.len() && (#[trigger] t[i]).0 == name ==> role_named(t, name) == Some(t[i].1),
{
    lemma_place_of(t, name);
    if let Some(k) = place_of(t, name) {
        assert(t[k] == (name, t[k].1));
        if distinct_names(t) {
            assert forall|i: int|
                0 <= i < t.len() && (#[trigger] t[i]).0 == name implies role_named(t, name)
                == Some(t[i].1) by {
                if i < k {
                    assert(t[i].0 != t[k].0);
                }
                if k < i {
                    assert(t[k].0 != t[i].0);
                }
            }
        }
    }
}

/// What a table gives under a name is the role that was put under it.
pub proof fn law_get_finds_the_entry(table: &RoleTable, name: &str, r: Option<&Role>)
    requires
        call_ensures(RoleTable::get, (table, name), r),
    ensures
        r is Some <==> exists|i: int| 0 <= i < table@.len() && (#[trigger] table@[i]).0 == name@,
        r matches Some(role) ==> table@.contains((name@, role@)),
{
    law_role_under_a_name(table@, name@);
}

/// Putting a role under a name leaves exactly that role there, and everything else
/// where it was: a name that is known keeps its place, a new one comes last.
pub proof fn law_insert_changes_one_entry(table: &mut RoleTable, name: String, role: Role)
    requires
        call_ensures(RoleTable::insert, (table, name, role), ()),
    ensures
        ({
            let before = old(table)@;
            let after = final(table)@;
            let known = exists|i: int| 0 <= i < before.len() && (#[trigger] before[i]).0 == name@;
            &&& after.contains((name@, role@))
            &&& after.len() == if known {
                before.len()
            } else {
                before.len() + 1
            }
            &&& forall|i: int|
                0 <= i < before.len() ==> (#[trigger] after[i]).0 == before[i].0 && (before[i].0
                    != name@ ==> after[i] == before[i])
            &&& !known ==> after.last() == (name@, role@)
        }),
{
    let before = old(table)@;
    let after = final(table)@;
    lemma_place_of(before, name@);
    match place_of(before, name@) {
        Some(k) => {
            assert(before[k].0 == name@);
            assert(after[k] == (name@, role@));
        },
        None => {
            assert(after[before.len() as int] == (name@, role@));
        },
    }
}

/// Putting a role under a name changes what is found under that name alone.
pub proof fn lemma_role_put(
    t: Seq<(Seq<char>, RoleView)>,
    key: Seq<char>,
    role: RoleView,
    name: Seq<char>,
)
    requires
        distinct_names(t),
    ensures
        distinct_names(with_role(t, key, role)),
        role_named(with_role(t, key, role), name) == if name == key {
            Some(role)
        } else {
            role_named(t, name)
        },
        with_role(t, key, role).len() >= t.len(),
        forall|i: int| 0 <= i < t.len() ==> (#[trigger] with_role(t, key, role)[i]).0 == t[i].0,
{
    let after = with_role(t, key, role);
    lemma_place_of(t, key);
    law_role_under_a_name(t, name);
    let at = match place_of(t, key) {
        Some(k) => k,
        None => t.len() as int,
    };
    assert(after[at] == (key, role));
    assert(forall|i: int| 0 <= i < t.len() && i != at ==> after[i] == t[i]);
    assert(forall|i: int| 0 <= i < t.len() && i != at ==> t[i].0 != key);
    assert(distinct_names(after));
    law_role_under_a_name(after, name);
    if name == key {
        assert(after[at].0 == name);
    } else if role_named(t, name) is Some {
        let i = choose|i: int| 0 <= i < t.len() && (#[trigger] t[i]).0 == name;
        assert(after[i].0 == name);
        assert(after[i] == t[i]);
    } else if role_named(after, name) is Some {
        let i = choose|i: int| 0 <= i < after.len() && (#[trigger] after[i]).0 == name;
        assert(i != at);
        assert(t[i].0 == name);
    }
}

/// With all of `more` put into a table, each name of `more` has the role that it
/// has there, and every other name what it had.
pub proof fn lemma_roles_put(
    t: Seq<(Seq<char>, RoleView)>,
    more: Seq<(Seq<char>, RoleView)>,
    name: Seq<char>,
)
    requires
        distinct_names(t),
    ensures
        distinct_names(with_roles(t, more)),
        role_named(with_roles(t, more), name) == match role_named(more, name) {
            Some(role) => Some(role),
            None => role_named(t, name),
        },
        with_roles(t, more).len() >= t.len(),
        forall|i: int| 0 <= i < t.len() ==> (#[trigger] with_roles(t, more)[i]).0 == t[i].0,
    decreases more.len(),
{
    if more.len() > 0 {
        let first = more.drop_last();
        lemma_roles_put(t, first, name);
        lemma_place_of(first, name);
        lemma_role_put(with_roles(t, first), more.last().0, more.last().1, name);
        assert forall|i: int| 0 <= i < t.len() implies (#[trigger] with_roles(t, more)[i]).0
            == t[i].0 by {
            assert(with_roles(t, first)[i].0 == t[i].0);
        }
    }
}

/// A fragment that is laid over a policy takes nothing away and adds all that it
/// holds: its pods and enrollments come behind those of the policy, in order, each
/// of its roles is found under its name, every other role stays, and no role loses
/// its place.
pub proof fn law_merge_adds_all(
    config: &mut PolicyConfig,
    fragment: PolicyConfig,
    name: Seq<char>,
    i: int,
)
    requires
        old(config).wf(),
        call_ensures(PolicyConfig::merge, (config, fragment), ()),
    ensures
        final(config).pods@.len() == old(config).pods@.len() + fragment.pods@.len(),
        0 <= i < old(config).pods@.len() ==> final(config).pods@[i]@ == old(config).pods@[i]@,
        0 <= i < fragment.pods@.len() ==> final(config).pods@[old(config).pods@.len() + i]@
            == fragment.pods@[i]@,
        final(config).exec_enrollments@.len() == old(config).exec_enrollments@.len()
            + fragment.exec_enrollments@.len(),
        0 <= i < old(config).exec_enrollments@.len() ==> final(config).exec_enrollments@[i]@
            == old(config).exec_enrollments@[i]@,
        0 <= i < fragment.exec_enrollments@.len() ==> final(
            config).exec_enrollments@[old(config).exec_enrollments@.len() + i]@
            == fragment.exec_enrollments@[i]@,
        final(config).cgroup_enrollments@.len() == old(config).cgroup_enrollments@.len()
            + fragment.cgroup_enrollments@.len(),
        0 <= i < old(config).cgroup_enrollments@.len() ==> final(config).cgroup_enrollments@[i]@
            == old(config).cgroup_enrollments@[i]@,
        0 <= i < fragment.cgroup_enrollments@.len() ==> final(
            config).cgroup_enrollments@[old(config).cgroup_enrollments@.len() + i]@
            == fragment.cgroup_enrollments@[i]@,
        role_named(final(config).roles@, name) == match role_named(fragment.roles@, name) {
            Some(role) => Some(role),
            None => role_named(old(config).roles@, name),
        },
        0 <= i < old(config).roles@.len() ==> i < final(config).roles@.len()
            && final(config).roles@[i].0 == old(config).roles@[i].0,
{
    let before = old(config)@;
    let after = final(config)@;
    let more = fragment@;
    lemma_roles_put(before.roles, more.roles, name);
    assert(after.pods.len() == before.pods.len() + more.pods.len());
    assert(after.exec_enrollments.len() == before.exec_enrollments.len()
        + more.exec_enrollments.len());
    assert(after.cgroup_enrollments.len() == before.cgroup_enrollments.len()
        + more.cgroup_enrollments.len());
    if 0 <= i < before.pods.len() {
        assert(after.pods[i] == before.pods[i]);
    }
    if 0 <= i < more.pods.len() {
        assert(after.pods[before.pods.len() + i] == more.pods[i]);
    }
    if 0 <= i < before.exec_enrollments.len() {
        assert(after.exec_enrollments[i] == before.exec_enrollments[i]);
    }
    if 0 <= i < more.exec_enrollments.len() {
        assert(after.exec_enrollments[before.exec_enrollments.len() + i]
            == more.exec_enrollments[i]);
    }
    if 0 <= i < before.cgroup_enrollments.len() {
        assert(after.cgroup_enrollments[i] == before.cgroup_enrollments[i]);
    }
    if 0 <= i < more.cgroup_enrollments.len() {
        assert(after.cgroup_enrollments[before.cgroup_enrollments.len() + i]
            == more.cgroup_enrollments[i]);
    }
}

} // verus!
