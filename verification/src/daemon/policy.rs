//! The policy in force: default roles, the policy file with its drop-in
//! fragments, and the extensions of the users.

use crate::common::{
    copy_rules, distinct_names, lemma_place_of, overlaid, place_of, role_named, rules, with_role,
    with_roles, EnrollmentView, PathPattern, PathPatternView, PodId, PolicyConfig, PolicyConfigView,
    PolicyFlags, Role, RoleId, RoleView,
};
use crate::daemon::user_extensions::{
    conflicts, extension_rules, extensions_of, law_extensions_only_tighten, load_all,
    loaded_configs, LoadedConfig, LoadedConfigView,
};
use crate::text::{texts, with_text};
use std::collections::HashMap;
use std::sync::Arc;
use vstd::prelude::*;

verus! {

/// Where the fragments of the policy stand.
pub const DROP_IN_DIR: &'static str = "/etc/icb/sandbox/policy.d";

/// The byte string `a` stands before `b` in the dictionary, or is the same.
pub open spec fn in_order(a: Seq<u8>, b: Seq<u8>) -> bool
    decreases a.len(),
{
    if a.len() == 0 {
        true
    } else if b.len() == 0 {
        false
    } else {
        a[0] < b[0] || (a[0] == b[0] && in_order(a.drop_first(), b.drop_first()))
    }
}

/// A file name that ends in `.toml` and has something before it.
pub open spec fn is_fragment_name(name: Seq<u8>) -> bool {
    name.len() > 5 && name.skip(name.len() - 5) == fragment_suffix()
}

/// The bytes of `.toml`.
pub open spec fn fragment_suffix() -> Seq<u8> {
    seq![0x2e, 0x74, 0x6f, 0x6d, 0x6c]
}

/// The byte strings of a list.
pub open spec fn byte_strings(v: Seq<Vec<u8>>) -> Seq<Seq<u8>> {
    v.map_values(|b: Vec<u8>| b@)
}

/// Each name stands in order with all that follow it.
pub open spec fn sorted(names: Seq<Seq<u8>>) -> bool {
    forall|i: int, j: int| 0 <= i < j < names.len() ==> in_order(names[i], names[j])
}

proof fn lemma_in_order_total(a: Seq<u8>, b: Seq<u8>)
    ensures
        in_order(a, b) || in_order(b, a),
    decreases a.len(),
{
    if a.len() > 0 && b.len() > 0 && a[0] == b[0] {
        lemma_in_order_total(a.drop_first(), b.drop_first());
    }
}

proof fn lemma_in_order_transitive(a: Seq<u8>, b: Seq<u8>, c: Seq<u8>)
    requires
        in_order(a, b),
        in_order(b, c),
    ensures
        in_order(a, c),
    decreases a.len(),
{
    if a.len() > 0 && b.len() > 0 && c.len() > 0 && a[0] == b[0] && b[0] == c[0] {
        lemma_in_order_transitive(a.drop_first(), b.drop_first(), c.drop_first());
    }
}

/// Whether `a` stands in order with `b`.
fn ordered(a: &Vec<u8>, b: &Vec<u8>) -> (r: bool)
    ensures
        r == in_order(a@, b@),
{
    let mut i: usize = 0;
    assert(a@.skip(0) =~= a@);
    assert(b@.skip(0) =~= b@);
    while i < a.len()
        invariant
            0 <= i <= a@.len(),
            i <= b@.len(),
            in_order(a@, b@) == in_order(a@.skip(i as int), b@.skip(i as int)),
        decreases a@.len() - i,
    {
        if i >= b.len() {
            return false;
        }
        assert(a@.skip(i as int).drop_first() =~= a@.skip(i + 1));
        assert(b@.skip(i as int).drop_first() =~= b@.skip(i + 1));
        if a[i] < b[i] {
            return true;
        }
        if a[i] > b[i] {
            return false;
        }
        i = i + 1;
    }
    true
}

/// Whether a file name is that of a fragment.
fn names_fragment(name: &Vec<u8>) -> (r: bool)
    ensures
        r == is_fragment_name(name@),
{
    let n: usize = name.len();
    if n <= 5 {
        return false;
    }
    let r = name[n - 5] == 0x2e && name[n - 4] == 0x74 && name[n - 3] == 0x6f && name[n - 2] == 0x6d
        && name[n - 1] == 0x6c;
    proof {
        let end = name@.skip(n - 5);
        assert(forall|k: int| 0 <= k < 5 ==> end[k] == name@[n - 5 + k]);
        assert(end[0] == name@[n - 5] && end[1] == name@[n - 4] && end[2] == name@[n - 3]
            && end[3] == name@[n - 2] && end[4] == name@[n - 1]);
        if r {
            assert(end =~= fragment_suffix());
        }
    }
    r
}

/// Putting a name into a sorted list behind those that stand in order with it.
proof fn lemma_insert_sorted(s: Seq<Seq<u8>>, p: int, x: Seq<u8>)
    requires
        sorted(s),
        0 <= p <= s.len(),
        forall|i: int| 0 <= i < p ==> in_order(#[trigger] s[i], x),
        p < s.len() ==> !in_order(s[p], x),
    ensures
        sorted(s.insert(p, x)),
        s.insert(p, x).to_multiset() == s.to_multiset().insert(x),
{
    let t = s.insert(p, x);
    assert forall|i: int, j: int| 0 <= i < j < t.len() implies in_order(t[i], t[j]) by {
        if i == p {
            assert(t[j] == s[j - 1]);
            lemma_in_order_total(s[p], x);
            if j - 1 > p {
                lemma_in_order_transitive(x, s[p], s[j - 1]);
            }
        } else if j == p {
            assert(t[i] == s[i]);
        } else {
            let a = if i < p {
                i
            } else {
                i - 1
            };
            let b = if j < p {
                j
            } else {
                j - 1
            };
            assert(t[i] == s[a] && t[j] == s[b]);
        }
    }
    assert(t.remove(p) =~= s);
    broadcast use vstd::seq_lib::group_to_multiset_ensures;

    assert(t[p] == x);
    assert(t.remove(p).to_multiset() == t.to_multiset().remove(x));
    assert(t.contains(x));
    assert(t.to_multiset().count(x) > 0);
    assert(t.to_multiset() =~= s.to_multiset().insert(x));
}

/// The names of the fragments among the names of a directory, in the order in
/// which the fragments are laid over the policy.
pub fn select_drop_ins(names: &Vec<Vec<u8>>) -> (r: Vec<Vec<u8>>)
    ensures
        sorted(byte_strings(r@)),
        byte_strings(r@).to_multiset() == byte_strings(names@).filter(
            |n: Seq<u8>| is_fragment_name(n),
        ).to_multiset(),
{
    let ghost all = byte_strings(names@);
    let ghost wanted = |n: Seq<u8>| is_fragment_name(n);
    let mut r: Vec<Vec<u8>> = Vec::new();
    proof {
        reveal(Seq::filter);
        assert(byte_strings(r@) =~= all.take(0).filter(wanted));
    }
    let mut i: usize = 0;
    while i < names.len()
        invariant
            all == byte_strings(names@),
            0 <= i <= names@.len(),
            sorted(byte_strings(r@)),
            byte_strings(r@).to_multiset() == all.take(i as int).filter(wanted).to_multiset(),
            wanted == (|n: Seq<u8>| is_fragment_name(n)),
        decreases names@.len() - i,
    {
        let ghost before = byte_strings(r@);
        proof {
            reveal(Seq::filter);
            broadcast use vstd::seq_lib::group_to_multiset_ensures;

            assert(all.take(i + 1).drop_last() =~= all.take(i as int));
            assert(all[i as int] == names@[i as int]@);
        }
        if names_fragment(&names[i]) {
            let mut p: usize = 0;
            while p < r.len() && ordered(&r[p], &names[i])
                invariant
                    i < names@.len(),
                    0 <= p <= r@.len(),
                    before == byte_strings(r@),
                    forall|k: int| 0 <= k < p ==> in_order(#[trigger] before[k], names@[i as int]@),
                decreases r@.len() - p,
            {
                p = p + 1;
            }
            proof {
                if p < before.len() {
                    assert(before[p as int] == r@[p as int]@);
                }
                lemma_insert_sorted(before, p as int, names@[i as int]@);
            }
            let copy = names[i].clone();
            assert(copy@ =~= names@[i as int]@);
            r.insert(p, copy);
            assert(byte_strings(r@) =~= before.insert(p as int, names@[i as int]@));
        }
        i = i + 1;
    }
    assert(all.take(i as int) =~= all);
    r
}

/// The order of the fragments is the only one that keeps to the dictionary,
/// whatever the order in which the directory lists them.
pub proof fn law_order_of_fragments_is_unique(a: Seq<Seq<u8>>, b: Seq<Seq<u8>>)
    requires
        sorted(a),
        sorted(b),
        a.to_multiset() == b.to_multiset(),
    ensures
        a == b,
{
    let leq = |x: Seq<u8>, y: Seq<u8>| in_order(x, y);
    assert(vstd::relations::total_ordering(leq)) by {
        assert forall|x: Seq<u8>| #[trigger] leq(x, x) by {
            lemma_in_order_total(x, x);
        }
        assert forall|x: Seq<u8>, y: Seq<u8>| #[trigger] leq(x, y) && #[trigger] leq(
            y,
            x,
        ) implies x == y by {
            lemma_in_order_antisymmetric(x, y);
        }
        assert forall|x: Seq<u8>, y: Seq<u8>, z: Seq<u8>| #[trigger] leq(x, y) && #[trigger] leq(
            y,
            z,
        ) implies leq(x, z) by {
            lemma_in_order_transitive(x, y, z);
        }
        assert forall|x: Seq<u8>, y: Seq<u8>| #[trigger] leq(x, y) || #[trigger] leq(y, x) by {
            lemma_in_order_total(x, y);
        }
    }
    assert(vstd::relations::sorted_by(a, leq));
    assert(vstd::relations::sorted_by(b, leq));
    vstd::seq_lib::lemma_sorted_unique(a, b, leq);
}

proof fn lemma_in_order_antisymmetric(a: Seq<u8>, b: Seq<u8>)
    requires
        in_order(a, b),
        in_order(b, a),
    ensures
        a == b,
    decreases a.len(),
{
    if a.len() > 0 && b.len() > 0 {
        lemma_in_order_antisymmetric(a.drop_first(), b.drop_first());
        assert(a =~= seq![a[0]] + a.drop_first());
        assert(b =~= seq![b[0]] + b.drop_first());
    } else {
        assert(a =~= b);
    }
}

/// The roles of a table by number. Where two roles have one number, the later
/// one has it.
pub open spec fn by_number(t: Seq<(Seq<char>, RoleView)>) -> Map<u32, RoleView>
    decreases t.len(),
{
    if t.len() == 0 {
        Map::empty()
    } else {
        by_number(t.drop_last()).insert(t.last().1.id.0, t.last().1)
    }
}

/// Every role of a table can be found by its number, and every role that is
/// found by a number has it and stands in the table.
pub proof fn lemma_by_number(t: Seq<(Seq<char>, RoleView)>)
    ensures
        forall|i: int| 0 <= i < t.len() ==> by_number(t).contains_key((#[trigger] t[i]).1.id.0),
        forall|id: u32| #[trigger]
            by_number(t).contains_key(id) ==> by_number(t)[id].id.0 == id && exists|i: int|
                0 <= i < t.len() && (#[trigger] t[i]).1 == by_number(t)[id],
    decreases t.len(),
{
    if t.len() > 0 {
        let before = t.drop_last();
        lemma_by_number(before);
        assert forall|i: int| 0 <= i < t.len() implies by_number(t).contains_key(
            (#[trigger] t[i]).1.id.0,
        ) by {
            if i < before.len() {
                assert(before[i] == t[i]);
            }
        }
        assert forall|id: u32| #[trigger] by_number(t).contains_key(id) implies by_number(
            t,
        )[id].id.0 == id && exists|i: int|
            0 <= i < t.len() && (#[trigger] t[i]).1 == by_number(t)[id] by {
            if id == t.last().1.id.0 {
                assert(t[t.len() - 1].1 == by_number(t)[id]);
            } else {
                assert(before.len() < t.len());
                let i = choose|i: int|
                    0 <= i < before.len() && (#[trigger] before[i]).1 == by_number(before)[id];
                assert(t[i].1 == by_number(t)[id]);
            }
        }
    }
}

/// The path, the pod and the role of an enrollment, if its role exists.
pub open spec fn resolved(roles: Seq<(Seq<char>, RoleView)>) -> spec_fn(EnrollmentView) -> Option<
    (Seq<char>, PodId, RoleId),
> {
    |e: EnrollmentView|
        match role_named(roles, e.role) {
            Some(role) => Some((e.path, PodId(e.pod_id), role.id)),
            None => None,
        }
}

/// Paths with a pod and a role, as text.
pub open spec fn bindings(v: Seq<(String, PodId, RoleId)>) -> Seq<(Seq<char>, PodId, RoleId)> {
    v.map_values(|b: (String, PodId, RoleId)| (b.0@, b.1, b.2))
}

/// A policy with fragments laid over it, one after the other.
pub open spec fn with_fragments(
    base: PolicyConfigView,
    fragments: Seq<PolicyConfigView>,
) -> PolicyConfigView
    decreases fragments.len(),
{
    if fragments.len() == 0 {
        base
    } else {
        overlaid(with_fragments(base, fragments.drop_last()), fragments.last())
    }
}

/// The policy in a file, if it could be had.
pub open spec fn readable() -> spec_fn(Result<PolicyConfig, PolicyFileError>) -> Option<
    PolicyConfigView,
> {
    |r: Result<PolicyConfig, PolicyFileError>|
        match r {
            Ok(c) => Some(c@),
            Err(_) => None,
        }
}

/// The policies in some files, as far as they could be had.
pub open spec fn policies(v: Seq<Result<PolicyConfig, PolicyFileError>>) -> Seq<PolicyConfigView> {
    v.filter_map(readable())
}

/// The extensions of some users, one user after the other.
pub open spec fn chained(
    extensions: Map<u32, Seq<PathPatternView>>,
    uids: Seq<u32>,
) -> Seq<PathPatternView>
    decreases uids.len(),
{
    if uids.len() == 0 {
        Seq::empty()
    } else {
        chained(extensions, uids.drop_last()) + extensions[uids.last()]
    }
}

/// Why the policy file could not be had.
#[derive(Debug)]
pub enum PolicyFileError {
    Unreadable(String),
    Malformed(String),
}

/// The message about a policy file that could not be had.
pub open spec fn policy_error(e: PolicyFileError) -> Seq<char> {
    match e {
        PolicyFileError::Unreadable(why) => why@,
        PolicyFileError::Malformed(why) => "policy parse error: "@ + why@,
    }
}

/// The policy in force.
pub struct PolicyState {
    pub config: PolicyConfigView,
    pub loaded_path: Seq<char>,
    pub extensions: Map<u32, Seq<PathPatternView>>,
}

impl PolicyState {
    /// The role with a number.
    pub open spec fn role(self, id: RoleId) -> Option<RoleView> {
        if by_number(self.config.roles).contains_key(id.0) {
            Some(by_number(self.config.roles)[id.0])
        } else {
            None
        }
    }

    /// The role with a name: the one that has the number that goes with the name.
    pub open spec fn role_by_name(self, name: Seq<char>) -> Option<RoleView> {
        match role_named(self.config.roles, name) {
            Some(role) => self.role(role.id),
            None => None,
        }
    }

    /// The rules that a user added.
    pub open spec fn user_rules(self, uid: Option<u32>) -> Seq<PathPatternView> {
        match uid {
            Some(uid) => if self.extensions.contains_key(uid) {
                self.extensions[uid]
            } else {
                Seq::empty()
            },
            None => Seq::empty(),
        }
    }

    /// The path rules of a role for a user: those of the role, then the user's.
    pub open spec fn effective_paths(self, id: RoleId, uid: Option<u32>) -> Seq<PathPatternView> {
        match self.role(id) {
            Some(role) => role.file_paths + self.user_rules(uid),
            None => Seq::empty(),
        }
    }
}

impl PolicyState {
    /// The path rules of a role with those of all users behind them, the users in
    /// some order.
    pub open spec fn paths_of_all(self, id: RoleId, paths: Seq<PathPatternView>) -> bool {
        match self.role(id) {
            Some(role) => exists|uids: Seq<u32>|
                {
                    &&& uids.no_duplicates()
                    &&& uids.to_set() == self.extensions.dom()
                    &&& paths == role.file_paths + #[trigger] chained(self.extensions, uids)
                },
            None => paths.len() == 0,
        }
    }
}

/// A role without rules.
pub open spec fn bare_role(id: u32, name: Seq<char>, flags: PolicyFlags) -> RoleView {
    RoleView {
        id: RoleId(id),
        name,
        flags,
        file_paths: Seq::empty(),
        network_rules: Seq::empty(),
        execution_rules: Seq::empty(),
        require_signed_binary: false,
        ip_rules: Seq::empty(),
        domain_rules: Seq::empty(),
        proxy: None,
    }
}

/// The flags of the role that nothing is allowed to.
pub open spec fn restricted_flags() -> PolicyFlags {
    PolicyFlags {
        allow_file_access: false,
        allow_network: false,
        allow_exec: false,
        require_signed_binary: false,
        allow_setuid: false,
        allow_ptrace: false,
        allow_module_load: false,
        allow_bpf_load: false,
        require_proxy: false,
    }
}

/// The flags of the permissive role: everything but changing the user and
/// tracing other processes.
pub open spec fn permissive_flags() -> PolicyFlags {
    PolicyFlags {
        allow_file_access: true,
        allow_network: true,
        allow_exec: true,
        require_signed_binary: false,
        allow_setuid: false,
        allow_ptrace: false,
        allow_module_load: true,
        allow_bpf_load: true,
        require_proxy: false,
    }
}

/// The policy before any file is read.
pub open spec fn default_policy() -> PolicyState {
    PolicyState {
        config: PolicyConfigView {
            roles: seq![
                ("restricted"@, bare_role(1, "restricted"@, restricted_flags())),
                ("permissive"@, bare_role(2, "permissive"@, permissive_flags())),
            ],
            pods: Seq::empty(),
            exec_enrollments: Seq::empty(),
            cgroup_enrollments: Seq::empty(),
        },
        loaded_path: "(defaults)"@,
        extensions: Map::empty(),
    }
}

/// A role without rules.
fn make_bare_role(id: u32, name: &str, flags: PolicyFlags) -> (r: Role)
    ensures
        r@ == bare_role(id, name@, flags),
{
    let r = Role {
        id: RoleId(id),
        name: name.to_owned(),
        flags,
        file_paths: Vec::new(),
        network_rules: Vec::new(),
        execution_rules: Vec::new(),
        require_signed_binary: false,
        ip_rules: Vec::new(),
        domain_rules: Vec::new(),
        proxy: None,
    };
    assert(r@.file_paths =~= Seq::empty());
    assert(r@.network_rules =~= Seq::empty());
    assert(r@.execution_rules =~= Seq::empty());
    assert(r@.ip_rules =~= Seq::empty());
    assert(r@.domain_rules =~= Seq::empty());
    r
}

/// Roles by number.
pub open spec fn role_views(m: Map<u32, Arc<Role>>) -> Map<u32, RoleView> {
    m.map_values(|r: Arc<Role>| r@)
}

/// Keeps the policy in force and answers questions about it.
pub struct PolicyManager {
    config: PolicyConfig,
    role_map: HashMap<u32, Arc<Role>>,
    loaded_path: String,
    extensions: HashMap<u32, Vec<PathPattern>>,
}

impl View for PolicyManager {
    type V = PolicyState;

    closed spec fn view(&self) -> PolicyState {
        PolicyState {
            config: self.config@,
            loaded_path: self.loaded_path@,
            extensions: extension_rules(self.extensions@),
        }
    }
}

impl PolicyManager {
    /// The roles by number are those of the configuration.
    pub closed spec fn wf(&self) -> bool {
        &&& self.config.wf()
        &&& role_views(self.role_map@) == by_number(self.config@.roles)
    }

    /// The policy before any file is read, with two roles to begin with.
    pub fn new() -> (r: Result<PolicyManager, String>)
        ensures
            r is Ok,
            r->Ok_0.wf(),
            r->Ok_0@ == default_policy(),
    {
        let mut config = PolicyConfig::new();
        let restricted = make_bare_role(
            1,
            "restricted",
            PolicyFlags {
                allow_file_access: false,
                allow_network: false,
                allow_exec: false,
                require_signed_binary: false,
                allow_setuid: false,
                allow_ptrace: false,
                allow_module_load: false,
                allow_bpf_load: false,
                require_proxy: false,
            },
        );
        let permissive = make_bare_role(
            2,
            "permissive",
            PolicyFlags {
                allow_file_access: true,
                allow_network: true,
                allow_exec: true,
                require_signed_binary: false,
                allow_setuid: false,
                allow_ptrace: false,
                allow_module_load: true,
                allow_bpf_load: true,
                require_proxy: false,
            },
        );
        proof {
            reveal_strlit("restricted");
            reveal_strlit("permissive");
            assert("restricted"@[0] != "permissive"@[0]);
            lemma_place_of(config@.roles, "restricted"@);
        }
        config.roles.insert("restricted".to_owned(), restricted);
        proof {
            lemma_place_of(config@.roles, "permissive"@);
        }
        config.roles.insert("permissive".to_owned(), permissive);
        assert(config@.roles =~= default_policy().config.roles);
        let role_map = roles_by_number(&config);
        let pm = PolicyManager {
            config,
            role_map,
            loaded_path: "(defaults)".to_owned(),
            extensions: HashMap::new(),
        };
        assert(pm@.extensions =~= Map::empty());
        Ok(pm)
    }

    /// Takes over the policy that was read from `path`, with the fragments laid
    /// over it; a fragment that could not be had is passed over. Where the file
    /// itself could not be had, only the path is noted and the policy stays as it
    /// was.
    pub fn load_from_file(
        &mut self,
        path: &str,
        loaded: Result<PolicyConfig, PolicyFileError>,
        fragments: Vec<Result<PolicyConfig, PolicyFileError>>,
    ) -> (r: Result<(), String>)
        requires
            old(self).wf(),
            loaded is Ok ==> loaded->Ok_0.wf(),
        ensures
            final(self).wf(),
            match loaded {
                Ok(base) => {
                    &&& r is Ok
                    &&& final(self)@ == (PolicyState {
                        config: with_fragments(base@, policies(fragments@)),
                        loaded_path: path@,
                        extensions: old(self)@.extensions,
                    })
                },
                Err(e) => {
                    &&& with_text(r) == Err::<(), Seq<char>>(policy_error(e))
                    &&& final(self)@ == (PolicyState { loaded_path: path@, ..old(self)@ })
                },
            },
    {
        self.loaded_path = path.to_owned();
        match loaded {
            Err(PolicyFileError::Unreadable(why)) => Err(why),
            Err(PolicyFileError::Malformed(why)) => {
                let mut m = "policy parse error: ".to_owned();
                m.append(why.as_str());
                Err(m)
            },
            Ok(base) => {
                let config = load_drop_ins(base, fragments);
                self.role_map = roles_by_number(&config);
                self.config = config;
                Ok(())
            },
        }
    }

    /// The role with a number.
    pub fn get_role(&self, role_id: RoleId) -> (r: Option<&Arc<Role>>)
        requires
            self.wf(),
        ensures
            match r {
                Some(role) => self@.role(role_id) == Some(role@),
                None => self@.role(role_id) is None,
            },
    {
        let r = self.role_map.get(&role_id.0);
        proof {
            assert(role_views(self.role_map@).contains_key(role_id.0)
                == self.role_map@.contains_key(role_id.0));
        }
        r
    }

    /// The role with a name.
    pub fn get_role_by_name(&self, name: &str) -> (r: Option<&Arc<Role>>)
        requires
            self.wf(),
        ensures
            match r {
                Some(role) => self@.role_by_name(name@) == Some(role@),
                None => self@.role_by_name(name@) is None,
            },
            r is Some == role_named(self@.config.roles, name@) is Some,
    {
        match self.config.get_role(name) {
            Some(role) => {
                proof {
                    lemma_place_of(self@.config.roles, name@);
                    lemma_by_number(self@.config.roles);
                }
                self.get_role(role.id)
            },
            None => None,
        }
    }

    /// The configuration.
    pub fn config(&self) -> (config: &PolicyConfig)
        requires
            self.wf(),
        ensures
            config@ == self@.config,
            config.wf(),
    {
        &self.config
    }

    /// The executables that the policy binds to a role, as far as the role
    /// exists.
    pub fn get_exec_enrollments(&self) -> (r: Vec<(String, PodId, RoleId)>)
        ensures
            bindings(r@) == self@.config.exec_enrollments.filter_map(
                resolved(self@.config.roles),
            ),
    {
        let ghost all = self@.config.exec_enrollments;
        let ghost f = resolved(self@.config.roles);
        let mut r: Vec<(String, PodId, RoleId)> = Vec::new();
        assert(bindings(r@) =~= all.take(0).filter_map(f));
        let mut i: usize = 0;
        while i < self.config.exec_enrollments.len()
            invariant
                all == self@.config.exec_enrollments,
                f == resolved(self@.config.roles),
                0 <= i <= all.len(),
                bindings(r@) == all.take(i as int).filter_map(f),
            decreases all.len() - i,
        {
            let e = &self.config.exec_enrollments[i];
            let ghost before = bindings(r@);
            proof {
                all.lemma_filter_map_take_succ(f, i as int);
                assert(all[i as int] == e@);
            }
            match self.config.get_role(e.role.as_str()) {
                Some(role) => {
                    r.push((e.executable_path.clone(), PodId(e.pod_id), role.id));
                    assert(bindings(r@) =~= before + seq![
                        (e@.path, PodId(e@.pod_id), role@.id),
                    ]);
                },
                None => {},
            }
            i = i + 1;
            assert(bindings(r@) =~= all.take(i as int).filter_map(f));
        }
        assert(all.take(i as int) =~= all);
        r
    }

    /// The control groups that the policy binds to a role, as far as the role
    /// exists.
    pub fn get_cgroup_enrollments(&self) -> (r: Vec<(String, PodId, RoleId)>)
        ensures
            bindings(r@) == self@.config.cgroup_enrollments.filter_map(
                resolved(self@.config.roles),
            ),
    {
        let ghost all = self@.config.cgroup_enrollments;
        let ghost f = resolved(self@.config.roles);
        let mut r: Vec<(String, PodId, RoleId)> = Vec::new();
        assert(bindings(r@) =~= all.take(0).filter_map(f));
        let mut i: usize = 0;
        while i < self.config.cgroup_enrollments.len()
            invariant
                all == self@.config.cgroup_enrollments,
                f == resolved(self@.config.roles),
                0 <= i <= all.len(),
                bindings(r@) == all.take(i as int).filter_map(f),
            decreases all.len() - i,
        {
            let e = &self.config.cgroup_enrollments[i];
            let ghost before = bindings(r@);
            proof {
                all.lemma_filter_map_take_succ(f, i as int);
                assert(all[i as int] == e@);
            }
            match self.config.get_role(e.role.as_str()) {
                Some(role) => {
                    r.push((e.cgroup_path.clone(), PodId(e.pod_id), role.id));
                    assert(bindings(r@) =~= before + seq![
                        (e@.path, PodId(e@.pod_id), role@.id),
                    ]);
                },
                None => {},
            }
            i = i + 1;
            assert(bindings(r@) =~= all.take(i as int).filter_map(f));
        }
        assert(all.take(i as int) =~= all);
        r
    }

    /// The names of the roles.
    pub fn role_names(&self) -> (r: Vec<String>)
        ensures
            texts(r@) == self@.config.roles.map_values(|e: (Seq<char>, RoleView)| e.0),
    {
        let ghost all = self@.config.roles.map_values(|e: (Seq<char>, RoleView)| e.0);
        let mut r: Vec<String> = Vec::new();
        let mut i: usize = 0;
        while i < self.config.roles.len()
            invariant
                all == self.config.roles@.map_values(|e: (Seq<char>, RoleView)| e.0),
                0 <= i <= all.len(),
                texts(r@) == all.take(i as int),
            decreases all.len() - i,
        {
            let ghost before = texts(r@);
            r.push(self.config.roles.name(i).clone());
            assert(texts(r@) =~= before.push(all[i as int]));
            assert(all.take(i + 1) =~= all.take(i as int).push(all[i as int]));
            i = i + 1;
        }
        assert(all.take(i as int) =~= all);
        r
    }

    /// The number of control groups that the policy binds to a role.
    pub fn cgroup_enrollment_count(&self) -> (n: usize)
        ensures
            n == self@.config.cgroup_enrollments.len(),
    {
        self.config.cgroup_enrollments.len()
    }

    /// The number of executables that the policy binds to a role.
    pub fn exec_enrollment_count(&self) -> (n: usize)
        ensures
            n == self@.config.exec_enrollments.len(),
    {
        self.config.exec_enrollments.len()
    }

    /// Where the policy was read from.
    pub fn policy_path(&self) -> (path: &str)
        ensures
            path@ == self@.loaded_path,
    {
        self.loaded_path.as_str()
    }

    /// Takes over the extensions of the users, in place of those before. Returns
    /// all complaints about files that were left out.
    pub fn load_user_extensions(&mut self, configs: &Vec<LoadedConfig>) -> (errors: Vec<String>)
        requires
            old(self).wf(),
        ensures
            final(self).wf(),
            final(self)@ == (PolicyState {
                extensions: extensions_of(
                    loaded_configs(configs@),
                    old(self)@.config.roles,
                ).rules,
                ..old(self)@
            }),
            texts(errors@) == extensions_of(
                loaded_configs(configs@),
                old(self)@.config.roles,
            ).errors,
    {
        let (extensions, errors) = load_all(&self.config.roles, configs);
        self.extensions = extensions;
        errors
    }

    /// The path rules of a role, with those of a user behind them.
    pub fn effective_file_paths(&self, role_id: RoleId, uid: Option<u32>) -> (r: Vec<PathPattern>)
        requires
            self.wf(),
        ensures
            rules(r@) == self@.effective_paths(role_id, uid),
    {
        let mut paths = match self.get_role(role_id) {
            Some(role) => copy_rules(&role.file_paths),
            None => {
                let none: Vec<PathPattern> = Vec::new();
                assert(rules(none@) =~= self@.effective_paths(role_id, uid));
                return none;
            },
        };
        let ghost base = rules(paths@);
        if let Some(uid) = uid {
            if let Some(exts) = self.get_user_extensions(uid) {
                let mut more = copy_rules(exts);
                let ghost added = rules(more@);
                paths.append(&mut more);
                assert(rules(paths@) =~= base + added);
            }
        }
        assert(rules(paths@) =~= self@.effective_paths(role_id, uid));
        paths
    }

    /// The rules that a user added.
    pub fn get_user_extensions(&self, uid: u32) -> (r: Option<&Vec<PathPattern>>)
        ensures
            r is Some == self@.extensions.contains_key(uid),
            r matches Some(exts) ==> rules(exts@) == self@.extensions[uid],
    {
        let r = self.extensions.get(&uid);
        assert(extension_rules(self.extensions@).contains_key(uid)
            == self.extensions@.contains_key(uid));
        r
    }

    /// The number of users with rules of their own.
    pub fn extensions_count(&self) -> (n: usize)
        ensures
            n == self@.extensions.dom().len(),
    {
        assert(self@.extensions.dom() =~= self.extensions@.dom());
        self.extensions.len()
    }

    /// The rules of all users.
    pub fn all_extensions(&self) -> (r: &HashMap<u32, Vec<PathPattern>>)
        ensures
            extension_rules(r@) == self@.extensions,
    {
        &self.extensions
    }

    /// The path rules of a role, with those of every user behind them. The users
    /// come in no particular order.
    pub fn effective_file_paths_all(&self, role_id: RoleId) -> (r: Vec<PathPattern>)
        requires
            self.wf(),
        ensures
            self@.paths_of_all(role_id, rules(r@)),
    {
        let mut paths = match self.get_role(role_id) {
            Some(role) => copy_rules(&role.file_paths),
            None => {
                return Vec::new();
            },
        };
        let ghost base = rules(paths@);
        let ghost exts = self@.extensions;
        let ghost mut uids: Seq<u32> = Seq::empty();
        proof {
            assert(base + chained(exts, uids) =~= base);
            if self.extensions@.dom().len() == 0 {
                assert(self.extensions@.dom() =~= Set::empty());
                assert(uids.to_set() =~= Set::empty());
            }
        }
        for uid in it: self.extensions.keys()
            invariant
                exts == self@.extensions,
                uids == it.seq().unref().take(it.index() as int),
                it.seq().unref().to_set() == self.extensions@.dom(),
                it.seq().no_duplicates(),
                uids.no_duplicates(),
                it.index() == it.seq().len() ==> uids.to_set() == self.extensions@.dom(),
                rules(paths@) == base + chained(exts, uids),
        {
            proof {
                let all = it.seq().unref();
                let i = it.index() as int;
                assert(all[i] == *uid);
                assert(all.to_set().contains(*uid));
                uids = uids.push(*uid);
                assert(uids =~= all.take(i + 1));
                assert(uids.drop_last() =~= all.take(i));
                assert forall|a: int, b: int|
                    0 <= a < uids.len() && 0 <= b < uids.len() && a != b implies uids[a]
                    != uids[b] by {
                    assert(uids[a] == *it.seq()[a] && uids[b] == *it.seq()[b]);
                    assert(it.seq()[a] != it.seq()[b]);
                }
                assert(i + 1 == all.len() ==> uids =~= all);
            }
            if let Some(more) = self.get_user_extensions(*uid) {
                let mut more = copy_rules(more);
                let ghost held = rules(paths@);
                let ghost added = rules(more@);
                paths.append(&mut more);
                assert(rules(paths@) =~= held + added);
            }
            assert(rules(paths@) =~= base + chained(exts, uids));
        }
        proof {
            assert(self@.extensions.dom() =~= self.extensions@.dom());
            assert(rules(paths@) == base + chained(exts, uids));
        }
        paths
    }
}

/// Lays the fragments over the policy, one after the other.
fn load_drop_ins(
    base: PolicyConfig,
    fragments: Vec<Result<PolicyConfig, PolicyFileError>>,
) -> (config: PolicyConfig)
    requires
        base.wf(),
    ensures
        config.wf(),
        config@ == with_fragments(base@, policies(fragments@)),
{
    let ghost all = fragments@;
    let ghost f = readable();
    let ghost start = base@;
    let mut config = base;
    assert(all.take(0).filter_map(f) =~= Seq::empty());
    for fragment in it: fragments.into_iter()
        invariant
            config.wf(),
            it.seq() == all,
            f == readable(),
            config@ == with_fragments(start, all.take(it.index() as int).filter_map(f)),
    {
        let ghost before = all.take(it.index() as int).filter_map(f);
        proof {
            all.lemma_filter_map_take_succ(f, it.index() as int);
        }
        match fragment {
            Ok(c) => {
                let ghost more = c@;
                config.merge(c);
                proof {
                    let now = before + seq![more];
                    assert(now.drop_last() =~= before);
                    assert(now.last() == more);
                }
            },
            Err(_) => {
                assert(before + Seq::<PolicyConfigView>::empty() =~= before);
            },
        }
    }
    assert(all.take(all.len() as int) =~= all);
    config
}

/// The roles of a configuration by number.
fn roles_by_number(config: &PolicyConfig) -> (m: HashMap<u32, Arc<Role>>)
    ensures
        role_views(m@) == by_number(config@.roles),
{
    let ghost t = config@.roles;
    let mut m: HashMap<u32, Arc<Role>> = HashMap::new();
    assert(role_views(m@) =~= by_number(t.take(0)));
    let mut i: usize = 0;
    while i < config.roles.len()
        invariant
            t == config.roles@,
            0 <= i <= t.len(),
            role_views(m@) == by_number(t.take(i as int)),
        decreases t.len() - i,
    {
        assert(t.take(i + 1).drop_last() =~= t.take(i as int));
        let ghost before = role_views(m@);
        let role = config.roles.role(i).clone();
        let ghost r = role@;
        m.insert(role.id.0, Arc::new(role));
        assert(role_views(m@) =~= before.insert(r.id.0, r));
        i = i + 1;
    }
    assert(t.take(i as int) =~= t);
    m
}

/// A fragment that could not be had changes nothing, wherever it stands.
pub proof fn law_bad_fragment_is_passed_over(
    before: Seq<Result<PolicyConfig, PolicyFileError>>,
    bad: PolicyFileError,
    behind: Seq<Result<PolicyConfig, PolicyFileError>>,
)
    ensures
        policies(before.push(Err(bad)) + behind) == policies(before + behind),
    decreases behind.len(),
{
    let f = readable();
    if behind.len() == 0 {
        let all = before.push(Err(bad));
        let n = before.len() as int;
        all.lemma_filter_map_take_succ(f, n);
        assert(all.take(n + 1) =~= all);
        assert(all.take(n) =~= before);
        assert(all + behind =~= all);
        assert(before + behind =~= before);
    } else {
        let first = behind.drop_last();
        law_bad_fragment_is_passed_over(before, bad, first);
        let with = before.push(Err(bad)) + behind;
        let without = before + behind;
        let n = without.len() - 1;
        with.lemma_filter_map_take_succ(f, n + 1);
        without.lemma_filter_map_take_succ(f, n);
        assert(with.take(n + 2) =~= with);
        assert(without.take(n + 1) =~= without);
        assert(with.take(n + 1) =~= before.push(Err(bad)) + first);
        assert(without.take(n) =~= before + first);
        assert(with[n + 1] == without[n]);
    }
}

/// The order of the fragments counts: a role of a later fragment replaces one of
/// the same name, and a role that the fragment does not name stays.
pub proof fn law_later_fragment_wins(
    base: PolicyConfigView,
    fragment: PolicyConfigView,
    name: Seq<char>,
)
    ensures
        role_named(overlaid(base, fragment).roles, name) == match role_named(
            fragment.roles,
            name,
        ) {
            Some(role) => Some(role),
            None => role_named(base.roles, name),
        },
{
    lemma_with_roles(base.roles, fragment.roles, name);
}

proof fn lemma_with_roles(
    t: Seq<(Seq<char>, RoleView)>,
    more: Seq<(Seq<char>, RoleView)>,
    name: Seq<char>,
)
    ensures
        role_named(with_roles(t, more), name) == match role_named(more, name) {
            Some(role) => Some(role),
            None => role_named(t, name),
        },
    decreases more.len(),
{
    if more.len() > 0 {
        lemma_with_roles(t, more.drop_last(), name);
        lemma_with_role(
            with_roles(t, more.drop_last()),
            more.last().0,
            more.last().1,
            name,
        );
        lemma_place_of(more.drop_last(), name);
    }
}

/// Putting a role under a name changes what is found under that name alone.
proof fn lemma_with_role(
    t: Seq<(Seq<char>, RoleView)>,
    key: Seq<char>,
    role: RoleView,
    name: Seq<char>,
)
    ensures
        role_named(with_role(t, key, role), name) == if name == key {
            Some(role)
        } else {
            role_named(t, name)
        },
{
    lemma_place_of(t, key);
    match place_of(t, key) {
        Some(i) => {
            lemma_place_of_update(t, i, (key, role), name);
        },
        None => {
            assert(t.push((key, role)).drop_last() =~= t);
            lemma_place_of(t, name);
        },
    }
}

/// Replacing the role of an entry moves no name.
proof fn lemma_place_of_update(
    t: Seq<(Seq<char>, RoleView)>,
    i: int,
    entry: (Seq<char>, RoleView),
    name: Seq<char>,
)
    requires
        0 <= i < t.len(),
        t[i].0 == entry.0,
    ensures
        place_of(t.update(i, entry), name) == place_of(t, name),
        place_of(t, name) matches Some(k) ==> 0 <= k < t.len() && t[k].0 == name,
    decreases t.len(),
{
    lemma_place_of(t, name);
    let u = t.update(i, entry);
    if t.last().0 != name {
        if i == t.len() - 1 {
            assert(u.drop_last() =~= t.drop_last());
        } else {
            assert(u.drop_last() =~= t.drop_last().update(i, entry));
            lemma_place_of_update(t.drop_last(), i, entry, name);
        }
    }
}

/// With fragments laid over it one after the other, a policy has under each name
/// the role of the last fragment that names it, and its own role where none does.
pub proof fn law_last_fragment_decides(
    base: PolicyConfigView,
    fragments: Seq<PolicyConfigView>,
    name: Seq<char>,
    k: int,
)
    requires
        -1 <= k < fragments.len(),
        forall|j: int|
            k < j < fragments.len() ==> role_named((#[trigger] fragments[j]).roles, name) is None,
        k >= 0 ==> role_named(fragments[k].roles, name) is Some,
    ensures
        role_named(with_fragments(base, fragments).roles, name) == if k >= 0 {
            role_named(fragments[k].roles, name)
        } else {
            role_named(base.roles, name)
        },
    decreases fragments.len(),
{
    if fragments.len() > 0 {
        let before = fragments.drop_last();
        law_later_fragment_wins(with_fragments(base, before), fragments.last(), name);
        if k < fragments.len() - 1 {
            assert(role_named(fragments[fragments.len() - 1].roles, name) is None);
            assert forall|j: int| k < j < before.len() implies role_named(
                (#[trigger] before[j]).roles,
                name,
            ) is None by {
                assert(before[j] == fragments[j]);
            }
            law_last_fragment_decides(base, before, name, k);
        }
    }
}

/// Fragments take no enrollment away: those of the policy come first, in order.
pub proof fn law_enrollments_accumulate(base: PolicyConfigView, fragments: Seq<PolicyConfigView>)
    ensures
        base.exec_enrollments.is_prefix_of(with_fragments(base, fragments).exec_enrollments),
        base.cgroup_enrollments.is_prefix_of(with_fragments(base, fragments).cgroup_enrollments),
        base.pods.is_prefix_of(with_fragments(base, fragments).pods),
    decreases fragments.len(),
{
    if fragments.len() > 0 {
        law_enrollments_accumulate(base, fragments.drop_last());
    }
}

/// A role of the policy is found by its name, and where no other role has its
/// number, what is found is the role itself, by name as by number.
pub proof fn law_role_is_found(pm: PolicyState, i: int)
    requires
        distinct_names(pm.config.roles),
        0 <= i < pm.config.roles.len(),
    ensures
        pm.role_by_name(pm.config.roles[i].0) is Some,
        (forall|j: int|
            0 <= j < pm.config.roles.len() && j != i ==> (#[trigger] pm.config.roles[j]).1.id
                != pm.config.roles[i].1.id) ==> {
            &&& pm.role(pm.config.roles[i].1.id) == Some(pm.config.roles[i].1)
            &&& pm.role_by_name(pm.config.roles[i].0) == Some(pm.config.roles[i].1)
        },
{
    let t = pm.config.roles;
    lemma_place_of(t, t[i].0);
    lemma_by_number(t);
    let k = place_of(t, t[i].0)->Some_0;
    assert(k == i) by {
        if k < i {
            assert(t[k].0 != t[i].0);
        }
        if i < k {
            assert(t[i].0 != t[k].0);
        }
    }
    let id = t[i].1.id.0;
    assert(by_number(t).contains_key(id));
}

/// An enrollment that the policy puts in force binds its path to a role that the
/// policy has.
pub proof fn law_enrollments_bind_known_roles(
    pm: PolicyState,
    enrollments: Seq<EnrollmentView>,
    i: int,
)
    requires
        0 <= i < enrollments.filter_map(resolved(pm.config.roles)).len(),
    ensures
        pm.role(enrollments.filter_map(resolved(pm.config.roles))[i].2) is Some,
    decreases enrollments.len(),
{
    let f = resolved(pm.config.roles);
    if enrollments.len() > 0 {
        let n = enrollments.len() - 1;
        enrollments.lemma_filter_map_take_succ(f, n);
        assert(enrollments.take(n + 1) =~= enrollments);
        let before = enrollments.take(n);
        let e = enrollments[n];
        if i < before.filter_map(f).len() {
            law_enrollments_bind_known_roles(pm, before, i);
        } else {
            lemma_place_of(pm.config.roles, e.role);
            lemma_by_number(pm.config.roles);
        }
    } else {
        assert(enrollments =~= Seq::empty());
        assert(enrollments.filter_map(f).len() == 0);
    }
}

/// The rule denies, is not locked, and overlaps no locked rule of any role.
pub open spec fn only_tightens(rule: PathPatternView, roles: Seq<(Seq<char>, RoleView)>) -> bool {
    &&& !rule.allow
    &&& !rule.lockdown
    &&& forall|r: int, k: int|
        0 <= r < roles.len() && 0 <= k < roles[r].1.file_paths.len() ==> !conflicts(
            rule,
            #[trigger] roles[r].1.file_paths[k],
        )
}

/// The global policy wins: for whatever user, the rules of a role stay in force
/// as they are, and a rule that the user adds behind them denies, is not locked,
/// and overlaps no locked rule of any role.
pub proof fn law_user_rules_only_tighten(
    pm: PolicyState,
    configs: Seq<LoadedConfigView>,
    id: RoleId,
    uid: u32,
)
    requires
        pm.role(id) is Some,
        pm.extensions == extensions_of(configs, pm.config.roles).rules,
    ensures
        ({
            let base = pm.role(id)->Some_0.file_paths;
            let all = pm.effective_paths(id, Some(uid));
            &&& base.is_prefix_of(all)
            &&& forall|i: int|
                base.len() <= i < all.len() ==> only_tightens(#[trigger] all[i], pm.config.roles)
        }),
{
    let base = pm.role(id)->Some_0.file_paths;
    let all = pm.effective_paths(id, Some(uid));
    assert forall|i: int| base.len() <= i < all.len() implies only_tightens(
        #[trigger] all[i],
        pm.config.roles,
    ) by {
        let at = i - base.len();
        assert(all[i] == pm.extensions[uid][at]);
        law_extensions_only_tighten(configs, pm.config.roles, uid, at);
    }
}

/// The same holds of the rules of all users together.
pub proof fn law_rules_of_all_only_tighten(
    pm: PolicyState,
    configs: Seq<LoadedConfigView>,
    id: RoleId,
    paths: Seq<PathPatternView>,
)
    requires
        pm.role(id) is Some,
        pm.paths_of_all(id, paths),
        pm.extensions == extensions_of(configs, pm.config.roles).rules,
    ensures
        ({
            let base = pm.role(id)->Some_0.file_paths;
            &&& base.is_prefix_of(paths)
            &&& forall|i: int|
                base.len() <= i < paths.len() ==> only_tightens(
                    #[trigger] paths[i],
                    pm.config.roles,
                )
        }),
{
    let base = pm.role(id)->Some_0.file_paths;
    let uids = choose|uids: Seq<u32>|
        {
            &&& uids.no_duplicates()
            &&& uids.to_set() == pm.extensions.dom()
            &&& paths == base + #[trigger] chained(pm.extensions, uids)
        };
    assert forall|k: int| 0 <= k < uids.len() implies pm.extensions.contains_key(
        #[trigger] uids[k],
    ) by {
        assert(uids.to_set().contains(uids[k]));
    }
    assert forall|i: int| base.len() <= i < paths.len() implies only_tightens(
        #[trigger] paths[i],
        pm.config.roles,
    ) by {
        lemma_chained_tightens(pm, configs, uids, i - base.len());
    }
}

proof fn lemma_chained_tightens(
    pm: PolicyState,
    configs: Seq<LoadedConfigView>,
    uids: Seq<u32>,
    i: int,
)
    requires
        pm.extensions == extensions_of(configs, pm.config.roles).rules,
        forall|k: int| 0 <= k < uids.len() ==> pm.extensions.contains_key(#[trigger] uids[k]),
        0 <= i < chained(pm.extensions, uids).len(),
    ensures
        only_tightens(chained(pm.extensions, uids)[i], pm.config.roles),
    decreases uids.len(),
{
    if uids.len() > 0 {
        let before = chained(pm.extensions, uids.drop_last());
        let uid = uids[uids.len() - 1];
        if i < before.len() {
            assert forall|k: int| 0 <= k < uids.drop_last().len() implies
                pm.extensions.contains_key(#[trigger] uids.drop_last()[k]) by {
                assert(uids.drop_last()[k] == uids[k]);
            }
            lemma_chained_tightens(pm, configs, uids.drop_last(), i);
        } else {
            assert(pm.extensions.contains_key(uid));
            law_extensions_only_tighten(configs, pm.config.roles, uid, i - before.len());
        }
    }
}

/// The enrollments of control groups in a file, none where it could not be had.
spec fn cgroups_in() -> spec_fn(Result<PolicyConfig, PolicyFileError>) -> Seq<EnrollmentView> {
    |f: Result<PolicyConfig, PolicyFileError>|
        match f {
            Ok(c) => c@.cgroup_enrollments,
            Err(_) => Seq::empty(),
        }
}

/// The enrollments of executables in a file, none where it could not be had.
spec fn execs_in() -> spec_fn(Result<PolicyConfig, PolicyFileError>) -> Seq<EnrollmentView> {
    |f: Result<PolicyConfig, PolicyFileError>|
        match f {
            Ok(c) => c@.exec_enrollments,
            Err(_) => Seq::empty(),
        }
}

/// The pods in a file, none where it could not be had.
spec fn pods_in() -> spec_fn(Result<PolicyConfig, PolicyFileError>) -> Seq<Seq<char>> {
    |f: Result<PolicyConfig, PolicyFileError>|
        match f {
            Ok(c) => c@.pods,
            Err(_) => Seq::empty(),
        }
}

/// Laying files over a policy puts their lists behind its own, one after the other.
proof fn lemma_lists_of_files(
    base: PolicyConfigView,
    files: Seq<Result<PolicyConfig, PolicyFileError>>,
)
    ensures
        with_fragments(base, policies(files)).cgroup_enrollments == base.cgroup_enrollments
            + files.map_values(cgroups_in()).flatten_alt(),
        with_fragments(base, policies(files)).exec_enrollments == base.exec_enrollments
            + files.map_values(execs_in()).flatten_alt(),
        with_fragments(base, policies(files)).pods == base.pods + files.map_values(
            pods_in(),
        ).flatten_alt(),
    decreases files.len(),
{
    let all = with_fragments(base, policies(files));
    let cgroups = files.map_values(cgroups_in());
    let execs = files.map_values(execs_in());
    let pods = files.map_values(pods_in());
    if files.len() == 0 {
        assert(policies(files) =~= Seq::empty());
        assert(all.cgroup_enrollments =~= base.cgroup_enrollments + cgroups.flatten_alt());
        assert(all.exec_enrollments =~= base.exec_enrollments + execs.flatten_alt());
        assert(all.pods =~= base.pods + pods.flatten_alt());
    } else {
        let first = files.drop_last();
        lemma_lists_of_files(base, first);
        assert(cgroups.drop_last() =~= first.map_values(cgroups_in()));
        assert(execs.drop_last() =~= first.map_values(execs_in()));
        assert(pods.drop_last() =~= first.map_values(pods_in()));
        let before = policies(first);
        match files.last() {
            Ok(c) => {
                assert(policies(files) =~= before + seq![c@]);
                assert(policies(files).drop_last() =~= before);
                assert(policies(files).last() == c@);
            },
            Err(_) => {
                assert(policies(files) =~= before);
            },
        }
        assert(all.cgroup_enrollments =~= base.cgroup_enrollments + cgroups.flatten_alt());
        assert(all.exec_enrollments =~= base.exec_enrollments + execs.flatten_alt());
        assert(all.pods =~= base.pods + pods.flatten_alt());
    }
}

/// What stands in one of some lists stands in all of them together.
proof fn lemma_flattened_contains<A>(lists: Seq<Seq<A>>, k: int, i: int)
    requires
        0 <= k < lists.len(),
        0 <= i < lists[k].len(),
    ensures
        lists.flatten_alt().contains(lists[k][i]),
    decreases lists.len(),
{
    let first = lists.drop_last();
    let all = lists.flatten_alt();
    if k < first.len() {
        lemma_flattened_contains(first, k, i);
        let at = choose|at: int|
            0 <= at < first.flatten_alt().len() && first.flatten_alt()[at] == first[k][i];
        assert(all[at] == lists[k][i]);
    } else {
        assert(all[first.flatten_alt().len() + i] == lists[k][i]);
    }
}

/// A policy that was loaded holds the enrollments and pods of its file and of every
/// fragment that could be had, in order and no others: none is lost, none comes
/// twice. The path is noted, and the users keep their rules.
pub proof fn law_loaded_policy_holds_all(
    pm: &mut PolicyManager,
    path: &str,
    loaded: Result<PolicyConfig, PolicyFileError>,
    fragments: Vec<Result<PolicyConfig, PolicyFileError>>,
    r: Result<(), String>,
)
    requires
        loaded is Ok,
        call_ensures(PolicyManager::load_from_file, (pm, path, loaded, fragments), r),
    ensures
        r is Ok,
        final(pm)@.loaded_path == path@,
        final(pm)@.extensions == old(pm)@.extensions,
        final(pm)@.config.cgroup_enrollments == loaded->Ok_0@.cgroup_enrollments
            + fragments@.map_values(
            |f: Result<PolicyConfig, PolicyFileError>|
                match f {
                    Ok(c) => c@.cgroup_enrollments,
                    Err(_) => Seq::empty(),
                },
        ).flatten_alt(),
        final(pm)@.config.exec_enrollments == loaded->Ok_0@.exec_enrollments
            + fragments@.map_values(
            |f: Result<PolicyConfig, PolicyFileError>|
                match f {
                    Ok(c) => c@.exec_enrollments,
                    Err(_) => Seq::empty(),
                },
        ).flatten_alt(),
        final(pm)@.config.pods == loaded->Ok_0@.pods + fragments@.map_values(
            |f: Result<PolicyConfig, PolicyFileError>|
                match f {
                    Ok(c) => c@.pods,
                    Err(_) => Seq::empty(),
                },
        ).flatten_alt(),
{
    lemma_lists_of_files(loaded->Ok_0@, fragments@);
    assert(cgroups_in() =~= (|f: Result<PolicyConfig, PolicyFileError>|
        match f {
            Ok(c) => c@.cgroup_enrollments,
            Err(_) => Seq::empty(),
        }));
    assert(execs_in() =~= (|f: Result<PolicyConfig, PolicyFileError>|
        match f {
            Ok(c) => c@.exec_enrollments,
            Err(_) => Seq::empty(),
        }));
    assert(pods_in() =~= (|f: Result<PolicyConfig, PolicyFileError>|
        match f {
            Ok(c) => c@.pods,
            Err(_) => Seq::empty(),
        }));
}

/// Every enrollment of every fragment that could be had is in the policy that was
/// loaded.
pub proof fn law_no_enrollment_is_lost(
    pm: &mut PolicyManager,
    path: &str,
    loaded: Result<PolicyConfig, PolicyFileError>,
    fragments: Vec<Result<PolicyConfig, PolicyFileError>>,
    r: Result<(), String>,
    k: int,
    i: int,
)
    requires
        loaded is Ok,
        call_ensures(PolicyManager::load_from_file, (pm, path, loaded, fragments), r),
        0 <= k < fragments@.len(),
        fragments@[k] is Ok,
    ensures
        0 <= i < fragments@[k]->Ok_0@.cgroup_enrollments.len() ==> final(
            pm)@.config.cgroup_enrollments.contains(
            fragments@[k]->Ok_0@.cgroup_enrollments[i],
        ),
        0 <= i < fragments@[k]->Ok_0@.exec_enrollments.len() ==> final(
            pm)@.config.exec_enrollments.contains(fragments@[k]->Ok_0@.exec_enrollments[i]),
        0 <= i < fragments@[k]->Ok_0@.pods.len() ==> final(pm)@.config.pods.contains(
            fragments@[k]->Ok_0@.pods[i],
        ),
{
    let base = loaded->Ok_0@;
    let after = final(pm)@.config;
    lemma_lists_of_files(base, fragments@);
    let cgroups = fragments@.map_values(cgroups_in());
    let execs = fragments@.map_values(execs_in());
    let pods = fragments@.map_values(pods_in());
    if 0 <= i < cgroups[k].len() {
        lemma_flattened_contains(cgroups, k, i);
        lemma_contains_behind(base.cgroup_enrollments, cgroups.flatten_alt(), cgroups[k][i]);
    }
    if 0 <= i < execs[k].len() {
        lemma_flattened_contains(execs, k, i);
        lemma_contains_behind(base.exec_enrollments, execs.flatten_alt(), execs[k][i]);
    }
    if 0 <= i < pods[k].len() {
        lemma_flattened_contains(pods, k, i);
        lemma_contains_behind(base.pods, pods.flatten_alt(), pods[k][i]);
    }
}

proof fn lemma_contains_behind<A>(a: Seq<A>, b: Seq<A>, x: A)
    requires
        b.contains(x),
    ensures
        (a + b).contains(x),
{
    let i = choose|i: int| 0 <= i < b.len() && b[i] == x;
    assert((a + b)[a.len() + i] == x);
}

/// Under each name a policy that was loaded has the role of the last fragment that
/// could be had and names it, and that of its file where none does.
pub proof fn law_loaded_roles(
    pm: &mut PolicyManager,
    path: &str,
    loaded: Result<PolicyConfig, PolicyFileError>,
    fragments: Vec<Result<PolicyConfig, PolicyFileError>>,
    r: Result<(), String>,
    name: Seq<char>,
    k: int,
)
    requires
        loaded is Ok,
        loaded->Ok_0.wf(),
        call_ensures(PolicyManager::load_from_file, (pm, path, loaded, fragments), r),
        -1 <= k < fragments@.len(),
        forall|j: int|
            k < j < fragments@.len() ==> ((#[trigger] fragments@[j]) matches Ok(c) ==> role_named(
                c@.roles,
                name,
            ) is None),
        k >= 0 ==> fragments@[k] is Ok && role_named(fragments@[k]->Ok_0@.roles, name) is Some,
    ensures
        role_named(final(pm)@.config.roles, name) == if k >= 0 {
            role_named(fragments@[k]->Ok_0@.roles, name)
        } else {
            role_named(loaded->Ok_0@.roles, name)
        },
{
    lemma_roles_of_files(loaded->Ok_0@, fragments@, name, k);
}

proof fn lemma_roles_of_files(
    base: PolicyConfigView,
    files: Seq<Result<PolicyConfig, PolicyFileError>>,
    name: Seq<char>,
    k: int,
)
    requires
        -1 <= k < files.len(),
        forall|j: int|
            k < j < files.len() ==> ((#[trigger] files[j]) matches Ok(c) ==> role_named(
                c@.roles,
                name,
            ) is None),
        k >= 0 ==> files[k] is Ok && role_named(files[k]->Ok_0@.roles, name) is Some,
    ensures
        role_named(with_fragments(base, policies(files)).roles, name) == if k >= 0 {
            role_named(files[k]->Ok_0@.roles, name)
        } else {
            role_named(base.roles, name)
        },
    decreases files.len(),
{
    if files.len() == 0 {
        assert(policies(files) =~= Seq::empty());
    } else {
        let first = files.drop_last();
        let before = policies(first);
        let last = files[files.len() - 1];
        if let Ok(c) = last {
            assert(policies(files) =~= before + seq![c@]);
            assert(policies(files).drop_last() =~= before);
            assert(policies(files).last() == c@);
            law_later_fragment_wins(with_fragments(base, before), c@, name);
        } else {
            assert(policies(files) =~= before);
        }
        if k < files.len() - 1 {
            assert forall|j: int| k < j < first.len() implies ((#[trigger] first[j]) matches Ok(
                c,
            ) ==> role_named(c@.roles, name) is None) by {
                assert(first[j] == files[j]);
            }
            lemma_roles_of_files(base, first, name, k);
        }
    }
}

/// Where the policy file could not be had, the reason is reported, and the policy
/// stays as it was.
pub proof fn law_failed_load_keeps_the_policy(
    pm: &mut PolicyManager,
    path: &str,
    loaded: Result<PolicyConfig, PolicyFileError>,
    fragments: Vec<Result<PolicyConfig, PolicyFileError>>,
    r: Result<(), String>,
)
    requires
        call_ensures(PolicyManager::load_from_file, (pm, path, loaded, fragments), r),
    ensures
        r is Ok <==> loaded is Ok,
        loaded is Err ==> final(pm)@.config == old(pm)@.config
            && final(pm)@.extensions == old(pm)@.extensions && final(pm)@.loaded_path == path@,
        loaded matches Err(PolicyFileError::Unreadable(why)) ==> r->Err_0@ == why@,
        loaded matches Err(PolicyFileError::Malformed(why)) ==> r->Err_0@ == "policy parse error: "@
            + why@,
{
}

/// The enrollments that are put in force are those whose role the policy has, in
/// order, each with its path, its pod and the number of its role.
pub proof fn law_control_groups_are_bound(pm: &PolicyManager, r: Vec<(String, PodId, RoleId)>)
    requires
        call_ensures(PolicyManager::get_cgroup_enrollments, (pm,), r),
    ensures
        ({
            let roles = pm@.config.roles;
            let kept = pm@.config.cgroup_enrollments.filter(
                |e: EnrollmentView| role_named(roles, e.role) is Some,
            );
            &&& r@.len() == kept.len()
            &&& forall|i: int|
                0 <= i < r@.len() ==> {
                    &&& (#[trigger] r@[i]).0@ == kept[i].path
                    &&& r@[i].1 == PodId(kept[i].pod_id)
                    &&& r@[i].2 == role_named(roles, kept[i].role)->Some_0.id
                }
        }),
{
    lemma_resolved(pm@.config.roles, pm@.config.cgroup_enrollments);
    lemma_bindings(r@);
}

/// The same holds of the executables.
pub proof fn law_executables_are_bound(pm: &PolicyManager, r: Vec<(String, PodId, RoleId)>)
    requires
        call_ensures(PolicyManager::get_exec_enrollments, (pm,), r),
    ensures
        ({
            let roles = pm@.config.roles;
            let kept = pm@.config.exec_enrollments.filter(
                |e: EnrollmentView| role_named(roles, e.role) is Some,
            );
            &&& r@.len() == kept.len()
            &&& forall|i: int|
                0 <= i < r@.len() ==> {
                    &&& (#[trigger] r@[i]).0@ == kept[i].path
                    &&& r@[i].1 == PodId(kept[i].pod_id)
                    &&& r@[i].2 == role_named(roles, kept[i].role)->Some_0.id
                }
        }),
{
    lemma_resolved(pm@.config.roles, pm@.config.exec_enrollments);
    lemma_bindings(r@);
}

proof fn lemma_bindings(v: Seq<(String, PodId, RoleId)>)
    ensures
        bindings(v).len() == v.len(),
        forall|i: int|
            0 <= i < v.len() ==> {
                &&& bindings(v)[i].0 == (#[trigger] v[i]).0@
                &&& bindings(v)[i].1 == v[i].1
                &&& bindings(v)[i].2 == v[i].2
            },
{
}

proof fn lemma_resolved(roles: Seq<(Seq<char>, RoleView)>, all: Seq<EnrollmentView>)
    ensures
        ({
            let kept = all.filter(|e: EnrollmentView| role_named(roles, e.role) is Some);
            let bound = all.filter_map(resolved(roles));
            &&& bound.len() == kept.len()
            &&& forall|i: int|
                0 <= i < bound.len() ==> (#[trigger] bound[i]) == (
                    kept[i].path,
                    PodId(kept[i].pod_id),
                    role_named(roles, kept[i].role)->Some_0.id,
                )
        }),
    decreases all.len(),
{
    reveal(Seq::filter);
    if all.len() > 0 {
        lemma_resolved(roles, all.drop_last());
    }
}

/// One name stands before another in the dictionary exactly where it is the
/// beginning of the other, or is smaller at the first byte where they differ.
pub proof fn law_dictionary_order(a: Seq<u8>, b: Seq<u8>)
    ensures
        in_order(a, b) <==> a.is_prefix_of(b) || exists|k: int|
            {
                &&& 0 <= k < a.len()
                &&& k < b.len()
                &&& a.take(k) == b.take(k)
                &&& (#[trigger] a[k]) < b[k]
            },
    decreases a.len(),
{
    if a.len() == 0 {
        assert(a =~= b.take(0));
    } else if b.len() == 0 {
    } else {
        let x = a.drop_first();
        let y = b.drop_first();
        law_dictionary_order(x, y);
        if a[0] < b[0] {
            assert(a.take(0) =~= b.take(0));
        } else if a[0] == b[0] {
            if x.is_prefix_of(y) {
                assert forall|i: int| 0 <= i < a.len() implies a[i] == b[i] by {
                    if i > 0 {
                        assert(x[i - 1] == y[i - 1]);
                    }
                }
            } else if in_order(x, y) {
                let k = choose|k: int|
                    {
                        &&& 0 <= k < x.len()
                        &&& k < y.len()
                        &&& x.take(k) == y.take(k)
                        &&& (#[trigger] x[k]) < y[k]
                    };
                assert forall|i: int| 0 <= i < k + 1 implies a[i] == b[i] by {
                    if i > 0 {
                        assert(x.take(k)[i - 1] == y.take(k)[i - 1]);
                    }
                }
                assert(a.take(k + 1) =~= b.take(k + 1));
                assert(a[k + 1] < b[k + 1]);
            }
            if a.is_prefix_of(b) {
                assert forall|i: int| 0 <= i < x.len() implies x[i] == y[i] by {
                    assert(a[i + 1] == b[i + 1]);
                }
                assert(x.is_prefix_of(y));
            } else if exists|k: int|
                {
                    &&& 0 <= k < a.len()
                    &&& k < b.len()
                    &&& a.take(k) == b.take(k)
                    &&& (#[trigger] a[k]) < b[k]
                } {
                let k = choose|k: int|
                    {
                        &&& 0 <= k < a.len()
                        &&& k < b.len()
                        &&& a.take(k) == b.take(k)
                        &&& (#[trigger] a[k]) < b[k]
                    };
                assert(k > 0);
                assert forall|i: int| 0 <= i < k - 1 implies x[i] == y[i] by {
                    assert(a.take(k)[i + 1] == b.take(k)[i + 1]);
                }
                assert(x.take(k - 1) =~= y.take(k - 1));
                assert(x[k - 1] < y[k - 1]);
            }
        } else {
            if a.is_prefix_of(b) {
                assert(a[0] == b[0]);
            }
            if exists|k: int|
                {
                    &&& 0 <= k < a.len()
                    &&& k < b.len()
                    &&& a.take(k) == b.take(k)
                    &&& (#[trigger] a[k]) < b[k]
                } {
                let k = choose|k: int|
                    {
                        &&& 0 <= k < a.len()
                        &&& k < b.len()
                        &&& a.take(k) == b.take(k)
                        &&& (#[trigger] a[k]) < b[k]
                    };
                if k > 0 {
                    assert(a.take(k)[0] == b.take(k)[0]);
                }
            }
        }
    }
}

/// The fragments of a directory are its names that end in `.toml` and have
/// something before it, each as often as it is listed, in the order of the
/// dictionary.
pub proof fn law_fragments_of_a_directory(names: &Vec<Vec<u8>>, r: Vec<Vec<u8>>, name: Seq<u8>)
    requires
        call_ensures(select_drop_ins, (names,), r),
    ensures
        byte_strings(r@).to_multiset().count(name) == if name.len() > 5 && name[name.len() - 5]
            == 0x2e && name[name.len() - 4] == 0x74 && name[name.len() - 3] == 0x6f
            && name[name.len() - 2] == 0x6d && name[name.len() - 1] == 0x6c {
            byte_strings(names@).to_multiset().count(name)
        } else {
            0
        },
        forall|i: int, j: int|
            0 <= i < j < r@.len() ==> in_order((#[trigger] r@[i])@, (#[trigger] r@[j])@),
{
    let wanted = |n: Seq<u8>| is_fragment_name(n);
    lemma_filter_count(byte_strings(names@), wanted, name);
    let is_fragment = name.len() > 5 && name[name.len() - 5] == 0x2e && name[name.len() - 4] == 0x74
        && name[name.len() - 3] == 0x6f && name[name.len() - 2] == 0x6d && name[name.len() - 1]
        == 0x6c;
    if name.len() > 5 {
        let end = name.skip(name.len() - 5);
        if is_fragment {
            assert(end =~= seq![0x2eu8, 0x74, 0x6f, 0x6d, 0x6c]);
        }
        if is_fragment_name(name) {
            assert(end[0] == 0x2e && end[1] == 0x74 && end[2] == 0x6f && end[3] == 0x6d && end[4]
                == 0x6c);
        }
    }
    assert(is_fragment_name(name) == is_fragment);
    assert forall|i: int, j: int| 0 <= i < j < r@.len() implies in_order(
        (#[trigger] r@[i])@,
        (#[trigger] r@[j])@,
    ) by {
        assert(in_order(byte_strings(r@)[i], byte_strings(r@)[j]));
    }
}

proof fn lemma_filter_count(s: Seq<Seq<u8>>, pred: spec_fn(Seq<u8>) -> bool, x: Seq<u8>)
    ensures
        s.filter(pred).to_multiset().count(x) == if pred(x) {
            s.to_multiset().count(x)
        } else {
            0
        },
    decreases s.len(),
{
    broadcast use vstd::seq_lib::group_to_multiset_ensures;

    reveal(Seq::filter);
    if s.len() > 0 {
        lemma_filter_count(s.drop_last(), pred, x);
        assert(s =~= s.drop_last().push(s.last()));
    } else {
        assert(s =~= Seq::<Seq<u8>>::empty());
        assert(s.to_multiset().count(x) == 0) by {
            if s.to_multiset().count(x) > 0 {
                assert(s.contains(x));
            }
        }
    }
}

/// A role has the number that it is found by; where several roles have one number,
/// the last of them is found.
pub proof fn law_role_of_a_number(pm: &PolicyManager, id: RoleId, r: Option<&Arc<Role>>)
    requires
        call_ensures(PolicyManager::get_role, (pm, id), r),
    ensures
        r is Some <==> exists|i: int|
            0 <= i < pm@.config.roles.len() && (#[trigger] pm@.config.roles[i]).1.id == id,
        forall|i: int|
            0 <= i < pm@.config.roles.len() && (#[trigger] pm@.config.roles[i]).1.id == id && (
            forall|j: int|
                i < j < pm@.config.roles.len() ==> (#[trigger] pm@.config.roles[j]).1.id != id)
                ==> r is Some && r->Some_0@ == pm@.config.roles[i].1,
{
    let t = pm@.config.roles;
    lemma_by_number(t);
    assert forall|i: int|
        0 <= i < t.len() && (#[trigger] t[i]).1.id == id && (forall|j: int|
            i < j < t.len() ==> (#[trigger] t[j]).1.id != id) implies r is Some && r->Some_0@
        == t[i].1 by {
        lemma_last_has_the_number(t, i);
    }
    if r is Some {
        let i = choose|i: int| 0 <= i < t.len() && (#[trigger] t[i]).1 == by_number(t)[id.0];
        assert(t[i].1.id.0 == id.0);
        assert(t[i].1.id == id);
    }
}

proof fn lemma_last_has_the_number(t: Seq<(Seq<char>, RoleView)>, i: int)
    requires
        0 <= i < t.len(),
        forall|j: int| i < j < t.len() ==> (#[trigger] t[j]).1.id != t[i].1.id,
    ensures
        by_number(t).contains_key(t[i].1.id.0),
        by_number(t)[t[i].1.id.0] == t[i].1,
    decreases t.len(),
{
    if i < t.len() - 1 {
        let before = t.drop_last();
        assert(t[t.len() - 1].1.id != t[i].1.id);
        assert forall|j: int| i < j < before.len() implies (#[trigger] before[j]).1.id
            != before[i].1.id by {
            assert(before[j] == t[j]);
        }
        lemma_last_has_the_number(before, i);
    }
}

/// A role is found by name exactly where the policy has an entry with that name.
/// What is found has the number of that entry, and is the role of the entry where
/// no later one has its number.
pub proof fn law_role_of_a_name(pm: &PolicyManager, name: &str, r: Option<&Arc<Role>>, i: int)
    requires
        call_ensures(PolicyManager::get_role_by_name, (pm, name), r),
        distinct_names(pm@.config.roles),
        0 <= i < pm@.config.roles.len(),
    ensures
        r is Some <==> exists|k: int|
            0 <= k < pm@.config.roles.len() && (#[trigger] pm@.config.roles[k]).0 == name@,
        pm@.config.roles[i].0 == name@ ==> r is Some && r->Some_0@.id == pm@.config.roles[i].1.id,
        pm@.config.roles[i].0 == name@ && (forall|j: int|
            i < j < pm@.config.roles.len() ==> (#[trigger] pm@.config.roles[j]).1.id
                != pm@.config.roles[i].1.id) ==> r->Some_0@ == pm@.config.roles[i].1,
{
    let t = pm@.config.roles;
    crate::common::law_role_under_a_name(t, name@);
    lemma_by_number(t);
    if t[i].0 == name@ {
        if forall|j: int| i < j < t.len() ==> (#[trigger] t[j]).1.id != t[i].1.id {
            lemma_last_has_the_number(t, i);
        }
    }
}

/// A policy that was not loaded from anywhere has two roles: one to which nothing is
/// allowed, and one to which everything is allowed but changing the user and tracing
/// other processes. Nothing is bound to them, and no user has rules.
pub proof fn law_default_roles(r: Result<PolicyManager, String>)
    requires
        call_ensures(PolicyManager::new, (), r),
    ensures
        r is Ok,
        r->Ok_0@.loaded_path == "(defaults)"@,
        r->Ok_0@.extensions.dom() == Set::<u32>::empty(),
        ({
            let config = r->Ok_0@.config;
            let none = config.roles[0].1;
            let most = config.roles[1].1;
            &&& config.pods.len() == 0
            &&& config.exec_enrollments.len() == 0
            &&& config.cgroup_enrollments.len() == 0
            &&& config.roles.len() == 2
            &&& config.roles[0].0 == "restricted"@ && none.name == "restricted"@ && none.id
                == RoleId(1)
            &&& config.roles[1].0 == "permissive"@ && most.name == "permissive"@ && most.id
                == RoleId(2)
            &&& !none.flags.allow_file_access && !none.flags.allow_network
                && !none.flags.allow_exec && !none.flags.allow_setuid && !none.flags.allow_ptrace
                && !none.flags.allow_module_load && !none.flags.allow_bpf_load
                && !none.flags.require_signed_binary && !none.flags.require_proxy
            &&& most.flags.allow_file_access && most.flags.allow_network && most.flags.allow_exec
                && !most.flags.allow_setuid && !most.flags.allow_ptrace
                && most.flags.allow_module_load && most.flags.allow_bpf_load
                && !most.flags.require_signed_binary && !most.flags.require_proxy
            &&& forall|i: int|
                0 <= i < 2 ==> {
                    let role = (#[trigger] config.roles[i]).1;
                    &&& role.file_paths.len() == 0 && role.network_rules.len() == 0
                    &&& role.execution_rules.len() == 0 && role.ip_rules.len() == 0
                    &&& role.domain_rules.len() == 0 && role.proxy is None
                    &&& !role.require_signed_binary
                }
        }),
{
    assert(r->Ok_0@.extensions.dom() =~= Set::<u32>::empty());
}

/// The path rules of a role for a user are those of the role, all of them and in
/// order, and behind them those of the user, if the user has any. A role that does
/// not exist has none.
pub proof fn law_rules_of_a_user(
    pm: &PolicyManager,
    id: RoleId,
    uid: Option<u32>,
    role: Option<&Arc<Role>>,
    r: Vec<PathPattern>,
)
    requires
        call_ensures(PolicyManager::get_role, (pm, id), role),
        call_ensures(PolicyManager::effective_file_paths, (pm, id, uid), r),
    ensures
        role is None ==> r@.len() == 0,
        role matches Some(role) ==> {
            let base = role@.file_paths;
            let user = if uid is Some && pm@.extensions.contains_key(uid->Some_0) {
                pm@.extensions[uid->Some_0]
            } else {
                Seq::empty()
            };
            &&& r@.len() == base.len() + user.len()
            &&& forall|i: int| 0 <= i < base.len() ==> (#[trigger] r@[i])@ == base[i]
            &&& forall|i: int|
                base.len() <= i < r@.len() ==> (#[trigger] r@[i])@ == user[i - base.len()]
        },
{
    let all = rules(r@);
    assert(all.len() == r@.len());
    assert(forall|i: int| 0 <= i < r@.len() ==> all[i] == (#[trigger] r@[i])@);
}

/// The path rules of a role for all users are those of the role, and behind them
/// those of every user, each user once, in some order.
pub proof fn law_rules_of_all_users(
    pm: &PolicyManager,
    id: RoleId,
    role: Option<&Arc<Role>>,
    r: Vec<PathPattern>,
)
    requires
        call_ensures(PolicyManager::get_role, (pm, id), role),
        call_ensures(PolicyManager::effective_file_paths_all, (pm, id), r),
    ensures
        role is None ==> r@.len() == 0,
        role matches Some(role) ==> exists|uids: Seq<u32>|
            {
                &&& #[trigger] uids.no_duplicates()
                &&& forall|uid: u32| uids.contains(uid) <==> #[trigger] pm@.extensions.contains_key(
                    uid,
                )
                &&& r@.map_values(|p: PathPattern| p@) == role@.file_paths + uids.map_values(
                    |uid: u32| pm@.extensions[uid],
                ).flatten_alt()
            },
        role is Some ==> forall|uid: u32, i: int|
            pm@.extensions.contains_key(uid) && 0 <= i < pm@.extensions[uid].len()
                ==> r@.map_values(|p: PathPattern| p@).contains(
                #[trigger] pm@.extensions[uid][i],
            ),
{
    if let Some(found) = role {
        let exts = pm@.extensions;
        let base = found@.file_paths;
        let all = r@.map_values(|p: PathPattern| p@);
        assert(all =~= rules(r@));
        let uids = choose|uids: Seq<u32>|
            {
                &&& uids.no_duplicates()
                &&& uids.to_set() == exts.dom()
                &&& rules(r@) == base + #[trigger] chained(exts, uids)
            };
        let lists = uids.map_values(|uid: u32| exts[uid]);
        lemma_chained(exts, uids);
        assert forall|uid: u32| uids.contains(uid) <==> #[trigger] exts.contains_key(uid) by {
            assert(uids.to_set().contains(uid) <==> uids.contains(uid));
        }
        assert(uids.no_duplicates());
        assert forall|uid: u32, i: int|
            exts.contains_key(uid) && 0 <= i < exts[uid].len() implies all.contains(
            #[trigger] exts[uid][i],
        ) by {
            assert(uids.contains(uid));
            let k = choose|k: int| 0 <= k < uids.len() && uids[k] == uid;
            assert(lists[k] == exts[uid]);
            lemma_flattened_contains(lists, k, i);
            lemma_contains_behind(base, lists.flatten_alt(), lists[k][i]);
        }
    }
}

proof fn lemma_chained(exts: Map<u32, Seq<PathPatternView>>, uids: Seq<u32>)
    ensures
        chained(exts, uids) == uids.map_values(|uid: u32| exts[uid]).flatten_alt(),
    decreases uids.len(),
{
    let lists = uids.map_values(|uid: u32| exts[uid]);
    if uids.len() > 0 {
        lemma_chained(exts, uids.drop_last());
        assert(lists.drop_last() =~= uids.drop_last().map_values(|uid: u32| exts[uid]));
    }
}

/// Loading the rules of the users touches neither the policy nor the path it was
/// read from.
pub proof fn law_user_rules_leave_the_policy(
    pm: &mut PolicyManager,
    configs: &Vec<LoadedConfig>,
    errors: Vec<String>,
)
    requires
        call_ensures(PolicyManager::load_user_extensions, (pm, configs), errors),
    ensures
        final(pm)@.config == old(pm)@.config,
        final(pm)@.loaded_path == old(pm)@.loaded_path,
        final(pm)@.extensions == extensions_of(
            loaded_configs(configs@),
            old(pm)@.config.roles,
        ).rules,
        texts(errors@) == extensions_of(loaded_configs(configs@), old(pm)@.config.roles).errors,
{
}

/// The questions about a policy are answered with what it holds.
pub proof fn law_questions_about_a_policy(
    pm: &PolicyManager,
    names: Vec<String>,
    cgroups: usize,
    execs: usize,
    path: &str,
    users: usize,
    uid: u32,
    user: Option<&Vec<PathPattern>>,
)
    requires
        call_ensures(PolicyManager::role_names, (pm,), names),
        call_ensures(PolicyManager::cgroup_enrollment_count, (pm,), cgroups),
        call_ensures(PolicyManager::exec_enrollment_count, (pm,), execs),
        call_ensures(PolicyManager::policy_path, (pm,), path),
        call_ensures(PolicyManager::extensions_count, (pm,), users),
        call_ensures(PolicyManager::get_user_extensions, (pm, uid), user),
    ensures
        names@.len() == pm@.config.roles.len(),
        forall|i: int| 0 <= i < names@.len() ==> (#[trigger] names@[i])@ == pm@.config.roles[i].0,
        cgroups == pm@.config.cgroup_enrollments.len(),
        execs == pm@.config.exec_enrollments.len(),
        path@ == pm@.loaded_path,
        users == pm@.extensions.dom().len(),
        user is Some <==> pm@.extensions.contains_key(uid),
        user matches Some(exts) ==> exts@.map_values(|p: PathPattern| p@) == pm@.extensions[uid],
{
    assert(texts(names@).len() == names@.len());
    assert forall|i: int| 0 <= i < names@.len() implies (#[trigger] names@[i])@
        == pm@.config.roles[i].0 by {
        assert(texts(names@)[i] == names@[i]@);
    }
    if let Some(exts) = user {
        assert(exts@.map_values(|p: PathPattern| p@) =~= rules(exts@));
    }
}

} // verus!
