//! `validate`: look a policy file over without loading it.

use crate::json::{fields_view, items_view, json_parse, parse_json, Json, JsonValue};
use crate::text::{decimal, has_prefix, starts_with, texts, to_decimal};
use vstd::prelude::*;

verus! {

/// Where a complaint about a path rule points to.
pub open spec fn rule_place(role: Seq<char>, i: nat) -> Seq<char> {
    "role \""@ + role + "\".file_paths["@ + decimal(i) + "]: "@
}

/// The pattern of a path rule, empty where it has none.
pub open spec fn pattern_of(rule: JsonValue) -> Seq<char> {
    match rule.get_text("pattern"@) {
        Some(p) => p,
        None => ""@,
    }
}

/// The complaints about the path rule at `i`.
pub open spec fn rule_complaints(role: Seq<char>, i: nat, rule: JsonValue) -> Seq<Seq<char>> {
    (if has_prefix(pattern_of(rule), "~"@) {
        seq![
            rule_place(role, i) + "pattern \""@ + pattern_of(rule)
                + "\" uses ~ shorthand. Use absolute paths (/home/*/...) instead."@,
        ]
    } else if !has_prefix(pattern_of(rule), "/"@) {
        seq![
            rule_place(role, i) + "pattern \""@ + pattern_of(rule)
                + "\" is not an absolute path"@,
        ]
    } else {
        Seq::empty()
    }) + (if rule.get("allow"@) is None {
        seq![rule_place(role, i) + "missing 'allow' field"@]
    } else {
        Seq::empty()
    })
}

/// The complaints about the path rules of a role.
pub open spec fn path_complaints(role: Seq<char>, paths: Seq<JsonValue>) -> Seq<Seq<char>>
    decreases paths.len(),
{
    if paths.len() == 0 {
        Seq::empty()
    } else {
        path_complaints(role, paths.drop_last()) + rule_complaints(
            role,
            (paths.len() - 1) as nat,
            paths.last(),
        )
    }
}

/// The complaints about a role.
pub open spec fn role_complaints(name: Seq<char>, role: JsonValue) -> Seq<Seq<char>> {
    (if role.get_number("id"@) is None {
        seq!["role \""@ + name + "\": missing or invalid 'id' field"@]
    } else {
        Seq::empty()
    }) + (match role.get_items("file_paths"@) {
        Some(paths) => path_complaints(name, paths),
        None => Seq::empty(),
    })
}

/// The complaints about all roles.
pub open spec fn roles_complaints(roles: Seq<(Seq<char>, JsonValue)>) -> Seq<Seq<char>>
    decreases roles.len(),
{
    if roles.len() == 0 {
        Seq::empty()
    } else {
        roles_complaints(roles.drop_last()) + role_complaints(roles.last().0, roles.last().1)
    }
}

/// The complaints about a policy.
pub open spec fn complaints(policy: JsonValue) -> Seq<Seq<char>> {
    match policy.get_fields("roles"@) {
        Some(roles) => roles_complaints(roles),
        None => seq!["missing top-level 'roles' object"@],
    }
}

/// Puts the complaints about the path rule at `i` behind others.
fn push_rule_complaints(errors: &mut Vec<String>, role: &str, i: usize, rule: &Json)
    ensures
        texts(final(errors)@) == texts(old(errors)@) + rule_complaints(role@, i as nat, rule@),
{
    let ghost before = texts(errors@);
    let pattern = match rule.get_text("pattern") {
        Some(p) => p,
        None => "",
    };
    let mut place = "role \"".to_owned();
    place.append(role);
    place.append("\".file_paths[");
    place.append(to_decimal(i as u64).as_str());
    place.append("]: ");
    let ghost at = rule_place(role@, i as nat);
    if starts_with(pattern, "~") {
        let mut m = place.clone();
        m.append("pattern \"");
        m.append(pattern);
        m.append("\" uses ~ shorthand. Use absolute paths (/home/*/...) instead.");
        errors.push(m);
    } else if !starts_with(pattern, "/") {
        let mut m = place.clone();
        m.append("pattern \"");
        m.append(pattern);
        m.append("\" is not an absolute path");
        errors.push(m);
    }
    if rule.get("allow").is_none() {
        let mut m = place;
        m.append("missing 'allow' field");
        errors.push(m);
    }
    assert(texts(errors@) =~= before + rule_complaints(role@, i as nat, rule@));
}

/// Puts the complaints about a role behind others.
fn push_role_complaints(errors: &mut Vec<String>, name: &str, role: &Json)
    ensures
        texts(final(errors)@) == texts(old(errors)@) + role_complaints(name@, role@),
{
    let ghost before = texts(errors@);
    if role.get_number("id").is_none() {
        let mut m = "role \"".to_owned();
        m.append(name);
        m.append("\": missing or invalid 'id' field");
        errors.push(m);
    }
    let ghost held = texts(errors@);
    if let Some(paths) = role.get_items("file_paths") {
        let ghost all = items_view(paths@);
        assert(held =~= held + path_complaints(name@, all.take(0)));
        let mut i: usize = 0;
        while i < paths.len()
            invariant
                all == items_view(paths@),
                0 <= i <= paths@.len(),
                texts(errors@) == held + path_complaints(name@, all.take(i as int)),
            decreases paths@.len() - i,
        {
            assert(all.take(i + 1).drop_last() =~= all.take(i as int));
            assert(all[i as int] == paths@[i as int]@);
            push_rule_complaints(errors, name, i, &paths[i]);
            i = i + 1;
            assert(texts(errors@) =~= held + path_complaints(name@, all.take(i as int)));
        }
        assert(all.take(i as int) =~= all);
    }
    assert(texts(errors@) =~= before + role_complaints(name@, role@));
}

/// The complaints about a policy.
pub fn find_errors(policy: &Json) -> (errors: Vec<String>)
    ensures
        texts(errors@) == complaints(policy@),
{
    let mut errors: Vec<String> = Vec::new();
    match policy.get_fields("roles") {
        Some(roles) => {
            let ghost all = fields_view(roles@);
            assert(texts(errors@) =~= roles_complaints(all.take(0)));
            let mut i: usize = 0;
            while i < roles.len()
                invariant
                    all == fields_view(roles@),
                    0 <= i <= roles@.len(),
                    texts(errors@) == roles_complaints(all.take(i as int)),
                decreases roles@.len() - i,
            {
                assert(all.take(i + 1).drop_last() =~= all.take(i as int));
                assert(all[i as int] == (roles@[i as int].0@, roles@[i as int].1@));
                push_role_complaints(&mut errors, roles[i].0.as_str(), &roles[i].1);
                i = i + 1;
            }
            assert(all.take(i as int) =~= all);
        },
        None => {
            errors.push("missing top-level 'roles' object".to_owned());
            assert(texts(errors@) =~= complaints(policy@));
        },
    }
    errors
}

/// What is reported of a file with some complaints: a line to show where there
/// are none, and the lines of an error report otherwise.
#[derive(Debug)]
pub enum Report {
    Valid(String),
    Invalid(Vec<String>),
}

pub enum ReportView {
    Valid(Seq<char>),
    Invalid(Seq<Seq<char>>),
}

impl View for Report {
    type V = ReportView;

    open spec fn view(&self) -> ReportView {
        match *self {
            Report::Valid(line) => ReportView::Valid(line@),
            Report::Invalid(lines) => ReportView::Invalid(texts(lines@)),
        }
    }
}

/// What is reported of a file with some complaints.
pub open spec fn report_of(path: Seq<char>, errors: Seq<Seq<char>>) -> ReportView {
    if errors.len() == 0 {
        ReportView::Valid("\x1b[32m✓\x1b[0m "@ + path + " is valid"@)
    } else {
        ReportView::Invalid(
            seq![
                "\x1b[31m✗\x1b[0m "@ + path + " has "@ + decimal(errors.len()) + " error(s):"@,
                ""@,
            ] + errors.map_values(|e: Seq<char>| "  - "@ + e),
        )
    }
}

/// What is reported of a file with some complaints.
pub fn report(path: &str, errors: &Vec<String>) -> (r: Report)
    ensures
        r@ == report_of(path@, texts(errors@)),
{
    let ghost all = texts(errors@);
    assert(all.len() == errors@.len());
    if errors.len() == 0 {
        let mut line = "\x1b[32m✓\x1b[0m ".to_owned();
        line.append(path);
        line.append(" is valid");
        return Report::Valid(line);
    }
    let mut head = "\x1b[31m✗\x1b[0m ".to_owned();
    head.append(path);
    head.append(" has ");
    head.append(to_decimal(errors.len() as u64).as_str());
    head.append(" error(s):");
    let ghost marked = all.map_values(|e: Seq<char>| "  - "@ + e);
    let ghost first = seq![head@, ""@];
    let mut lines: Vec<String> = Vec::new();
    lines.push(head);
    lines.push("".to_owned());
    assert(texts(lines@) =~= first + marked.take(0));
    let mut i: usize = 0;
    while i < errors.len()
        invariant
            all == texts(errors@),
            marked == all.map_values(|e: Seq<char>| "  - "@ + e),
            0 <= i <= errors@.len(),
            texts(lines@) == first + marked.take(i as int),
        decreases errors@.len() - i,
    {
        let ghost held = texts(lines@);
        let mut line = "  - ".to_owned();
        line.append(errors[i].as_str());
        lines.push(line);
        assert(marked[i as int] == "  - "@ + errors@[i as int]@);
        assert(texts(lines@) =~= held.push(marked[i as int]));
        assert(first + marked.take(i + 1) =~= (first + marked.take(i as int)).push(
            marked[i as int],
        ));
        i = i + 1;
    }
    assert(marked.take(i as int) =~= marked);
    Report::Invalid(lines)
}

/// What came of looking a file over.
pub open spec fn outcome_view(r: Result<Report, String>) -> Result<ReportView, Seq<char>> {
    match r {
        Ok(report) => Ok(report@),
        Err(e) => Err(e@),
    }
}

/// Looks over the policy file at `path`, which has this content.
pub fn validate(path: &str, content: &str) -> (r: Result<Report, String>)
    ensures
        outcome_view(r) == match json_parse(content@) {
            Ok(policy) => Ok(report_of(path@, complaints(policy))),
            Err(e) => Err("invalid JSON in "@ + path@ + ": "@ + e),
        },
{
    match parse_json(content) {
        Ok(policy) => Ok(report(path, &find_errors(&policy))),
        Err(e) => {
            let mut m = "invalid JSON in ".to_owned();
            m.append(path);
            m.append(": ");
            m.append(e.as_str());
            Err(m)
        },
    }
}

/// What is reported of a file that cannot be read.
pub open spec fn unreadable_text(path: Seq<char>, why: Seq<char>) -> Seq<char> {
    "cannot read "@ + path + ": "@ + why
}

/// What is reported of a file that cannot be read.
pub fn read_error(path: &str, why: &str) -> (m: String)
    ensures
        m@ == unreadable_text(path@, why@),
{
    let mut m = "cannot read ".to_owned();
    m.append(path);
    m.append(": ");
    m.append(why);
    m
}

/// A path rule with an absolute pattern and a word on what it allows.
pub open spec fn sound_rule(rule: JsonValue) -> bool {
    has_prefix(pattern_of(rule), "/"@) && rule.get("allow"@) is Some
}

/// A role with a number whose path rules are sound.
pub open spec fn sound_role(role: JsonValue) -> bool {
    &&& role.get_number("id"@) is Some
    &&& role.get_items("file_paths"@) matches Some(paths) ==> forall|i: int|
        0 <= i < paths.len() ==> sound_rule(#[trigger] paths[i])
}

/// A policy passes exactly where it has an object of roles, each role has a
/// number, and each path rule of a role has an absolute pattern and a word on
/// what it allows.
pub proof fn law_sound_policies_pass(policy: JsonValue)
    ensures
        complaints(policy).len() == 0 <==> {
            &&& policy.get_fields("roles"@) matches Some(roles)
            &&& forall|i: int| 0 <= i < roles.len() ==> sound_role((#[trigger] roles[i]).1)
        },
{
    if let Some(roles) = policy.get_fields("roles"@) {
        lemma_sound_roles(roles);
    }
}

proof fn lemma_sound_roles(roles: Seq<(Seq<char>, JsonValue)>)
    ensures
        roles_complaints(roles).len() == 0 <==> forall|i: int|
            0 <= i < roles.len() ==> sound_role((#[trigger] roles[i]).1),
    decreases roles.len(),
{
    if roles.len() > 0 {
        let before = roles.drop_last();
        lemma_sound_roles(before);
        let role = roles.last().1;
        if let Some(paths) = role.get_items("file_paths"@) {
            lemma_sound_paths(roles.last().0, paths);
        }
        assert(role_complaints(roles.last().0, role).len() == 0 <==> sound_role(role));
        assert(forall|i: int| 0 <= i < before.len() ==> before[i] == #[trigger] roles[i]);
        if roles_complaints(roles).len() == 0 {
            assert forall|i: int| 0 <= i < roles.len() implies sound_role(
                (#[trigger] roles[i]).1,
            ) by {
                if i < before.len() {
                    assert(sound_role(before[i].1));
                }
            }
        }
        if forall|i: int| 0 <= i < roles.len() ==> sound_role((#[trigger] roles[i]).1) {
            assert forall|i: int| 0 <= i < before.len() implies sound_role(
                (#[trigger] before[i]).1,
            ) by {
                assert(sound_role(roles[i].1));
            }
            assert(sound_role(roles[roles.len() - 1].1));
        }
    }
}

proof fn lemma_sound_paths(role: Seq<char>, paths: Seq<JsonValue>)
    ensures
        path_complaints(role, paths).len() == 0 <==> forall|i: int|
            0 <= i < paths.len() ==> sound_rule(#[trigger] paths[i]),
    decreases paths.len(),
{
    if paths.len() > 0 {
        let before = paths.drop_last();
        lemma_sound_paths(role, before);
        lemma_sound_rule(role, (paths.len() - 1) as nat, paths.last());
        assert(forall|i: int| 0 <= i < before.len() ==> before[i] == #[trigger] paths[i]);
        if path_complaints(role, paths).len() == 0 {
            assert forall|i: int| 0 <= i < paths.len() implies sound_rule(
                #[trigger] paths[i],
            ) by {
                if i < before.len() {
                    assert(sound_rule(before[i]));
                }
            }
        }
        if forall|i: int| 0 <= i < paths.len() ==> sound_rule(#[trigger] paths[i]) {
            assert forall|i: int| 0 <= i < before.len() implies sound_rule(
                #[trigger] before[i],
            ) by {
                assert(sound_rule(paths[i]));
            }
            assert(sound_rule(paths[paths.len() - 1]));
        }
    }
}

proof fn lemma_sound_rule(role: Seq<char>, i: nat, rule: JsonValue)
    ensures
        rule_complaints(role, i, rule).len() == 0 <==> sound_rule(rule),
{
    reveal_strlit("/");
    reveal_strlit("~");
    let p = pattern_of(rule);
    if has_prefix(p, "/"@) {
        assert(p.take(1)[0] == "/"@[0]);
        if has_prefix(p, "~"@) {
            assert(p.take(1)[0] == "~"@[0]);
        }
    }
}

/// A policy without an object of roles has this and nothing else against it.
pub proof fn law_roles_are_needed(policy: &Json, errors: Vec<String>)
    requires
        call_ensures(find_errors, (policy,), errors),
        policy@.get_fields("roles"@) is None,
    ensures
        errors@.len() == 1,
        errors@[0]@ == "missing top-level 'roles' object"@,
{
    assert(texts(errors@).len() == errors@.len());
    assert(texts(errors@)[0] == errors@[0]@);
}

/// Everything that is wrong with a policy is named: a role without a number, a path rule
/// whose pattern begins with a tilde or is not absolute, and a path rule that does not
/// say what it allows, each with the role and the place.
pub proof fn law_every_error_is_named(
    policy: &Json,
    errors: Vec<String>,
    roles: Seq<(Seq<char>, JsonValue)>,
    i: int,
    k: int,
)
    requires
        call_ensures(find_errors, (policy,), errors),
        policy@.get_fields("roles"@) == Some(roles),
        0 <= i < roles.len(),
    ensures
        ({
            let all = errors@.map_values(|s: String| s@);
            let name = roles[i].0;
            let role = roles[i].1;
            &&& role.get_number("id"@) is None ==> all.contains(
                "role \""@ + name + "\": missing or invalid 'id' field"@,
            )
            &&& role.get_items("file_paths"@) matches Some(paths) ==> 0 <= k < paths.len() ==> {
                let place = "role \""@ + name + "\".file_paths["@ + decimal(k as nat) + "]: "@;
                let pattern = match paths[k].get_text("pattern"@) {
                    Some(p) => p,
                    None => ""@,
                };
                &&& pattern.len() > 0 && pattern[0] == '~' ==> all.contains(
                    place + "pattern \""@ + pattern
                        + "\" uses ~ shorthand. Use absolute paths (/home/*/...) instead."@,
                )
                &&& pattern.len() == 0 || (pattern[0] != '~' && pattern[0] != '/') ==> all.contains(
                    place + "pattern \""@ + pattern + "\" is not an absolute path"@,
                )
                &&& paths[k].get("allow"@) is None ==> all.contains(
                    place + "missing 'allow' field"@,
                )
            }
        }),
{
    let all = errors@.map_values(|s: String| s@);
    assert(all =~= texts(errors@));
    let name = roles[i].0;
    let role = roles[i].1;
    let own = role_complaints(name, role);
    if role.get_number("id"@) is None {
        let text = "role \""@ + name + "\": missing or invalid 'id' field"@;
        assert(own[0] == text);
        lemma_role_complaint(roles, i, text);
    }
    if let Some(paths) = role.get_items("file_paths"@) {
        if 0 <= k < paths.len() {
            let first = own.len() - path_complaints(name, paths).len();
            let some = rule_complaints(name, k as nat, paths[k]);
            lemma_begins_with(pattern_of(paths[k]));
            assert forall|text: Seq<char>| #[trigger] some.contains(text) implies all.contains(
                text,
            ) by {
                lemma_rule_complaint(name, paths, k, text);
                let m = choose|m: int|
                    0 <= m < path_complaints(name, paths).len() && path_complaints(name, paths)[m]
                        == text;
                assert(own[first + m] == text);
                lemma_role_complaint(roles, i, text);
            }
            let pattern = pattern_of(paths[k]);
            let place = rule_place(name, k as nat);
            if has_prefix(pattern, "~"@) {
                assert(some[0] == place + "pattern \""@ + pattern
                    + "\" uses ~ shorthand. Use absolute paths (/home/*/...) instead."@);
                assert(some.contains(some[0]));
            } else if !has_prefix(pattern, "/"@) {
                assert(some[0] == place + "pattern \""@ + pattern
                    + "\" is not an absolute path"@);
                assert(some.contains(some[0]));
            }
            if paths[k].get("allow"@) is None {
                assert(some[some.len() - 1] == place + "missing 'allow' field"@);
                assert(some.contains(some[some.len() - 1]));
            }
        }
    }
}

proof fn lemma_begins_with(p: Seq<char>)
    ensures
        has_prefix(p, "~"@) <==> p.len() > 0 && p[0] == '~',
        has_prefix(p, "/"@) <==> p.len() > 0 && p[0] == '/',
{
    reveal_strlit("~");
    reveal_strlit("/");
    if p.len() > 0 {
        assert(p.take(1)[0] == p[0]);
        if p[0] == '~' {
            assert(p.take(1) =~= "~"@);
        }
        if p[0] == '/' {
            assert(p.take(1) =~= "/"@);
        }
    }
}

proof fn lemma_role_complaint(roles: Seq<(Seq<char>, JsonValue)>, i: int, text: Seq<char>)
    requires
        0 <= i < roles.len(),
        role_complaints(roles[i].0, roles[i].1).contains(text),
    ensures
        roles_complaints(roles).contains(text),
    decreases roles.len(),
{
    let before = roles.drop_last();
    let first = roles_complaints(before);
    let all = roles_complaints(roles);
    if i < before.len() {
        assert(before[i] == roles[i]);
        lemma_role_complaint(before, i, text);
        let m = choose|m: int| 0 <= m < first.len() && first[m] == text;
        assert(all[m] == text);
    } else {
        let own = role_complaints(roles[i].0, roles[i].1);
        let m = choose|m: int| 0 <= m < own.len() && own[m] == text;
        assert(all[first.len() + m] == text);
    }
}

proof fn lemma_rule_complaint(role: Seq<char>, paths: Seq<JsonValue>, k: int, text: Seq<char>)
    requires
        0 <= k < paths.len(),
        rule_complaints(role, k as nat, paths[k]).contains(text),
    ensures
        path_complaints(role, paths).contains(text),
    decreases paths.len(),
{
    let before = paths.drop_last();
    let first = path_complaints(role, before);
    let all = path_complaints(role, paths);
    if k < before.len() {
        assert(before[k] == paths[k]);
        lemma_rule_complaint(role, before, k, text);
        let m = choose|m: int| 0 <= m < first.len() && first[m] == text;
        assert(all[m] == text);
    } else {
        let own = rule_complaints(role, k as nat, paths[k]);
        let m = choose|m: int| 0 <= m < own.len() && own[m] == text;
        assert(all[first.len() + m] == text);
    }
}

/// A policy passes exactly where it has an object of roles, each role has a number, and
/// each path rule of a role has a pattern that begins with a slash and says what it
/// allows.
pub proof fn law_what_passes(policy: &Json, errors: Vec<String>)
    requires
        call_ensures(find_errors, (policy,), errors),
    ensures
        errors@.len() == 0 <==> {
            &&& policy@.get_fields("roles"@) is Some
            &&& forall|i: int|
                0 <= i < policy@.get_fields("roles"@)->Some_0.len() ==> {
                    let role = (#[trigger] policy@.get_fields("roles"@)->Some_0[i]).1;
                    &&& role.get_number("id"@) is Some
                    &&& role.get_items("file_paths"@) matches Some(paths) ==> forall|k: int|
                        0 <= k < paths.len() ==> {
                            &&& (#[trigger] paths[k]).get_text("pattern"@) is Some
                            &&& paths[k].get_text("pattern"@)->Some_0.len() > 0
                            &&& paths[k].get_text("pattern"@)->Some_0[0] == '/'
                            &&& paths[k].get("allow"@) is Some
                        }
                }
        },
{
    assert(texts(errors@).len() == errors@.len());
    law_sound_policies_pass(policy@);
    reveal_strlit("");
    if let Some(roles) = policy@.get_fields("roles"@) {
        assert forall|rule: JsonValue| #[trigger] sound_rule(rule) <==> {
            &&& rule.get_text("pattern"@) is Some
            &&& rule.get_text("pattern"@)->Some_0.len() > 0
            &&& rule.get_text("pattern"@)->Some_0[0] == '/'
            &&& rule.get("allow"@) is Some
        } by {
            lemma_begins_with(pattern_of(rule));
        }
        if errors@.len() == 0 {
            assert forall|i: int| 0 <= i < roles.len() implies {
                let role = (#[trigger] roles[i]).1;
                &&& role.get_number("id"@) is Some
                &&& role.get_items("file_paths"@) matches Some(paths) ==> forall|k: int|
                    0 <= k < paths.len() ==> {
                        &&& (#[trigger] paths[k]).get_text("pattern"@) is Some
                        &&& paths[k].get_text("pattern"@)->Some_0.len() > 0
                        &&& paths[k].get_text("pattern"@)->Some_0[0] == '/'
                        &&& paths[k].get("allow"@) is Some
                    }
            } by {
                assert(sound_role(roles[i].1));
                if let Some(paths) = roles[i].1.get_items("file_paths"@) {
                    assert forall|k: int| 0 <= k < paths.len() implies {
                        &&& (#[trigger] paths[k]).get_text("pattern"@) is Some
                        &&& paths[k].get_text("pattern"@)->Some_0.len() > 0
                        &&& paths[k].get_text("pattern"@)->Some_0[0] == '/'
                        &&& paths[k].get("allow"@) is Some
                    } by {
                        assert(sound_rule(paths[k]));
                    }
                }
            }
        } else {
            let i = choose|i: int| 0 <= i < roles.len() && !sound_role((#[trigger] roles[i]).1);
            let role = roles[i].1;
            if role.get_number("id"@) is Some {
                let paths = role.get_items("file_paths"@)->Some_0;
                let k = choose|k: int| 0 <= k < paths.len() && !sound_rule(#[trigger] paths[k]);
                assert(role.get_items("file_paths"@) is Some);
                assert(!sound_rule(paths[k]));
            }
        }
    }
}

/// The errors of some roles come behind those of the roles before them, and a rule has
/// at most one error about its pattern and one about what it allows.
pub proof fn law_errors_in_order(
    a: Seq<(Seq<char>, JsonValue)>,
    b: Seq<(Seq<char>, JsonValue)>,
    role: Seq<char>,
    i: nat,
    rule: JsonValue,
)
    ensures
        roles_complaints(a + b) == roles_complaints(a) + roles_complaints(b),
        rule_complaints(role, i, rule).len() == (if pattern_of(rule).len() > 0 && pattern_of(
            rule,
        )[0] == '/' {
            0int
        } else {
            1int
        }) + (if rule.get("allow"@) is Some {
            0int
        } else {
            1int
        }),
    decreases b.len(),
{
    lemma_begins_with(pattern_of(rule));
    if b.len() == 0 {
        assert(a + b =~= a);
        assert(roles_complaints(a) + roles_complaints(b) =~= roles_complaints(a));
    } else {
        law_errors_in_order(a, b.drop_last(), role, i, rule);
        assert((a + b).drop_last() =~= a + b.drop_last());
        assert(roles_complaints(a + b) =~= roles_complaints(a) + roles_complaints(b));
    }
}

/// A file is reported as valid exactly where nothing is wrong with it; otherwise the
/// report says how many errors there are and lists all of them, in order.
pub proof fn law_report(path: &str, errors: &Vec<String>, r: Report)
    requires
        call_ensures(report, (path, errors), r),
    ensures
        r is Valid <==> errors@.len() == 0,
        r matches Report::Valid(line) ==> line@ == "\x1b[32m✓\x1b[0m "@ + path@ + " is valid"@,
        r matches Report::Invalid(lines) ==> {
            &&& lines@.len() == errors@.len() + 2
            &&& lines@[0]@ == "\x1b[31m✗\x1b[0m "@ + path@ + " has "@ + decimal(errors@.len())
                + " error(s):"@
            &&& lines@[1]@ == ""@
            &&& forall|i: int|
                0 <= i < errors@.len() ==> lines@[i + 2]@ == "  - "@ + (#[trigger] errors@[i])@
        },
{
    let all = texts(errors@);
    assert(all.len() == errors@.len());
    if let Report::Invalid(lines) = r {
        let shown = texts(lines@);
        assert(shown.len() == lines@.len());
        assert(shown[0] == lines@[0]@ && shown[1] == lines@[1]@);
        assert forall|i: int| 0 <= i < errors@.len() implies lines@[i + 2]@ == "  - "@ + (
        #[trigger] errors@[i])@ by {
            assert(shown[i + 2] == lines@[i + 2]@);
            assert(all[i] == errors@[i]@);
            assert(shown[i + 2] == all.map_values(|e: Seq<char>| "  - "@ + e)[i]);
        }
    }
}

/// A file that is no JSON is reported as such; every other one is looked over as a
/// whole.
pub proof fn law_file_is_looked_over(
    path: &str,
    content: &str,
    parsed: Result<Json, String>,
    errors: Vec<String>,
    said: Report,
    r: Result<Report, String>,
)
    requires
        call_ensures(parse_json, (content,), parsed),
        parsed is Ok ==> call_ensures(find_errors, (&parsed->Ok_0,), errors),
        call_ensures(report, (path, &errors), said),
        call_ensures(validate, (path, content), r),
    ensures
        parsed matches Err(e) ==> r is Err && r->Err_0@ == "invalid JSON in "@ + path@ + ": "@ + e@,
        parsed is Ok ==> r is Ok && r->Ok_0@ == said@,
{
}

/// A file that cannot be read is named with the reason.
pub proof fn law_unreadable(path: &str, why: &str, m: String)
    requires
        call_ensures(read_error, (path, why), m),
    ensures
        m@ == "cannot read "@ + path@ + ": "@ + why@,
{
}

/// What a report shows is all that it says.
pub proof fn law_report_shows_all(r: Report)
    ensures
        r matches Report::Valid(line) ==> r@ == ReportView::Valid(line@),
        r matches Report::Invalid(lines) ==> r@ == ReportView::Invalid(
            lines@.map_values(|s: String| s@),
        ),
{
    if let Report::Invalid(lines) = r {
        assert(texts(lines@) =~= lines@.map_values(|s: String| s@));
    }
}

} // verus!
