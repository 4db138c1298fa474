//! `effective-policy`: show the rules in force for the caller, with where they
//! come from.

use crate::daemon::enrollment::SOCKET_PATH;
use crate::json::{
    items_view, json_line, json_parse, name_line, one_line, parse_json, reads_as, Json, JsonValue,
};
use crate::text::{decimal, pad, padded, repeat, repeated, result_lines, texts, to_decimal};
use vstd::prelude::*;

verus! {

/// The line that asks the daemon for the rules in force.
pub fn request_line() -> (line: String)
    ensures
        line@ == json_line(JsonValue::Text("EffectivePolicy"@)),
        one_line(line@),
        reads_as(line@, JsonValue::Text("EffectivePolicy"@)),
{
    name_line("EffectivePolicy")
}

/// What is reported where the daemon cannot be reached.
pub open spec fn unreachable_text(why: Seq<char>) -> Seq<char> {
    "cannot connect to "@ + SOCKET_PATH@ + ": "@ + why + ". Is the daemon running?"@
}

/// What is reported where the daemon cannot be reached.
pub fn connect_error(why: &str) -> (m: String)
    ensures
        m@ == unreachable_text(why@),
{
    let mut m = "cannot connect to ".to_owned();
    m.append(SOCKET_PATH);
    m.append(": ");
    m.append(why);
    m.append(". Is the daemon running?");
    m
}

/// The text of a field, or a question mark.
pub open spec fn text_or_mark(j: JsonValue, name: Seq<char>) -> Seq<char> {
    match j.get_text(name) {
        Some(s) => s,
        None => "?"@,
    }
}

/// A rule in a line: what it says, where it comes from, and whether it is locked.
pub open spec fn rule_line(rule: JsonValue) -> Seq<char> {
    "    "@ + padded(text_or_mark(rule, "rule"@), 40) + " ("@ + text_or_mark(rule, "source"@)
        + ")"@ + (if rule.get_bool("lockdown"@) == Some(true) {
        " [LOCKED]"@
    } else {
        ""@
    })
}

/// A list of rules under a heading; nothing where there are none.
pub open spec fn rule_lines(role: JsonValue, name: Seq<char>, heading: Seq<char>) -> Seq<
    Seq<char>,
> {
    match role.get_items(name) {
        Some(items) => if items.len() == 0 {
            Seq::empty()
        } else {
            seq![heading] + items.map_values(|r: JsonValue| rule_line(r))
        },
        None => Seq::empty(),
    }
}

/// A flag in a line, if it has a name and a value.
pub open spec fn flag_line() -> spec_fn(JsonValue) -> Option<Seq<char>> {
    |f: JsonValue|
        match (f.item(0), f.item(1)) {
            (Some(JsonValue::Text(name)), Some(JsonValue::Bool(value))) => Some(
                "    "@ + padded(name, 20) + " "@ + (if value {
                    "yes"@
                } else {
                    "no"@
                }),
            ),
            _ => None,
        }
}

/// The flags of a role, where the answer lists them.
pub open spec fn flag_lines(role: JsonValue) -> Seq<Seq<char>> {
    match role.get_items("flags"@) {
        Some(items) => seq!["  Flags:"@] + items.filter_map(flag_line()),
        None => Seq::empty(),
    }
}

/// The number of a role, or 0.
pub open spec fn role_number(role: JsonValue) -> nat {
    match role.get_number("id"@) {
        Some(n) => n as nat,
        None => 0,
    }
}

/// The proxy of a role, where it has one.
pub open spec fn proxy_lines(role: JsonValue) -> Seq<Seq<char>> {
    match role.get_text("proxy"@) {
        Some(proxy) => seq!["  Proxy: "@ + proxy],
        None => Seq::empty(),
    }
}

/// A role in lines, with an empty one at the end.
pub open spec fn role_lines(role: JsonValue) -> Seq<Seq<char>> {
    seq![
        "Role: "@ + text_or_mark(role, "name"@) + " (id="@ + decimal(role_number(role)) + ")"@,
        repeated('=', 40),
    ] + flag_lines(role) + rule_lines(role, "file_paths"@, "  File paths:"@) + rule_lines(
        role,
        "ip_rules"@,
        "  IP rules:"@,
    ) + rule_lines(role, "domain_rules"@, "  Domain rules:"@) + proxy_lines(role) + seq![""@]
}

/// All roles in lines.
pub open spec fn all_role_lines(roles: Seq<JsonValue>) -> Seq<Seq<char>>
    decreases roles.len(),
{
    if roles.len() == 0 {
        Seq::empty()
    } else {
        all_role_lines(roles.drop_last()) + role_lines(roles.last())
    }
}

/// What the daemon's answer means: the lines to show, or the error.
pub open spec fn meaning(response: JsonValue) -> Result<Seq<Seq<char>>, Seq<char>> {
    match response.get_text("Error"@) {
        Some(e) => Err("daemon error: "@ + e),
        None => match response.get("EffectivePolicyInfo"@) {
            None => Err("unexpected response"@),
            Some(info) => match info.get_items("roles"@) {
                None => Err("missing roles in response"@),
                Some(roles) => Ok(all_role_lines(roles)),
            },
        },
    }
}

/// The text of a field, or a question mark.
fn text_of<'a>(j: &'a Json, name: &str) -> (s: &'a str)
    ensures
        s@ == text_or_mark(j@, name@),
{
    match j.get_text(name) {
        Some(s) => s,
        None => "?",
    }
}

/// A rule in a line.
pub fn print_rule(rule: &Json) -> (line: String)
    ensures
        line@ == rule_line(rule@),
{
    let mut line = "    ".to_owned();
    line.append(pad(text_of(rule, "rule"), 40).as_str());
    line.append(" (");
    line.append(text_of(rule, "source"));
    line.append(")");
    let locked = match rule.get_bool("lockdown") {
        Some(b) => b,
        None => false,
    };
    line.append(
        if locked {
            " [LOCKED]"
        } else {
            ""
        },
    );
    line
}

/// Puts a list of rules under a heading behind other lines.
fn push_rules(lines: &mut Vec<String>, role: &Json, name: &str, heading: &str)
    ensures
        texts(final(lines)@) == texts(old(lines)@) + rule_lines(role@, name@, heading@),
{
    let ghost before = texts(lines@);
    if let Some(items) = role.get_items(name) {
        let ghost all = items_view(items@).map_values(|r: JsonValue| rule_line(r));
        if items.len() > 0 {
            lines.push(heading.to_owned());
            assert(texts(lines@) =~= before + (seq![heading@] + all.take(0)));
            let mut i: usize = 0;
            while i < items.len()
                invariant
                    all == items_view(items@).map_values(|r: JsonValue| rule_line(r)),
                    0 <= i <= items@.len(),
                    texts(lines@) == before + (seq![heading@] + all.take(i as int)),
                decreases items@.len() - i,
            {
                let ghost held = texts(lines@);
                lines.push(print_rule(&items[i]));
                assert(all[i as int] == rule_line(items@[i as int]@));
                assert(texts(lines@) =~= held.push(all[i as int]));
                assert(before + (seq![heading@] + all.take(i + 1)) =~= held.push(
                    all[i as int],
                ));
                i = i + 1;
            }
            assert(all.take(i as int) =~= all);
        }
    }
    assert(texts(lines@) =~= before + rule_lines(role@, name@, heading@));
}

/// A flag in a line, if it has a name and a value.
fn print_flag(f: &Json) -> (line: Option<String>)
    ensures
        crate::common::optional_text(line) == flag_line()(f@),
{
    if let Some(Json::Text(name)) = f.item(0) {
        if let Some(Json::Bool(value)) = f.item(1) {
            let mut line = "    ".to_owned();
            line.append(pad(name.as_str(), 20).as_str());
            line.append(" ");
            line.append(
                if *value {
                    "yes"
                } else {
                    "no"
                },
            );
            return Some(line);
        }
    }
    None
}

/// Puts the flags of a role behind other lines.
fn push_flags(lines: &mut Vec<String>, role: &Json)
    ensures
        texts(final(lines)@) == texts(old(lines)@) + flag_lines(role@),
{
    let ghost before = texts(lines@);
    if let Some(items) = role.get_items("flags") {
        let ghost all = items_view(items@);
        let ghost f = flag_line();
        lines.push("  Flags:".to_owned());
        assert(texts(lines@) =~= before + (seq!["  Flags:"@] + all.take(0).filter_map(f)));
        let mut i: usize = 0;
        while i < items.len()
            invariant
                all == items_view(items@),
                f == flag_line(),
                0 <= i <= items@.len(),
                texts(lines@) == before + (seq!["  Flags:"@] + all.take(i as int).filter_map(f)),
            decreases items@.len() - i,
        {
            let ghost held = texts(lines@);
            proof {
                all.lemma_filter_map_take_succ(f, i as int);
                assert(all[i as int] == items@[i as int]@);
            }
            if let Some(line) = print_flag(&items[i]) {
                let ghost t = line@;
                lines.push(line);
                assert(texts(lines@) =~= held + seq![t]);
            }
            i = i + 1;
            assert(texts(lines@) =~= before + (seq!["  Flags:"@] + all.take(
                i as int,
            ).filter_map(f)));
        }
        assert(all.take(i as int) =~= all);
    }
    assert(texts(lines@) =~= before + flag_lines(role@));
}

/// Puts a role behind other lines.
fn push_role(lines: &mut Vec<String>, role: &Json)
    ensures
        texts(final(lines)@) == texts(old(lines)@) + role_lines(role@),
{
    let ghost before = texts(lines@);
    let mut head = "Role: ".to_owned();
    head.append(text_of(role, "name"));
    head.append(" (id=");
    head.append(
        match role.get_number("id") {
            Some(n) => to_decimal(n),
            None => to_decimal(0),
        }.as_str(),
    );
    head.append(")");
    let ghost top = seq![head@, repeated('=', 40)];
    lines.push(head);
    lines.push(repeat('=', 40));
    assert(texts(lines@) =~= before + top);
    push_flags(lines, role);
    push_rules(lines, role, "file_paths", "  File paths:");
    push_rules(lines, role, "ip_rules", "  IP rules:");
    push_rules(lines, role, "domain_rules", "  Domain rules:");
    let ghost held = texts(lines@);
    if let Some(proxy) = role.get_text("proxy") {
        let mut line = "  Proxy: ".to_owned();
        line.append(proxy);
        lines.push(line);
    }
    lines.push("".to_owned());
    assert(texts(lines@) =~= held + proxy_lines(role@) + seq![""@]);
    assert(texts(lines@) =~= before + role_lines(role@));
}

/// What the daemon's answer means.
pub fn interpret(response: &Json) -> (r: Result<Vec<String>, String>)
    ensures
        result_lines(r) == meaning(response@),
{
    if let Some(e) = response.get_text("Error") {
        let mut m = "daemon error: ".to_owned();
        m.append(e);
        return Err(m);
    }
    let info = match response.get("EffectivePolicyInfo") {
        Some(info) => info,
        None => {
            return Err("unexpected response".to_owned());
        },
    };
    let roles = match info.get_items("roles") {
        Some(roles) => roles,
        None => {
            return Err("missing roles in response".to_owned());
        },
    };
    let ghost all = items_view(roles@);
    let mut lines: Vec<String> = Vec::new();
    assert(texts(lines@) =~= all_role_lines(all.take(0)));
    let mut i: usize = 0;
    while i < roles.len()
        invariant
            all == items_view(roles@),
            0 <= i <= roles@.len(),
            texts(lines@) == all_role_lines(all.take(i as int)),
        decreases roles@.len() - i,
    {
        assert(all.take(i + 1).drop_last() =~= all.take(i as int));
        assert(all[i as int] == roles@[i as int]@);
        push_role(&mut lines, &roles[i]);
        i = i + 1;
    }
    assert(all.take(i as int) =~= all);
    Ok(lines)
}

/// What the daemon's answer means, from the line that came.
pub fn read_response(line: &str) -> (r: Result<Vec<String>, String>)
    ensures
        result_lines(r) == match json_parse(line@) {
            Ok(response) => meaning(response),
            Err(e) => Err("invalid response: "@ + e),
        },
{
    match parse_json(line) {
        Ok(response) => interpret(&response),
        Err(e) => {
            let mut m = "invalid response: ".to_owned();
            m.append(e.as_str());
            Err(m)
        },
    }
}

/// A rule is shown in a line with what it says, filled up to forty characters, whom it
/// comes from, and a mark where it is locked. What the answer does not say is shown as
/// a question mark.
pub proof fn law_rule_in_a_line(rule: &Json, line: String)
    requires
        call_ensures(print_rule, (rule,), line),
    ensures
        ({
            let says = match rule@.get_text("rule"@) {
                Some(s) => s,
                None => "?"@,
            };
            let source = match rule@.get_text("source"@) {
                Some(s) => s,
                None => "?"@,
            };
            let plain = "    "@ + padded(says, 40) + " ("@ + source + ")"@;
            &&& rule@.get_bool("lockdown"@) == Some(true) ==> line@ == plain + " [LOCKED]"@
            &&& rule@.get_bool("lockdown"@) != Some(true) ==> line@ == plain
        }),
{
    reveal_strlit("");
    let plain = "    "@ + padded(text_or_mark(rule@, "rule"@), 40) + " ("@ + text_or_mark(
        rule@,
        "source"@,
    ) + ")"@;
    assert(plain + ""@ =~= plain);
}

/// The heading of a list stands directly before the line of its first rule, and those
/// of the others follow in order.
pub open spec fn listed(
    lines: Seq<Seq<char>>,
    at: int,
    heading: Seq<char>,
    items: Seq<JsonValue>,
) -> bool {
    &&& 0 <= at
    &&& at + items.len() < lines.len()
    &&& lines[at] == heading
    &&& forall|k: int|
        0 <= k < items.len() ==> #[trigger] lines[at + 1 + k] == rule_line(items[k])
}

/// The lines of a role stand among those of all roles, in one piece.
proof fn lemma_role_stands(roles: Seq<JsonValue>, i: int) -> (at: int)
    requires
        0 <= i < roles.len(),
    ensures
        0 <= at,
        at + role_lines(roles[i]).len() <= all_role_lines(roles).len(),
        forall|k: int|
            0 <= k < role_lines(roles[i]).len() ==> all_role_lines(roles)[at + k]
                == #[trigger] role_lines(roles[i])[k],
    decreases roles.len(),
{
    let before = roles.drop_last();
    let first = all_role_lines(before);
    if i < before.len() {
        assert(before[i] == roles[i]);
        let at = lemma_role_stands(before, i);
        assert forall|k: int| 0 <= k < role_lines(roles[i]).len() implies all_role_lines(roles)[at
            + k] == #[trigger] role_lines(roles[i])[k] by {
            assert(first[at + k] == role_lines(before[i])[k]);
        }
        at
    } else {
        first.len() as int
    }
}

/// Where a list of a role stands among the lines of the role.
#[verifier::rlimit(40)]
proof fn lemma_list_stands(role: JsonValue) -> (at: (int, int, int))
    ensures
        role.get_items("file_paths"@) matches Some(items) ==> items.len() > 0 ==> listed(
            role_lines(role),
            at.0,
            "  File paths:"@,
            items,
        ),
        role.get_items("ip_rules"@) matches Some(items) ==> items.len() > 0 ==> listed(
            role_lines(role),
            at.1,
            "  IP rules:"@,
            items,
        ),
        role.get_items("domain_rules"@) matches Some(items) ==> items.len() > 0 ==> listed(
            role_lines(role),
            at.2,
            "  Domain rules:"@,
            items,
        ),
{
    let a: int = 2 + flag_lines(role).len() as int;
    let paths = rule_lines(role, "file_paths"@, "  File paths:"@);
    let ips = rule_lines(role, "ip_rules"@, "  IP rules:"@);
    let domains = rule_lines(role, "domain_rules"@, "  Domain rules:"@);
    let b: int = a + paths.len();
    let c: int = b + ips.len();
    let all = role_lines(role);
    assert(forall|k: int| 0 <= k < paths.len() ==> all[a + k] == #[trigger] paths[k]);
    assert(forall|k: int| 0 <= k < ips.len() ==> all[b + k] == #[trigger] ips[k]);
    assert(forall|k: int| 0 <= k < domains.len() ==> all[c + k] == #[trigger] domains[k]);
    if let Some(items) = role.get_items("file_paths"@) {
        if items.len() > 0 {
            assert(all[a] == paths[0]);
            assert forall|k: int| 0 <= k < items.len() implies #[trigger] all[a + 1 + k]
                == rule_line(items[k]) by {
                assert(all[a + (k + 1)] == paths[k + 1]);
            }
        }
    }
    if let Some(items) = role.get_items("ip_rules"@) {
        if items.len() > 0 {
            assert(all[b] == ips[0]);
            assert forall|k: int| 0 <= k < items.len() implies #[trigger] all[b + 1 + k]
                == rule_line(items[k]) by {
                assert(all[b + (k + 1)] == ips[k + 1]);
            }
        }
    }
    if let Some(items) = role.get_items("domain_rules"@) {
        if items.len() > 0 {
            assert(all[c] == domains[0]);
            assert forall|k: int| 0 <= k < items.len() implies #[trigger] all[c + 1 + k]
                == rule_line(items[k]) by {
                assert(all[c + (k + 1)] == domains[k + 1]);
            }
        }
    }
    (a, b, c)
}

/// Every rule of every role of the answer is shown: each of the three lists that is not
/// empty has its heading, directly followed by the line of each of its rules, in order.
pub proof fn law_every_rule_is_shown(
    response: &Json,
    r: Result<Vec<String>, String>,
    roles: Seq<JsonValue>,
    i: int,
)
    requires
        call_ensures(interpret, (response,), r),
        response@.get_text("Error"@) is None,
        response@.get("EffectivePolicyInfo"@) is Some,
        response@.get("EffectivePolicyInfo"@)->Some_0.get_items("roles"@) == Some(roles),
        0 <= i < roles.len(),
    ensures
        r is Ok,
        ({
            let lines = r->Ok_0@.map_values(|s: String| s@);
            &&& roles[i].get_items("file_paths"@) matches Some(items) ==> items.len() > 0
                ==> exists|at: int|
                {
                    &&& 0 <= at
                    &&& at + items.len() < lines.len()
                    &&& #[trigger] lines[at] == "  File paths:"@
                    &&& forall|k: int|
                        0 <= k < items.len() ==> #[trigger] lines[at + 1 + k] == rule_line(items[k])
                }
            &&& roles[i].get_items("ip_rules"@) matches Some(items) ==> items.len() > 0
                ==> exists|at: int|
                {
                    &&& 0 <= at
                    &&& at + items.len() < lines.len()
                    &&& #[trigger] lines[at] == "  IP rules:"@
                    &&& forall|k: int|
                        0 <= k < items.len() ==> #[trigger] lines[at + 1 + k] == rule_line(items[k])
                }
            &&& roles[i].get_items("domain_rules"@) matches Some(items) ==> items.len() > 0
                ==> exists|at: int|
                {
                    &&& 0 <= at
                    &&& at + items.len() < lines.len()
                    &&& #[trigger] lines[at] == "  Domain rules:"@
                    &&& forall|k: int|
                        0 <= k < items.len() ==> #[trigger] lines[at + 1 + k] == rule_line(items[k])
                }
        }),
{
    let lines = r->Ok_0@.map_values(|s: String| s@);
    assert(lines =~= texts(r->Ok_0@));
    let start = lemma_role_stands(roles, i);
    let at = lemma_list_stands(roles[i]);
    let own = role_lines(roles[i]);
    assert(lines == all_role_lines(roles));
    if let Some(items) = roles[i].get_items("file_paths"@) {
        if items.len() > 0 {
            lemma_listed(lines, start, own, at.0, "  File paths:"@, items);
            assert(lines[start + at.0] == "  File paths:"@);
        }
    }
    if let Some(items) = roles[i].get_items("ip_rules"@) {
        if items.len() > 0 {
            lemma_listed(lines, start, own, at.1, "  IP rules:"@, items);
            assert(lines[start + at.1] == "  IP rules:"@);
        }
    }
    if let Some(items) = roles[i].get_items("domain_rules"@) {
        if items.len() > 0 {
            lemma_listed(lines, start, own, at.2, "  Domain rules:"@, items);
            assert(lines[start + at.2] == "  Domain rules:"@);
        }
    }
}

proof fn lemma_listed(
    lines: Seq<Seq<char>>,
    start: int,
    own: Seq<Seq<char>>,
    at: int,
    heading: Seq<char>,
    items: Seq<JsonValue>,
)
    requires
        0 <= start,
        start + own.len() <= lines.len(),
        forall|k: int| 0 <= k < own.len() ==> lines[start + k] == #[trigger] own[k],
        listed(own, at, heading, items),
    ensures
        listed(lines, start + at, heading, items),
{
    assert(lines[start + at] == own[at]);
    assert forall|k: int| 0 <= k < items.len() implies #[trigger] lines[start + at + 1 + k]
        == rule_line(items[k]) by {
        assert(lines[start + (at + 1 + k)] == own[at + 1 + k]);
    }
}

/// A list of rules as it is shown: nothing where it is missing or empty, and else its
/// heading with the line of each rule behind it.
proof fn lemma_shown_list(role: JsonValue, name: Seq<char>, heading: Seq<char>)
    ensures
        role.get_items(name) is None || role.get_items(name)->Some_0.len() == 0 ==> rule_lines(
            role,
            name,
            heading,
        ).len() == 0,
        role.get_items(name) matches Some(items) ==> items.len() > 0 ==> rule_lines(
            role,
            name,
            heading,
        ).len() == items.len() + 1 && listed(rule_lines(role, name, heading), 0, heading, items),
{
    if let Some(items) = role.get_items(name) {
        let block = rule_lines(role, name, heading);
        if items.len() > 0 {
            assert forall|k: int| 0 <= k < items.len() implies #[trigger] block[0 + 1 + k]
                == rule_line(items[k]) by {
                assert(block[k + 1] == items.map_values(|r: JsonValue| rule_line(r))[k]);
            }
        }
    }
}

/// The lines of a role are its name and number over a bar, its flags, its path rules,
/// its address rules, its domain rules, its proxy and an empty line, in this order and
/// without anything else; what a role does not have takes no line.
pub proof fn law_lines_of_a_role(role: JsonValue) -> (parts: Seq<Seq<Seq<char>>>)
    ensures
        parts.len() == 7,
        all_role_lines(seq![role]) == parts[0] + parts[1] + parts[2] + parts[3] + parts[4]
            + parts[5] + parts[6],
        parts[0] == seq![
            "Role: "@ + (match role.get_text("name"@) {
                Some(s) => s,
                None => "?"@,
            }) + " (id="@ + decimal(
                match role.get_number("id"@) {
                    Some(n) => n as nat,
                    None => 0,
                },
            ) + ")"@,
            repeated('=', 40),
        ],
        role.get_items("flags"@) is None ==> parts[1].len() == 0,
        role.get_items("flags"@) matches Some(items) ==> parts[1] == seq!["  Flags:"@]
            + items.filter_map(flag_line()),
        role.get_items("file_paths"@) is None || role.get_items("file_paths"@)->Some_0.len() == 0
            ==> parts[2].len() == 0,
        role.get_items("file_paths"@) matches Some(items) ==> items.len() > 0 ==> parts[2].len()
            == items.len() + 1 && listed(parts[2], 0, "  File paths:"@, items),
        role.get_items("ip_rules"@) is None || role.get_items("ip_rules"@)->Some_0.len() == 0
            ==> parts[3].len() == 0,
        role.get_items("ip_rules"@) matches Some(items) ==> items.len() > 0 ==> parts[3].len()
            == items.len() + 1 && listed(parts[3], 0, "  IP rules:"@, items),
        role.get_items("domain_rules"@) is None || role.get_items("domain_rules"@)->Some_0.len()
            == 0 ==> parts[4].len() == 0,
        role.get_items("domain_rules"@) matches Some(items) ==> items.len() > 0 ==> parts[4].len()
            == items.len() + 1 && listed(parts[4], 0, "  Domain rules:"@, items),
        role.get_text("proxy"@) is None ==> parts[5].len() == 0,
        role.get_text("proxy"@) matches Some(proxy) ==> parts[5] == seq!["  Proxy: "@ + proxy],
        parts[6] == seq![""@],
{
    let one = seq![role];
    assert(one.drop_last() =~= Seq::<JsonValue>::empty());
    assert(all_role_lines(one.drop_last()) =~= Seq::empty());
    assert(all_role_lines(one) =~= role_lines(role));
    lemma_shown_list(role, "file_paths"@, "  File paths:"@);
    lemma_shown_list(role, "ip_rules"@, "  IP rules:"@);
    lemma_shown_list(role, "domain_rules"@, "  Domain rules:"@);
    let head = seq![
        "Role: "@ + text_or_mark(role, "name"@) + " (id="@ + decimal(role_number(role)) + ")"@,
        repeated('=', 40),
    ];
    seq![
        head,
        flag_lines(role),
        rule_lines(role, "file_paths"@, "  File paths:"@),
        rule_lines(role, "ip_rules"@, "  IP rules:"@),
        rule_lines(role, "domain_rules"@, "  Domain rules:"@),
        proxy_lines(role),
        seq![""@],
    ]
}

/// The lines of some roles come behind those of the roles before them.
pub proof fn law_roles_in_order(a: Seq<JsonValue>, b: Seq<JsonValue>)
    ensures
        all_role_lines(a + b) == all_role_lines(a) + all_role_lines(b),
    decreases b.len(),
{
    if b.len() == 0 {
        assert(a + b =~= a);
        assert(all_role_lines(a) + all_role_lines(b) =~= all_role_lines(a));
    } else {
        law_roles_in_order(a, b.drop_last());
        assert((a + b).drop_last() =~= a + b.drop_last());
        assert(all_role_lines(a + b) =~= all_role_lines(a) + all_role_lines(b));
    }
}

/// A flag is shown by its name and `yes` or `no`; what is no name with a truth value is
/// passed over.
pub proof fn law_flag_in_a_line(f: JsonValue, name: Seq<char>, value: bool)
    ensures
        f.item(0) == Some(JsonValue::Text(name)) && f.item(1) == Some(JsonValue::Bool(value))
            ==> flag_line()(f) == Some(
            "    "@ + padded(name, 20) + " "@ + (if value {
                "yes"@
            } else {
                "no"@
            }),
        ),
        flag_line()(f) is Some ==> f.item(0) is Some && f.item(0)->Some_0 is Text && f.item(1)
            is Some && f.item(1)->Some_0 is Bool,
{
}

/// The answer is shown exactly where it brings a list of roles and no error; otherwise
/// it is said what is wrong.
pub proof fn law_answer_is_shown(response: &Json, r: Result<Vec<String>, String>)
    requires
        call_ensures(interpret, (response,), r),
    ensures
        response@.get_text("Error"@) matches Some(e) ==> r is Err && r->Err_0@ == "daemon error: "@
            + e,
        response@.get_text("Error"@) is None && response@.get("EffectivePolicyInfo"@) is None
            ==> r is Err && r->Err_0@ == "unexpected response"@,
        response@.get_text("Error"@) is None ==> (response@.get("EffectivePolicyInfo"@) matches Some(
            info,
        ) ==> {
            &&& info.get_items("roles"@) is None ==> r is Err && r->Err_0@
                == "missing roles in response"@
            &&& info.get_items("roles"@) matches Some(roles) ==> r is Ok && r->Ok_0@.map_values(
                |s: String| s@,
            ) == all_role_lines(roles)
        }),
{
    if r is Ok {
        assert(r->Ok_0@.map_values(|s: String| s@) =~= texts(r->Ok_0@));
    }
}

/// A line that is no JSON is reported as such, and every other one is taken for what
/// it says.
pub proof fn law_line_is_read(
    line: &str,
    parsed: Result<Json, String>,
    said: Result<Vec<String>, String>,
    r: Result<Vec<String>, String>,
)
    requires
        call_ensures(parse_json, (line,), parsed),
        parsed is Ok ==> call_ensures(interpret, (&parsed->Ok_0,), said),
        call_ensures(read_response, (line,), r),
    ensures
        parsed matches Err(e) ==> r is Err && r->Err_0@ == "invalid response: "@ + e@,
        parsed is Ok ==> result_lines(r) == result_lines(said),
{
}

/// The request is the one line from which `EffectivePolicy` is read.
pub proof fn law_request(line: String)
    requires
        call_ensures(request_line, (), line),
    ensures
        json_parse(line@) == Ok::<JsonValue, Seq<char>>(JsonValue::Text("EffectivePolicy"@)),
        line@.len() > 0 && line@.last() == '\n',
{
}

/// Where the daemon cannot be reached, its socket and the reason are named.
pub proof fn law_unreachable(why: &str, m: String)
    requires
        call_ensures(connect_error, (why,), m),
    ensures
        m@ == "cannot connect to "@ + "/run/bpfjailer/enrollment.sock"@ + ": "@ + why@
            + ". Is the daemon running?"@,
{
}

} // verus!
