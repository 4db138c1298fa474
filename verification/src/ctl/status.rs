//! `status`: show the state of the daemon.

use crate::daemon::enrollment::SOCKET_PATH;
use crate::json::{
    items_view, json_line, json_parse, name_line, one_line, parse_json, reads_as, Json, JsonValue,
};
use crate::text::{decimal, join, joined, result_lines, texts, to_decimal, trim, trimmed};
use vstd::prelude::*;

verus! {

/// The line that asks the daemon for its state.
pub fn request_line() -> (line: String)
    ensures
        line@ == json_line(JsonValue::Text("Status"@)),
        one_line(line@),
        reads_as(line@, JsonValue::Text("Status"@)),
{
    name_line("Status")
}

/// What is reported where the daemon cannot be reached.
pub open spec fn unreachable_text(why: Seq<char>) -> Seq<char> {
    "cannot connect to "@ + SOCKET_PATH@ + ": "@ + why + ". Is the daemon running?"@
}

/// What is reported where the daemon cannot be reached.
pub fn connect_error(why: &str) -> (m: String)
    ensures
        m@ == unreachable_text(why@),
{
    let mut m = "cannot connect to ".to_owned();
    m.append(SOCKET_PATH);
    m.append(": ");
    m.append(why);
    m.append(". Is the daemon running?");
    m
}

/// The text of an item, if it is one.
pub open spec fn item_text() -> spec_fn(JsonValue) -> Option<Seq<char>> {
    |j: JsonValue|
        match j {
            JsonValue::Text(s) => Some(s),
            _ => None,
        }
}

/// The number of a field, or 0.
pub open spec fn number_or_zero(info: JsonValue, name: Seq<char>) -> nat {
    match info.get_number(name) {
        Some(n) => n as nat,
        None => 0,
    }
}

/// The line about the enforcement.
pub open spec fn enforcement_line(info: JsonValue) -> Seq<char> {
    if info.get_bool("attached"@) == Some(true) {
        "\x1b[32m●\x1b[0m"@ + " bpfjailer-daemon: "@ + "enforcing"@
    } else {
        "\x1b[31m○\x1b[0m"@ + " bpfjailer-daemon: "@ + "disabled"@
    }
}

/// The path of the policy.
pub open spec fn policy_of(info: JsonValue) -> Seq<char> {
    match info.get_text("policy_path"@) {
        Some(path) => path,
        None => "?"@,
    }
}

/// The line about the roles, where the answer lists them. Items that are no text
/// are passed over.
pub open spec fn role_lines(info: JsonValue) -> Seq<Seq<char>> {
    match info.get_items("roles"@) {
        Some(items) => {
            let names = items.filter_map(item_text());
            seq![
                "  Roles:        "@ + decimal(names.len()) + " ("@ + joined(names, ", "@) + ")"@,
            ]
        },
        None => Seq::empty(),
    }
}

/// The state of the daemon in lines.
pub open spec fn status_lines(info: JsonValue) -> Seq<Seq<char>> {
    seq![
        enforcement_line(info),
        "  LSM hooks:    "@ + decimal(number_or_zero(info, "lsm_hooks"@)),
        "  Policy:       "@ + policy_of(info),
    ] + role_lines(info) + seq![
        "  Enrollments:  "@ + decimal(number_or_zero(info, "cgroup_enrollments"@)) + " cgroup, "@
            + decimal(number_or_zero(info, "exec_enrollments"@)) + " exec"@,
    ]
}

/// What the daemon's answer means: the lines to show, or the error.
pub open spec fn meaning(line: Seq<char>, response: JsonValue) -> Result<
    Seq<Seq<char>>,
    Seq<char>,
> {
    match response.get("StatusInfo"@) {
        Some(info) => Ok(status_lines(info)),
        None => match response.get_text("Error"@) {
            Some(e) => Err("status query failed: "@ + e),
            None => Ok(seq![trimmed(line)]),
        },
    }
}

/// The texts among some items.
fn names_of(items: &Vec<Json>) -> (names: Vec<String>)
    ensures
        texts(names@) == items_view(items@).filter_map(item_text()),
{
    let ghost all = items_view(items@);
    let ghost f = item_text();
    let mut names: Vec<String> = Vec::new();
    assert(texts(names@) =~= all.take(0).filter_map(f));
    let mut i: usize = 0;
    while i < items.len()
        invariant
            all == items_view(items@),
            f == item_text(),
            0 <= i <= items@.len(),
            texts(names@) == all.take(i as int).filter_map(f),
        decreases items@.len() - i,
    {
        let ghost before = texts(names@);
        proof {
            all.lemma_filter_map_take_succ(f, i as int);
            assert(all[i as int] == items@[i as int]@);
        }
        if let Json::Text(s) = &items[i] {
            names.push(s.clone());
            assert(texts(names@) =~= before + seq![s@]);
        }
        i = i + 1;
        assert(texts(names@) =~= all.take(i as int).filter_map(f));
    }
    assert(all.take(i as int) =~= all);
    names
}

/// The decimal notation of a field, or of 0.
fn number_text(info: &Json, name: &str) -> (s: String)
    ensures
        s@ == decimal(number_or_zero(info@, name@)),
{
    match info.get_number(name) {
        Some(n) => to_decimal(n),
        None => to_decimal(0),
    }
}

/// The state of the daemon in lines.
pub fn render(info: &Json) -> (lines: Vec<String>)
    ensures
        texts(lines@) == status_lines(info@),
{
    let mut lines: Vec<String> = Vec::new();
    let attached = match info.get_bool("attached") {
        Some(b) => b,
        None => false,
    };
    let mut first = (if attached {
        "\x1b[32m●\x1b[0m"
    } else {
        "\x1b[31m○\x1b[0m"
    }).to_owned();
    first.append(" bpfjailer-daemon: ");
    first.append(
        if attached {
            "enforcing"
        } else {
            "disabled"
        },
    );
    lines.push(first);
    let mut hooks = "  LSM hooks:    ".to_owned();
    hooks.append(number_text(info, "lsm_hooks").as_str());
    lines.push(hooks);
    let mut policy = "  Policy:       ".to_owned();
    policy.append(
        match info.get_text("policy_path") {
            Some(path) => path,
            None => "?",
        },
    );
    lines.push(policy);
    if let Some(items) = info.get_items("roles") {
        let names = names_of(items);
        assert(texts(names@).len() == names@.len());
        let mut roles = "  Roles:        ".to_owned();
        roles.append(to_decimal(names.len() as u64).as_str());
        roles.append(" (");
        roles.append(join(&names, ", ").as_str());
        roles.append(")");
        lines.push(roles);
    }
    let mut last = "  Enrollments:  ".to_owned();
    last.append(number_text(info, "cgroup_enrollments").as_str());
    last.append(" cgroup, ");
    last.append(number_text(info, "exec_enrollments").as_str());
    last.append(" exec");
    lines.push(last);
    assert(texts(lines@) =~= status_lines(info@));
    lines
}

/// What the daemon's answer means. `line` is the answer as it came.
pub fn interpret(line: &str, response: &Json) -> (r: Result<Vec<String>, String>)
    ensures
        result_lines(r) == meaning(line@, response@),
{
    match response.get("StatusInfo") {
        Some(info) => Ok(render(info)),
        None => match response.get_text("Error") {
            Some(e) => {
                let mut m = "status query failed: ".to_owned();
                m.append(e);
                Err(m)
            },
            None => {
                let mut lines: Vec<String> = Vec::new();
                lines.push(trim(line));
                assert(texts(lines@) =~= seq![trimmed(line@)]);
                Ok(lines)
            },
        },
    }
}

/// What the daemon's answer means, from the line that came.
pub fn read_response(line: &str) -> (r: Result<Vec<String>, String>)
    ensures
        result_lines(r) == match json_parse(line@) {
            Ok(response) => meaning(line@, response),
            Err(e) => Err("invalid response: "@ + e),
        },
{
    match parse_json(line) {
        Ok(response) => interpret(line, &response),
        Err(e) => {
            let mut m = "invalid response: ".to_owned();
            m.append(e.as_str());
            Err(m)
        },
    }
}

/// The state is shown in four lines, or five where the roles are listed: whether the
/// daemon enforces, the number of hooks, the policy, the roles by number and name, and
/// the enrollments of control groups and of executables. A number that is missing is
/// shown as 0, a policy as a question mark, and a daemon that does not say that it
/// enforces is taken not to.
pub proof fn law_state_is_shown(info: &Json, lines: Vec<String>)
    requires
        call_ensures(render, (info,), lines),
    ensures
        ({
            let listed = info@.get_items("roles"@) is Some;
            let n = lines@.len() as int;
            &&& n == if listed {
                5int
            } else {
                4int
            }
            &&& info@.get_bool("attached"@) == Some(true) ==> lines@[0]@
                == "\x1b[32m●\x1b[0m"@ + " bpfjailer-daemon: "@ + "enforcing"@
            &&& info@.get_bool("attached"@) != Some(true) ==> lines@[0]@
                == "\x1b[31m○\x1b[0m"@ + " bpfjailer-daemon: "@ + "disabled"@
            &&& lines@[1]@ == "  LSM hooks:    "@ + decimal(
                match info@.get_number("lsm_hooks"@) {
                    Some(n) => n as nat,
                    None => 0,
                },
            )
            &&& lines@[2]@ == "  Policy:       "@ + (match info@.get_text("policy_path"@) {
                Some(path) => path,
                None => "?"@,
            })
            &&& listed ==> {
                let names = info@.get_items("roles"@)->Some_0.filter(
                    |j: JsonValue| j is Text,
                ).map_values(|j: JsonValue| j->Text_0);
                lines@[3]@ == "  Roles:        "@ + decimal(names.len()) + " ("@ + joined(
                    names,
                    ", "@,
                ) + ")"@
            }
            &&& lines@[n - 1]@ == "  Enrollments:  "@ + decimal(
                match info@.get_number("cgroup_enrollments"@) {
                    Some(n) => n as nat,
                    None => 0,
                },
            ) + " cgroup, "@ + decimal(
                match info@.get_number("exec_enrollments"@) {
                    Some(n) => n as nat,
                    None => 0,
                },
            ) + " exec"@
        }),
{
    let all = texts(lines@);
    assert(all.len() == lines@.len());
    assert(forall|k: int| 0 <= k < lines@.len() ==> all[k] == (#[trigger] lines@[k])@);
    assert(all[0] == lines@[0]@ && all[1] == lines@[1]@ && all[2] == lines@[2]@ && all[3]
        == lines@[3]@);
    if let Some(items) = info@.get_items("roles"@) {
        lemma_names(items);
        assert(all[4] == lines@[4]@);
    }
}

proof fn lemma_names(items: Seq<JsonValue>)
    ensures
        items.filter_map(item_text()) == items.filter(|j: JsonValue| j is Text).map_values(
            |j: JsonValue| j->Text_0,
        ),
    decreases items.len(),
{
    reveal(Seq::filter);
    if items.len() > 0 {
        lemma_names(items.drop_last());
        assert(items.filter_map(item_text()) =~= items.filter(
            |j: JsonValue| j is Text,
        ).map_values(|j: JsonValue| j->Text_0));
    } else {
        assert(items.filter_map(item_text()) =~= items.filter(
            |j: JsonValue| j is Text,
        ).map_values(|j: JsonValue| j->Text_0));
    }
}

/// An answer with a state is shown, an error is reported, and any other answer is
/// shown as it came, without white space around it.
pub proof fn law_answer_is_shown(
    line: &str,
    response: &Json,
    info: &Json,
    state: Vec<String>,
    r: Result<Vec<String>, String>,
)
    requires
        call_ensures(interpret, (line, response), r),
        response@.get("StatusInfo"@) is Some ==> info@ == response@.get("StatusInfo"@)->Some_0,
        call_ensures(render, (info,), state),
    ensures
        response@.get("StatusInfo"@) is Some ==> r is Ok && r->Ok_0@.map_values(|s: String| s@)
            == state@.map_values(|s: String| s@),
        response@.get("StatusInfo"@) is None ==> (response@.get_text("Error"@) matches Some(e)
            ==> r is Err && r->Err_0@ == "status query failed: "@ + e),
        response@.get("StatusInfo"@) is None && response@.get_text("Error"@) is None ==> r is Ok
            && r->Ok_0@.map_values(|s: String| s@) == seq![trimmed(line@)],
{
    if r is Ok {
        assert(r->Ok_0@.map_values(|s: String| s@) =~= texts(r->Ok_0@));
    }
    assert(state@.map_values(|s: String| s@) =~= texts(state@));
}

/// A line that is no JSON is reported as such, and every other one is taken for what
/// it says.
pub proof fn law_line_is_read(
    line: &str,
    parsed: Result<Json, String>,
    said: Result<Vec<String>, String>,
    r: Result<Vec<String>, String>,
)
    requires
        call_ensures(parse_json, (line,), parsed),
        parsed is Ok ==> call_ensures(interpret, (line, &parsed->Ok_0), said),
        call_ensures(read_response, (line,), r),
    ensures
        parsed matches Err(e) ==> r is Err && r->Err_0@ == "invalid response: "@ + e@,
        parsed is Ok ==> result_lines(r) == result_lines(said),
{
}

/// The request is the one line from which `Status` is read.
pub proof fn law_request(line: String)
    requires
        call_ensures(request_line, (), line),
    ensures
        json_parse(line@) == Ok::<JsonValue, Seq<char>>(JsonValue::Text("Status"@)),
        line@.len() > 0 && line@.last() == '\n',
{
}

/// Where the daemon cannot be reached, its socket and the reason are named.
pub proof fn law_unreachable(why: &str, m: String)
    requires
        call_ensures(connect_error, (why,), m),
    ensures
        m@ == "cannot connect to "@ + "/run/bpfjailer/enrollment.sock"@ + ": "@ + why@
            + ". Is the daemon running?"@,
{
}

} // verus!
