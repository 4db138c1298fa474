//! `enroll`: place a process under a role.

use crate::daemon::enrollment::SOCKET_PATH;
use crate::json::{
    field_line, json_line, json_parse, named_field, one_line, parse_json, reads_as, Json, JsonValue,
};
use crate::text::{decimal, result_text, to_decimal, trim, trimmed};
use vstd::prelude::*;

verus! {

/// The request to enroll the caller under a role.
pub open spec fn request(role: Seq<char>) -> JsonValue {
    named_field("EnrollSelf"@, "role"@, role)
}

/// What is reported where another process is to be enrolled: the daemon takes the
/// process from the connection, so that a process can enroll itself alone.
pub open spec fn foreign_text(pid: u32, own: u32) -> Seq<char> {
    "cannot enroll PID "@ + decimal(pid as nat) + ": a process can only enroll itself (PID "@
        + decimal(own as nat) + ")"@
}

/// What is reported where another process is to be enrolled.
fn foreign_error(pid: u32, own: u32) -> (m: String)
    ensures
        m@ == foreign_text(pid, own),
{
    let mut m = "cannot enroll PID ".to_owned();
    m.append(to_decimal(pid as u64).as_str());
    m.append(": a process can only enroll itself (PID ");
    m.append(to_decimal(own as u64).as_str());
    m.append(")");
    m
}

/// The line that asks the daemon to enroll the process `pid` under a role, where
/// that is the caller, which has the number `own`.
pub fn request_line(pid: u32, own: u32, role: &str) -> (r: Result<String, String>)
    ensures
        pid != own ==> r is Err && r->Err_0@ == foreign_text(pid, own),
        pid == own ==> r is Ok && r->Ok_0@ == json_line(request(role@)),
        r matches Ok(line) ==> one_line(line@) && reads_as(line@, request(role@)),
{
    if pid != own {
        return Err(foreign_error(pid, own));
    }
    Ok(field_line("EnrollSelf", "role", role))
}

/// What is reported where the daemon cannot be reached.
pub open spec fn unreachable_text(why: Seq<char>) -> Seq<char> {
    "cannot connect to "@ + SOCKET_PATH@ + ": "@ + why + ". Is the daemon running?"@
}

/// What is reported where the daemon cannot be reached.
pub fn connect_error(why: &str) -> (m: String)
    ensures
        m@ == unreachable_text(why@),
{
    let mut m = "cannot connect to ".to_owned();
    m.append(SOCKET_PATH);
    m.append(": ");
    m.append(why);
    m.append(". Is the daemon running?");
    m
}

/// How a report of an enrollment begins.
pub open spec fn enrolled_text(pid: u32, role: Seq<char>) -> Seq<char> {
    "Enrolled PID "@ + decimal(pid as nat) + " into role \""@ + role + "\""@
}

/// The control group in the daemon's answer to an enrollment.
pub open spec fn enrolled_cgroup(response: JsonValue) -> Option<Seq<char>> {
    match response.get("Enrolled"@) {
        Some(info) => info.get_text("cgroup"@),
        None => None,
    }
}

/// What the daemon's answer means: the report, or the error. An answer to the
/// caller says nothing of another process.
pub open spec fn meaning(
    pid: u32,
    own: u32,
    role: Seq<char>,
    line: Seq<char>,
    response: JsonValue,
) -> Result<Seq<char>, Seq<char>> {
    if pid != own {
        Err(foreign_text(pid, own))
    } else {
        own_meaning(pid, role, line, response)
    }
}

/// What the daemon's answer means for the caller itself.
pub open spec fn own_meaning(
    pid: u32,
    role: Seq<char>,
    line: Seq<char>,
    response: JsonValue,
) -> Result<Seq<char>, Seq<char>> {
    match enrolled_cgroup(response) {
        Some(cgroup) => Ok(enrolled_text(pid, role) + " (cgroup: "@ + cgroup + ")"@),
        None => if response == JsonValue::Text("Success"@) {
            Ok(enrolled_text(pid, role))
        } else {
            match response.get_text("Error"@) {
                Some(e) => Err("enrollment failed: "@ + e),
                None => Err("unexpected response: "@ + trimmed(line)),
            }
        },
    }
}

/// The control group in the daemon's answer to an enrollment.
pub fn cgroup_of(response: &Json) -> (r: Option<&str>)
    ensures
        match r {
            Some(s) => enrolled_cgroup(response@) == Some(s@),
            None => enrolled_cgroup(response@) is None,
        },
{
    match response.get("Enrolled") {
        Some(info) => info.get_text("cgroup"),
        None => None,
    }
}

/// What the daemon's answer means. `line` is the answer as it came.
pub fn interpret(pid: u32, own: u32, role: &str, line: &str, response: &Json) -> (r: Result<
    String,
    String,
>)
    ensures
        result_text(r) == meaning(pid, own, role@, line@, response@),
{
    if pid != own {
        return Err(foreign_error(pid, own));
    }
    let mut done = "Enrolled PID ".to_owned();
    done.append(to_decimal(pid as u64).as_str());
    done.append(" into role \"");
    done.append(role);
    done.append("\"");
    match cgroup_of(response) {
        Some(cgroup) => {
            done.append(" (cgroup: ");
            done.append(cgroup);
            done.append(")");
            Ok(done)
        },
        None => if response.is_text("Success") {
            Ok(done)
        } else {
            match response.get_text("Error") {
                Some(e) => {
                    let mut m = "enrollment failed: ".to_owned();
                    m.append(e);
                    Err(m)
                },
                None => {
                    let mut m = "unexpected response: ".to_owned();
                    m.append(trim(line).as_str());
                    Err(m)
                },
            }
        },
    }
}

/// What the daemon's answer means, from the line that came.
pub fn read_response(pid: u32, own: u32, role: &str, line: &str) -> (r: Result<String, String>)
    ensures
        result_text(r) == match json_parse(line@) {
            Ok(response) => meaning(pid, own, role@, line@, response),
            Err(e) => Err("invalid response: "@ + e),
        },
{
    match parse_json(line) {
        Ok(response) => interpret(pid, own, role, line, &response),
        Err(e) => {
            let mut m = "invalid response: ".to_owned();
            m.append(e.as_str());
            Err(m)
        },
    }
}

/// No enrollment of another process is ever asked for or reported.
pub proof fn law_only_the_caller_is_reported(
    pid: u32,
    own: u32,
    role: Seq<char>,
    line: Seq<char>,
    response: JsonValue,
)
    ensures
        meaning(pid, own, role, line, response) is Ok ==> pid == own,
{
}

/// The request names the role that was asked for, and is made exactly where the caller
/// itself is to be enrolled; otherwise both processes are named and nothing is sent.
pub proof fn law_request(pid: u32, own: u32, role: &str, r: Result<String, String>)
    requires
        call_ensures(request_line, (pid, own, role), r),
    ensures
        r is Ok <==> pid == own,
        r matches Ok(line) ==> {
            &&& json_parse(line@) == Ok::<JsonValue, Seq<char>>(
                JsonValue::Object(
                    seq![
                        (
                            "EnrollSelf"@,
                            JsonValue::Object(seq![("role"@, JsonValue::Text(role@))]),
                        ),
                    ],
                ),
            )
            &&& line@.len() > 0
            &&& line@.last() == '\n'
        },
        r matches Err(m) ==> m@ == "cannot enroll PID "@ + decimal(pid as nat)
            + ": a process can only enroll itself (PID "@ + decimal(own as nat) + ")"@,
{
}

/// An enrollment is reported exactly where the daemon says that it came off, with the
/// process, the role, and the control group where the daemon names one. What the daemon
/// has against it is reported as it is.
pub proof fn law_answer_is_reported(
    own: u32,
    role: &str,
    line: &str,
    response: &Json,
    r: Result<String, String>,
)
    requires
        call_ensures(interpret, (own, own, role, line, response), r),
    ensures
        ({
            let done = "Enrolled PID "@ + decimal(own as nat) + " into role \""@ + role@ + "\""@;
            let cgroup = match response@.get("Enrolled"@) {
                Some(info) => info.get_text("cgroup"@),
                None => None,
            };
            &&& r is Ok <==> cgroup is Some || response@ == JsonValue::Text("Success"@)
            &&& cgroup matches Some(named) ==> r->Ok_0@ == done + " (cgroup: "@ + named + ")"@
            &&& response@ == JsonValue::Text("Success"@) ==> r->Ok_0@ == done
            &&& r is Err ==> (response@.get_text("Error"@) matches Some(e) ==> r->Err_0@
                == "enrollment failed: "@ + e)
            &&& r is Err && response@.get_text("Error"@) is None ==> r->Err_0@
                == "unexpected response: "@ + trimmed(line@)
        }),
{
}

/// Nothing is reported of another process but that it cannot be enrolled.
pub proof fn law_foreign_process(
    pid: u32,
    own: u32,
    role: &str,
    line: &str,
    response: &Json,
    r: Result<String, String>,
)
    requires
        pid != own,
        call_ensures(interpret, (pid, own, role, line, response), r),
    ensures
        r is Err,
        r->Err_0@ == "cannot enroll PID "@ + decimal(pid as nat)
            + ": a process can only enroll itself (PID "@ + decimal(own as nat) + ")"@,
{
}

/// A line that is no JSON is reported as such, and every other one is taken for what
/// it says.
pub proof fn law_line_is_read(
    pid: u32,
    own: u32,
    role: &str,
    line: &str,
    parsed: Result<Json, String>,
    said: Result<String, String>,
    r: Result<String, String>,
)
    requires
        call_ensures(parse_json, (line,), parsed),
        parsed is Ok ==> call_ensures(interpret, (pid, own, role, line, &parsed->Ok_0), said),
        call_ensures(read_response, (pid, own, role, line), r),
    ensures
        parsed matches Err(e) ==> r is Err && r->Err_0@ == "invalid response: "@ + e@,
        parsed is Ok ==> result_text(r) == result_text(said),
{
}

/// Where the daemon cannot be reached, its socket and the reason are named.
pub proof fn law_unreachable(why: &str, m: String)
    requires
        call_ensures(connect_error, (why,), m),
    ensures
        m@ == "cannot connect to "@ + "/run/bpfjailer/enrollment.sock"@ + ": "@ + why@
            + ". Is the daemon running?"@,
{
}

/// The control group that the daemon names stands in its answer under `Enrolled`, and
/// nowhere else.
pub proof fn law_named_control_group(response: &Json, r: Option<&str>)
    requires
        call_ensures(cgroup_of, (response,), r),
    ensures
        response@.get("Enrolled"@) is None ==> r is None,
        response@.get("Enrolled"@) matches Some(info) ==> {
            &&& r is Some <==> info.get_text("cgroup"@) is Some
            &&& r matches Some(cgroup) ==> info.get_text("cgroup"@) == Some(cgroup@)
        },
{
}

} // verus!
