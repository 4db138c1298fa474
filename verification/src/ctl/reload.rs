//! `reload`: have the daemon read the policy again.

use crate::daemon::enrollment::SOCKET_PATH;
use crate::json::{
    json_line, json_parse, name_line, one_line, parse_json, reads_as, Json, JsonValue,
};
use crate::text::{result_text, trim, trimmed};
use vstd::prelude::*;

verus! {

/// The line that asks the daemon to reload.
pub fn request_line() -> (line: String)
    ensures
        line@ == json_line(JsonValue::Text("Reload"@)),
        one_line(line@),
        reads_as(line@, JsonValue::Text("Reload"@)),
{
    name_line("Reload")
}

/// What is reported where the daemon cannot be reached.
pub open spec fn unreachable_text(why: Seq<char>) -> Seq<char> {
    "cannot connect to "@ + SOCKET_PATH@ + ": "@ + why
        + ". Is the daemon running? Are you in the 'bpfjailer' group?"@
}

/// What is reported where the daemon cannot be reached.
pub fn connect_error(why: &str) -> (m: String)
    ensures
        m@ == unreachable_text(why@),
{
    let mut m = "cannot connect to ".to_owned();
    m.append(SOCKET_PATH);
    m.append(": ");
    m.append(why);
    m.append(". Is the daemon running? Are you in the 'bpfjailer' group?");
    m
}

/// What the daemon's answer means: the report, or the error.
pub open spec fn meaning(line: Seq<char>, response: JsonValue) -> Result<Seq<char>, Seq<char>> {
    if response == JsonValue::Text("Success"@) {
        Ok("Reload signal sent. Daemon will re-read policy and user extensions."@)
    } else {
        match response.get_text("Error"@) {
            Some(e) => Err("reload failed: "@ + e),
            None => Ok("Response: "@ + trimmed(line)),
        }
    }
}

/// What the daemon's answer means. `line` is the answer as it came.
pub fn interpret(line: &str, response: &Json) -> (r: Result<String, String>)
    ensures
        result_text(r) == meaning(line@, response@),
{
    if response.is_text("Success") {
        Ok("Reload signal sent. Daemon will re-read policy and user extensions.".to_owned())
    } else {
        match response.get_text("Error") {
            Some(e) => {
                let mut m = "reload failed: ".to_owned();
                m.append(e);
                Err(m)
            },
            None => {
                let mut m = "Response: ".to_owned();
                m.append(trim(line).as_str());
                Ok(m)
            },
        }
    }
}

/// What the daemon's answer means, from the line that came.
pub fn read_response(line: &str) -> (r: Result<String, String>)
    ensures
        result_text(r) == match json_parse(line@) {
            Ok(response) => meaning(line@, response),
            Err(e) => Err("invalid response: "@ + e),
        },
{
    match parse_json(line) {
        Ok(response) => interpret(line, &response),
        Err(e) => {
            let mut m = "invalid response: ".to_owned();
            m.append(e.as_str());
            Err(m)
        },
    }
}

/// A reload is reported as sent where the daemon answers with a success, as failed
/// where it answers with an error, and any other answer is shown as it came.
pub proof fn law_answer_is_reported(line: &str, response: &Json, r: Result<String, String>)
    requires
        call_ensures(interpret, (line, response), r),
    ensures
        response@ == JsonValue::Text("Success"@) ==> r is Ok && r->Ok_0@
            == "Reload signal sent. Daemon will re-read policy and user extensions."@,
        response@.get_text("Error"@) matches Some(e) ==> r is Err && r->Err_0@ == "reload failed: "@
            + e,
        response@ != JsonValue::Text("Success"@) && response@.get_text("Error"@) is None ==> r is Ok
            && r->Ok_0@ == "Response: "@ + trimmed(line@),
        r is Err <==> response@.get_text("Error"@) is Some,
{
}

/// A line that is no JSON is reported as such, and every other one is taken for what
/// it says.
pub proof fn law_line_is_read(
    line: &str,
    parsed: Result<Json, String>,
    said: Result<String, String>,
    r: Result<String, String>,
)
    requires
        call_ensures(parse_json, (line,), parsed),
        parsed is Ok ==> call_ensures(interpret, (line, &parsed->Ok_0), said),
        call_ensures(read_response, (line,), r),
    ensures
        parsed matches Err(e) ==> r is Err && r->Err_0@ == "invalid response: "@ + e@,
        parsed is Ok ==> result_text(r) == result_text(said),
{
}

/// The request is the one line from which `Reload` is read.
pub proof fn law_request(line: String)
    requires
        call_ensures(request_line, (), line),
    ensures
        json_parse(line@) == Ok::<JsonValue, Seq<char>>(JsonValue::Text("Reload"@)),
        line@.len() > 0 && line@.last() == '\n',
{
}

/// Where the daemon cannot be reached, its socket, the reason and the group are named.
pub proof fn law_unreachable(why: &str, m: String)
    requires
        call_ensures(connect_error, (why,), m),
    ensures
        m@ == "cannot connect to "@ + "/run/bpfjailer/enrollment.sock"@ + ": "@ + why@
            + ". Is the daemon running? Are you in the 'bpfjailer' group?"@,
{
}

} // verus!
