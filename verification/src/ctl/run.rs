//! `run`: start a command inside the sandbox. The caller must not be inside
//! already, the daemon places it there, and the command starts only once that
//! has been seen to have happened.

use crate::common::optional_text;
use crate::ctl::enroll::{cgroup_of, enrolled_cgroup, request};
use crate::daemon::enrollment::SOCKET_PATH;
use crate::json::{
    field_line, json_line, json_parse, one_line, parse_json, reads_as, Json, JsonValue,
};
use crate::text::{
    has_prefix, is_char, join, joined, law_join_behind, law_prefix, law_split_and_join,
    lemma_no_separator, lemma_split_behind, lemma_split_nonempty, lines, lines_of, result_text,
    same, split, split_on, split_where, starts_with, texts, trim, trimmed, with_text,
};
use vstd::prelude::*;

verus! {

/// The role of the command.
pub const ROLE: &'static str = "code_agent";

/// Where the control groups are mounted.
pub const CGROUP_MOUNT: &'static str = "/sys/fs/cgroup";

/// How the control groups of the sandbox begin.
pub const JAIL_PREFIX: &'static str = "/bpfjailer/";

/// The control group in a line of the kernel's list, if the line is about the
/// unified hierarchy: number, nothing, and path, with colons between them.
pub open spec fn unified_cgroup(line: Seq<char>) -> Option<Seq<char>> {
    let parts = split_on(line, ':');
    if parts.len() >= 3 && parts[1].len() == 0 {
        Some(joined(parts.skip(2), ":"@))
    } else {
        None
    }
}

/// The first control group of the unified hierarchy among some lines.
pub open spec fn first_unified(lines: Seq<Seq<char>>) -> Option<Seq<char>>
    decreases lines.len(),
{
    if lines.len() == 0 {
        None
    } else {
        match unified_cgroup(lines[0]) {
            Some(cgroup) => Some(cgroup),
            None => first_unified(lines.drop_first()),
        }
    }
}

/// The control group of the caller in the kernel's list.
pub open spec fn own_cgroup(content: Seq<char>) -> Result<Seq<char>, Seq<char>> {
    match first_unified(lines_of(content)) {
        Some(cgroup) => Ok(cgroup),
        None => Err("Could not determine current cgroup from /proc/self/cgroup"@),
    }
}

/// The control group in a line of the kernel's list.
fn read_unified(line: &str) -> (r: Option<String>)
    ensures
        optional_text(r) == unified_cgroup(line@),
{
    let parts = split(line, ':');
    let ghost all = split_on(line@, ':');
    assert(all.len() == parts@.len());
    if parts.len() >= 3 {
        assert(all[1] == parts@[1]@);
        if parts[1].as_str().is_empty() {
            let mut rest: Vec<String> = Vec::new();
            assert(texts(rest@) =~= all.subrange(2, 2));
            let mut i: usize = 2;
            while i < parts.len()
                invariant
                    all == texts(parts@),
                    2 <= i <= parts@.len(),
                    texts(rest@) == all.subrange(2, i as int),
                decreases parts@.len() - i,
            {
                let ghost before = texts(rest@);
                rest.push(parts[i].clone());
                assert(texts(rest@) =~= before.push(all[i as int]));
                assert(all.subrange(2, i + 1) =~= before.push(all[i as int]));
                i = i + 1;
            }
            assert(all.subrange(2, i as int) =~= all.skip(2));
            return Some(join(&rest, ":"));
        }
    }
    None
}

/// The control group of the caller in the kernel's list.
pub fn current_cgroup(content: &str) -> (r: Result<String, String>)
    ensures
        result_text(r) == own_cgroup(content@),
{
    let all = lines(content);
    let ghost every = lines_of(content@);
    assert(every.skip(0) =~= every);
    let mut i: usize = 0;
    while i < all.len()
        invariant
            every == lines_of(content@),
            texts(all@) == every,
            0 <= i <= all@.len(),
            first_unified(every) == first_unified(every.skip(i as int)),
        decreases all@.len() - i,
    {
        proof {
            assert(every.skip(i as int)[0] == all@[i as int]@);
            assert(every.skip(i as int).drop_first() =~= every.skip(i + 1));
        }
        if let Some(cgroup) = read_unified(all[i].as_str()) {
            return Ok(cgroup);
        }
        i = i + 1;
    }
    Err("Could not determine current cgroup from /proc/self/cgroup".to_owned())
}

/// The control group is one of the sandbox.
pub open spec fn in_jail(cgroup: Seq<char>) -> bool {
    has_prefix(cgroup, JAIL_PREFIX@)
}

/// The line that asks the daemon to enroll the caller.
pub fn request_line() -> (line: String)
    ensures
        line@ == json_line(request(ROLE@)),
        one_line(line@),
        reads_as(line@, request(ROLE@)),
{
    field_line("EnrollSelf", "role", ROLE)
}

/// What is reported where the daemon cannot be reached.
pub open spec fn unreachable_text(why: Seq<char>) -> Seq<char> {
    "cannot connect to "@ + SOCKET_PATH@ + ": "@ + why + ". Are you in the 'bpfjailer' group?"@
}

/// What is reported where the daemon cannot be reached.
pub fn connect_error(why: &str) -> (m: String)
    ensures
        m@ == unreachable_text(why@),
{
    let mut m = "cannot connect to ".to_owned();
    m.append(SOCKET_PATH);
    m.append(": ");
    m.append(why);
    m.append(". Are you in the 'bpfjailer' group?");
    m
}

/// What the daemon's answer means: the control group of the caller, or the error.
pub open spec fn meaning(line: Seq<char>, response: JsonValue) -> Result<Seq<char>, Seq<char>> {
    match enrolled_cgroup(response) {
        Some(cgroup) => Ok(cgroup),
        None => match response.get_text("Error"@) {
            Some(e) => Err("daemon refused enrollment: "@ + e),
            None => Err("unexpected response from daemon: "@ + trimmed(line)),
        },
    }
}

/// What the daemon's answer means, from the line that came.
pub open spec fn answer_meaning(line: Seq<char>) -> Result<Seq<char>, Seq<char>> {
    match json_parse(line) {
        Ok(response) => meaning(line, response),
        Err(e) => Err("invalid response from daemon: "@ + e),
    }
}

/// What the daemon's answer means. `line` is the answer as it came.
pub fn interpret(line: &str, response: &Json) -> (r: Result<String, String>)
    ensures
        result_text(r) == meaning(line@, response@),
{
    match cgroup_of(response) {
        Some(cgroup) => Ok(cgroup.to_owned()),
        None => match response.get_text("Error") {
            Some(e) => {
                let mut m = "daemon refused enrollment: ".to_owned();
                m.append(e);
                Err(m)
            },
            None => {
                let mut m = "unexpected response from daemon: ".to_owned();
                m.append(trim(line).as_str());
                Err(m)
            },
        },
    }
}

/// What the daemon's answer means, from the line that came.
pub fn read_response(line: &str) -> (r: Result<String, String>)
    ensures
        result_text(r) == answer_meaning(line@),
{
    match parse_json(line) {
        Ok(response) => interpret(line, &response),
        Err(e) => {
            let mut m = "invalid response from daemon: ".to_owned();
            m.append(e.as_str());
            Err(m)
        },
    }
}

/// What the caller asks of the sandbox.
#[derive(Debug)]
pub struct Wishes {
    /// The policy that is to be in force.
    pub policy: Option<String>,
    /// The control group that is to be joined, as a directory.
    pub cgroup: Option<String>,
}

pub struct WishesView {
    pub policy: Option<Seq<char>>,
    pub cgroup: Option<Seq<char>>,
}

impl View for Wishes {
    type V = WishesView;

    open spec fn view(&self) -> WishesView {
        WishesView { policy: optional_text(self.policy), cgroup: optional_text(self.cgroup) }
    }
}

/// Being a step of a path: an empty name, as between two slashes, and a single dot
/// lead nowhere.
pub open spec fn is_step() -> spec_fn(Seq<char>) -> bool {
    |name: Seq<char>| name.len() > 0 && name != "."@
}

/// The steps of a path.
pub open spec fn steps_of(path: Seq<char>) -> Seq<Seq<char>> {
    split_on(path, '/').filter(is_step())
}

/// Two paths name the same place: they begin both at the root or neither of them,
/// and go the same steps.
pub open spec fn same_place(a: Seq<char>, b: Seq<char>) -> bool {
    &&& has_prefix(a, "/"@) == has_prefix(b, "/"@)
    &&& steps_of(a) == steps_of(b)
}

/// The steps from the mount of the control groups to a directory. A path that does
/// not lead through the mount is taken to begin at it.
pub open spec fn group_steps(path: Seq<char>) -> Seq<Seq<char>> {
    let mount = steps_of(CGROUP_MOUNT@);
    let steps = steps_of(path);
    if has_prefix(path, "/"@) && mount.len() <= steps.len() && steps.take(mount.len() as int)
        == mount {
        steps.skip(mount.len() as int)
    } else {
        steps
    }
}

/// The control group that has a directory, as the kernel writes it.
pub open spec fn group_of(path: Seq<char>) -> Seq<char> {
    "/"@ + joined(group_steps(path), "/"@)
}

/// The control group is the one that was asked for, if one was.
pub open spec fn is_joined(asked: Option<Seq<char>>, cgroup: Seq<char>) -> bool {
    asked matches Some(path) ==> cgroup == group_of(path)
}

/// The steps of a path.
fn read_steps(path: &str) -> (steps: Vec<String>)
    ensures
        texts(steps@) == steps_of(path@),
{
    let names = split(path, '/');
    let ghost every = split_on(path@, '/');
    let mut steps: Vec<String> = Vec::new();
    proof {
        reveal(Seq::filter);
        assert(texts(steps@) =~= every.take(0).filter(is_step()));
    }
    let mut i: usize = 0;
    while i < names.len()
        invariant
            every == split_on(path@, '/'),
            texts(names@) == every,
            0 <= i <= names@.len(),
            texts(steps@) == every.take(i as int).filter(is_step()),
        decreases names@.len() - i,
    {
        let ghost before = texts(steps@);
        proof {
            reveal(Seq::filter);
            assert(every.take(i + 1).drop_last() =~= every.take(i as int));
            assert(every.take(i + 1).last() == names@[i as int]@);
        }
        if !names[i].as_str().is_empty() && !same(names[i].as_str(), ".") {
            steps.push(names[i].clone());
            assert(texts(steps@) =~= before.push(every[i as int]));
        }
        i = i + 1;
    }
    assert(every.take(i as int) =~= every);
    steps
}

/// Whether a path begins with some steps.
fn begins_with(steps: &Vec<String>, start: &Vec<String>) -> (r: bool)
    ensures
        r == (start@.len() <= steps@.len() && texts(steps@).take(start@.len() as int) == texts(
            start@,
        )),
{
    if start.len() > steps.len() {
        return false;
    }
    let mut i: usize = 0;
    while i < start.len()
        invariant
            start@.len() <= steps@.len(),
            0 <= i <= start@.len(),
            forall|k: int| 0 <= k < i ==> texts(steps@)[k] == texts(start@)[k],
        decreases start@.len() - i,
    {
        if !same(steps[i].as_str(), start[i].as_str()) {
            assert(texts(steps@).take(start@.len() as int)[i as int] != texts(start@)[i as int]);
            return false;
        }
        i = i + 1;
    }
    assert(texts(steps@).take(start@.len() as int) =~= texts(start@));
    true
}

/// Whether two paths name the same place.
fn is_same_place(a: &str, b: &str) -> (r: bool)
    ensures
        r == same_place(a@, b@),
{
    let from = read_steps(a);
    let to = read_steps(b);
    proof {
        assert(texts(from@).take(from@.len() as int) =~= texts(from@));
    }
    starts_with(a, "/") == starts_with(b, "/") && from.len() == to.len() && begins_with(&from, &to)
}

/// The control group that has a directory.
fn read_group(path: &str) -> (r: String)
    ensures
        r@ == group_of(path@),
{
    let mount = read_steps(CGROUP_MOUNT);
    let steps = read_steps(path);
    let from: usize = if starts_with(path, "/") && begins_with(&steps, &mount) {
        mount.len()
    } else {
        0
    };
    let mut below: Vec<String> = Vec::new();
    let mut i: usize = from;
    while i < steps.len()
        invariant
            from <= i <= steps@.len(),
            texts(below@) == texts(steps@).subrange(from as int, i as int),
        decreases steps@.len() - i,
    {
        let ghost before = texts(below@);
        below.push(steps[i].clone());
        assert(texts(below@) =~= before.push(steps@[i as int]@));
        i = i + 1;
        assert(texts(steps@).subrange(from as int, i as int) =~= before.push(
            texts(steps@)[i - 1],
        ));
    }
    assert(texts(below@) =~= group_steps(path@));
    let mut group = "/".to_owned();
    group.append(join(&below, "/").as_str());
    group
}

/// Whether the policy that the daemon has loaded is the one that was asked for.
pub open spec fn policy_meaning(asked: Seq<char>, line: Seq<char>, response: JsonValue) -> Result<
    (),
    Seq<char>,
> {
    match response.get("StatusInfo"@) {
        Some(info) => match info.get_text("policy_path"@) {
            Some(path) => if same_place(path, asked) {
                Ok(())
            } else {
                Err("daemon enforces policy "@ + path + ", not "@ + asked)
            },
            None => Err("unexpected response from daemon: "@ + trimmed(line)),
        },
        None => match response.get_text("Error"@) {
            Some(e) => Err("status query failed: "@ + e),
            None => Err("unexpected response from daemon: "@ + trimmed(line)),
        },
    }
}

/// Whether the policy that the daemon has loaded is the one that was asked for,
/// from the line that came.
pub open spec fn policy_answer(asked: Seq<char>, line: Seq<char>) -> Result<(), Seq<char>> {
    match json_parse(line) {
        Ok(response) => policy_meaning(asked, line, response),
        Err(e) => Err("invalid response from daemon: "@ + e),
    }
}

/// Whether the policy that the daemon has loaded is the one that was asked for.
/// `line` is the answer as it came.
pub fn compare_policy(asked: &str, line: &str, response: &Json) -> (r: Result<(), String>)
    ensures
        with_text(r) == policy_meaning(asked@, line@, response@),
{
    match response.get("StatusInfo") {
        Some(info) => match info.get_text("policy_path") {
            Some(path) => if is_same_place(path, asked) {
                Ok(())
            } else {
                let mut m = "daemon enforces policy ".to_owned();
                m.append(path);
                m.append(", not ");
                m.append(asked);
                Err(m)
            },
            None => {
                let mut m = "unexpected response from daemon: ".to_owned();
                m.append(trim(line).as_str());
                Err(m)
            },
        },
        None => match response.get_text("Error") {
            Some(e) => {
                let mut m = "status query failed: ".to_owned();
                m.append(e);
                Err(m)
            },
            None => {
                let mut m = "unexpected response from daemon: ".to_owned();
                m.append(trim(line).as_str());
                Err(m)
            },
        },
    }
}

/// Whether the policy that the daemon has loaded is the one that was asked for,
/// from the line that came.
pub fn read_policy(asked: &str, line: &str) -> (r: Result<(), String>)
    ensures
        with_text(r) == policy_answer(asked@, line@),
{
    match parse_json(line) {
        Ok(response) => compare_policy(asked, line, &response),
        Err(e) => {
            let mut m = "invalid response from daemon: ".to_owned();
            m.append(e.as_str());
            Err(m)
        },
    }
}

/// How far the way into the sandbox has been gone, and what is to be seen next.
#[derive(Clone, Copy, Debug, PartialEq, Eq, Structural)]
pub enum Stage {
    /// Nothing is known yet: the caller's control group is to be seen.
    Start,
    /// The caller is outside: whether the socket exists is to be seen.
    Outside,
    /// The daemon is there and a policy was asked for: the daemon's answer to the
    /// question for its state is to be had.
    PolicyAsked,
    /// The daemon is there: its answer to the request is to be had.
    DaemonThere,
    /// The daemon has enrolled the caller: the control group is to be seen again.
    Enrolled,
}

/// What was seen.
#[derive(Debug)]
pub enum Event {
    /// The kernel's list of the caller's control groups, or why it could not be
    /// read.
    Cgroups(Result<String, String>),
    /// Whether the socket exists.
    Socket(bool),
    /// The daemon's answer, or why there is none.
    Answer(Result<String, String>),
}

/// What follows.
#[derive(Debug)]
pub enum Move {
    /// The next stage, with a notice for the caller.
    Goto(Stage, Option<String>),
    /// The command starts.
    Execute,
    /// The command does not start.
    Fail(String),
}

pub enum MoveView {
    Goto(Stage, Option<Seq<char>>),
    Execute,
    Fail(Seq<char>),
}

impl View for Move {
    type V = MoveView;

    open spec fn view(&self) -> MoveView {
        match *self {
            Move::Goto(stage, notice) => MoveView::Goto(stage, optional_text(notice)),
            Move::Execute => MoveView::Execute,
            Move::Fail(e) => MoveView::Fail(e@),
        }
    }
}

/// The event is what the stage waits for.
pub open spec fn fits(stage: Stage, event: Event) -> bool {
    match stage {
        Stage::Start => event is Cgroups,
        Stage::Outside => event is Socket,
        Stage::PolicyAsked => event is Answer,
        Stage::DaemonThere => event is Answer,
        Stage::Enrolled => event is Cgroups,
    }
}

/// The control group that was seen.
pub open spec fn seen_cgroup(content: Result<String, String>) -> Result<Seq<char>, Seq<char>> {
    match content {
        Ok(s) => own_cgroup(s@),
        Err(e) => Err(e@),
    }
}

/// The request comes next.
pub open spec fn to_request() -> MoveView {
    MoveView::Goto(
        Stage::DaemonThere,
        Some("[jailerctl] requesting enrollment from daemon..."@),
    )
}

/// What follows an event that fits the stage.
pub open spec fn move_for(stage: Stage, event: Event, wishes: WishesView) -> MoveView {
    match (stage, event) {
        (Stage::Start, Event::Cgroups(content)) => match seen_cgroup(content) {
            Ok(cgroup) => if in_jail(cgroup) {
                MoveView::Fail(
                    "Already inside a jailed shell (cgroup="@ + cgroup + "). Exit first."@,
                )
            } else {
                MoveView::Goto(Stage::Outside, None)
            },
            Err(e) => MoveView::Fail(e),
        },
        (Stage::Outside, Event::Socket(exists)) => if exists {
            if wishes.policy is Some {
                MoveView::Goto(Stage::PolicyAsked, None)
            } else {
                to_request()
            }
        } else {
            MoveView::Fail(
                "Daemon not running (no socket at "@ + SOCKET_PATH@
                    + "). Start it first:\n  sudo systemctl start bpfjailer-daemon"@,
            )
        },
        (Stage::PolicyAsked, Event::Answer(Ok(line))) => match wishes.policy {
            Some(asked) => match policy_answer(asked, line@) {
                Ok(_) => to_request(),
                Err(e) => MoveView::Fail(e),
            },
            None => to_request(),
        },
        (Stage::PolicyAsked, Event::Answer(Err(e))) => MoveView::Fail(e@),
        (Stage::DaemonThere, Event::Answer(Ok(line))) => match answer_meaning(line@) {
            Ok(cgroup) => MoveView::Goto(
                Stage::Enrolled,
                Some("[jailerctl] enrolled: ok ("@ + cgroup + ")"@),
            ),
            Err(e) => MoveView::Fail(e),
        },
        (Stage::DaemonThere, Event::Answer(Err(e))) => MoveView::Fail(e@),
        (Stage::Enrolled, Event::Cgroups(content)) => match seen_cgroup(content) {
            Ok(cgroup) => if in_jail(cgroup) {
                if is_joined(wishes.cgroup, cgroup) {
                    MoveView::Execute
                } else {
                    MoveView::Fail(
                        "Cgroup join failed: expected "@ + group_of(wishes.cgroup->Some_0)
                            + ", got "@ + cgroup,
                    )
                }
            } else {
                MoveView::Fail(
                    "Cgroup join failed: expected /bpfjailer/..., got "@ + cgroup,
                )
            },
            Err(e) => MoveView::Fail(e),
        },
        _ => MoveView::Fail(Seq::empty()),
    }
}

/// The control group that was seen.
fn see_cgroup(content: Result<String, String>) -> (r: Result<String, String>)
    ensures
        result_text(r) == seen_cgroup(content),
{
    match content {
        Ok(s) => current_cgroup(s.as_str()),
        Err(e) => Err(e),
    }
}

/// The request comes next.
fn goto_request() -> (m: Move)
    ensures
        m@ == to_request(),
{
    Move::Goto(
        Stage::DaemonThere,
        Some("[jailerctl] requesting enrollment from daemon...".to_owned()),
    )
}

/// The end of the way for a caller who is in a control group of the sandbox.
fn arrive(cgroup: &str, wishes: &Wishes) -> (m: Move)
    ensures
        m@ == if is_joined(wishes@.cgroup, cgroup@) {
            MoveView::Execute
        } else {
            MoveView::Fail(
                "Cgroup join failed: expected "@ + group_of(wishes@.cgroup->Some_0) + ", got "@
                    + cgroup@,
            )
        },
{
    if let Some(path) = &wishes.cgroup {
        let group = read_group(path.as_str());
        if !same(cgroup, group.as_str()) {
            let mut m = "Cgroup join failed: expected ".to_owned();
            m.append(group.as_str());
            m.append(", got ");
            m.append(cgroup);
            return Move::Fail(m);
        }
    }
    Move::Execute
}

/// What follows an event, for a caller with some wishes.
pub fn advance(stage: Stage, event: Event, wishes: &Wishes) -> (m: Move)
    requires
        fits(stage, event),
    ensures
        m@ == move_for(stage, event, wishes@),
{
    match event {
        Event::Cgroups(content) => match see_cgroup(content) {
            Ok(cgroup) => if starts_with(cgroup.as_str(), JAIL_PREFIX) {
                if stage == Stage::Start {
                    let mut m = "Already inside a jailed shell (cgroup=".to_owned();
                    m.append(cgroup.as_str());
                    m.append("). Exit first.");
                    Move::Fail(m)
                } else {
                    arrive(cgroup.as_str(), wishes)
                }
            } else {
                if stage == Stage::Start {
                    Move::Goto(Stage::Outside, None)
                } else {
                    let mut m = "Cgroup join failed: expected /bpfjailer/..., got ".to_owned();
                    m.append(cgroup.as_str());
                    Move::Fail(m)
                }
            },
            Err(e) => Move::Fail(e),
        },
        Event::Socket(exists) => if exists {
            if wishes.policy.is_some() {
                Move::Goto(Stage::PolicyAsked, None)
            } else {
                goto_request()
            }
        } else {
            let mut m = "Daemon not running (no socket at ".to_owned();
            m.append(SOCKET_PATH);
            m.append("). Start it first:\n  sudo systemctl start bpfjailer-daemon");
            Move::Fail(m)
        },
        Event::Answer(Ok(line)) => if stage == Stage::PolicyAsked {
            match &wishes.policy {
                Some(asked) => match read_policy(asked.as_str(), line.as_str()) {
                    Ok(_) => goto_request(),
                    Err(e) => Move::Fail(e),
                },
                None => goto_request(),
            }
        } else {
            match read_response(line.as_str()) {
                Ok(cgroup) => {
                    let mut notice = "[jailerctl] enrolled: ok (".to_owned();
                    notice.append(cgroup.as_str());
                    notice.append(")");
                    Move::Goto(Stage::Enrolled, Some(notice))
                },
                Err(e) => Move::Fail(e),
            }
        },
        Event::Answer(Err(e)) => Move::Fail(e),
    }
}

/// What is started: the command with its arguments, or a login shell.
pub open spec fn program_of(cmd: Seq<Seq<char>>) -> (Seq<char>, Seq<Seq<char>>) {
    if cmd.len() == 0 {
        ("bash"@, seq!["--login"@])
    } else {
        (cmd[0], cmd.skip(1))
    }
}

/// What is started.
pub fn command(cmd: &Vec<String>) -> (r: (String, Vec<String>))
    ensures
        (r.0@, texts(r.1@)) == program_of(texts(cmd@)),
{
    let ghost all = texts(cmd@);
    assert(all.len() == cmd@.len());
    let mut args: Vec<String> = Vec::new();
    if cmd.len() == 0 {
        args.push("--login".to_owned());
        assert(texts(args@) =~= seq!["--login"@]);
        return ("bash".to_owned(), args);
    }
    assert(texts(args@) =~= all.subrange(1, 1));
    let mut i: usize = 1;
    while i < cmd.len()
        invariant
            all == texts(cmd@),
            1 <= i <= cmd@.len(),
            texts(args@) == all.subrange(1, i as int),
        decreases cmd@.len() - i,
    {
        let ghost before = texts(args@);
        args.push(cmd[i].clone());
        assert(texts(args@) =~= before.push(all[i as int]));
        assert(all.subrange(1, i + 1) =~= before.push(all[i as int]));
        i = i + 1;
    }
    assert(all.subrange(1, i as int) =~= all.skip(1));
    (cmd[0].clone(), args)
}

/// The notice before the command starts.
pub open spec fn exec_text(program: Seq<char>, args: Seq<Seq<char>>) -> Seq<char> {
    "[jailerctl] exec: "@ + program + " "@ + joined(args, " "@)
}

/// The notice before the command starts.
pub fn exec_notice(program: &str, args: &Vec<String>) -> (m: String)
    ensures
        m@ == exec_text(program@, texts(args@)),
{
    let mut m = "[jailerctl] exec: ".to_owned();
    m.append(program);
    m.append(" ");
    m.append(join(args, " ").as_str());
    m
}

/// What follows some events, from a stage on.
pub open spec fn moves(stage: Stage, events: Seq<Event>, wishes: WishesView) -> MoveView
    decreases events.len(),
{
    if events.len() == 0 {
        MoveView::Goto(stage, None)
    } else {
        match move_for(stage, events[0], wishes) {
            MoveView::Goto(next, notice) => if events.len() == 1 {
                MoveView::Goto(next, notice)
            } else {
                moves(next, events.drop_first(), wishes)
            },
            m => m,
        }
    }
}

/// What is seen on the way, in order. The daemon is asked for its state where a
/// policy was asked for.
pub open spec fn journey(
    first: Result<String, String>,
    socket: bool,
    status: Result<String, String>,
    answer: Result<String, String>,
    second: Result<String, String>,
    wishes: WishesView,
) -> Seq<Event> {
    if wishes.policy is Some {
        seq![
            Event::Cgroups(first),
            Event::Socket(socket),
            Event::Answer(status),
            Event::Answer(answer),
            Event::Cgroups(second),
        ]
    } else {
        seq![
            Event::Cgroups(first),
            Event::Socket(socket),
            Event::Answer(answer),
            Event::Cgroups(second),
        ]
    }
}

/// The command starts exactly where the caller was outside the sandbox, the
/// daemon was there with the policy that was asked for, if one was, and enrolled
/// the caller, and the kernel then says that the caller is inside, in the control
/// group that was asked for, if one was.
pub proof fn law_command_starts_only_inside(
    first: Result<String, String>,
    socket: bool,
    status: Result<String, String>,
    answer: Result<String, String>,
    second: Result<String, String>,
    wishes: WishesView,
)
    ensures
        moves(
            Stage::Start,
            journey(first, socket, status, answer, second, wishes),
            wishes,
        ) is Execute <==> {
            &&& seen_cgroup(first) matches Ok(before)
            &&& !in_jail(before)
            &&& socket
            &&& wishes.policy matches Some(asked) ==> status is Ok && policy_answer(
                asked,
                status->Ok_0@,
            ) is Ok
            &&& answer matches Ok(line)
            &&& answer_meaning(line@) is Ok
            &&& seen_cgroup(second) matches Ok(after)
            &&& in_jail(after)
            &&& is_joined(wishes.cgroup, after)
        },
{
    let e = journey(first, socket, status, answer, second, wishes);
    let e1 = e.drop_first();
    let e2 = e1.drop_first();
    let e3 = e2.drop_first();
    if wishes.policy is Some {
        let e4 = e3.drop_first();
        assert(e1 =~= seq![
            Event::Socket(socket),
            Event::Answer(status),
            Event::Answer(answer),
            Event::Cgroups(second),
        ]);
        assert(e2 =~= seq![Event::Answer(status), Event::Answer(answer), Event::Cgroups(second)]);
        assert(e3 =~= seq![Event::Answer(answer), Event::Cgroups(second)]);
        assert(e4 =~= seq![Event::Cgroups(second)]);
    } else {
        assert(e1 =~= seq![Event::Socket(socket), Event::Answer(answer), Event::Cgroups(second)]);
        assert(e2 =~= seq![Event::Answer(answer), Event::Cgroups(second)]);
        assert(e3 =~= seq![Event::Cgroups(second)]);
    }
    reveal_with_fuel(moves, 6);
}

/// No command starts before all of this has been seen, whatever it is.
pub proof fn law_no_short_cut(events: Seq<Event>, wishes: WishesView)
    requires
        events.len() < if wishes.policy is Some {
            5int
        } else {
            4int
        },
    ensures
        !(moves(Stage::Start, events, wishes) is Execute),
{
    reveal_with_fuel(moves, 6);
}

/// A slash behind a path changes neither the place nor the control group.
pub proof fn law_slash_behind_a_path(path: Seq<char>)
    requires
        path.len() > 0,
    ensures
        same_place(path.push('/'), path),
        group_of(path.push('/')) == group_of(path),
{
    let longer = path.push('/');
    reveal(Seq::filter);
    reveal_strlit("/");
    assert(longer.drop_last() =~= path);
    let names = split_on(path, '/').push(Seq::<char>::empty());
    assert(split_on(longer, '/') == names);
    assert(names.drop_last() =~= split_on(path, '/'));
    assert(longer.take(1) =~= path.take(1));
}

/// The control group that the daemon names is one of the sandbox, whatever the
/// role.
pub proof fn law_named_cgroup_is_inside(role: Seq<char>)
    ensures
        in_jail("/bpfjailer/"@ + role),
{
    assert(("/bpfjailer/"@ + role).take(JAIL_PREFIX@.len() as int) =~= JAIL_PREFIX@);
}

/// The path of the unified hierarchy is found as it stands, colons and all.
pub proof fn law_path_is_kept(number: Seq<char>, path: Seq<char>)
    requires
        !number.contains(':'),
    ensures
        unified_cgroup(number + seq![':', ':'] + path) == Some(path),
{
    let head = number + seq![':', ':'];
    assert(forall|i: int| 0 <= i < number.len() ==> number.contains(#[trigger] number[i]));
    lemma_no_separator(number, is_char(':'));
    assert(head.drop_last() =~= number.push(':'));
    assert(number.push(':').drop_last() =~= number);
    assert(split_on(number.push(':'), ':') =~= seq![number, Seq::<char>::empty()]);
    assert(split_on(head, ':') =~= seq![number, Seq::<char>::empty(), Seq::<char>::empty()]);
    lemma_split_behind(head, path, is_char(':'));
    lemma_split_nonempty(path, is_char(':'));
    lemma_join_split(path, ':');
    let parts = split_on(head + path, ':');
    assert(parts =~= seq![number, Seq::<char>::empty()] + split_on(path, ':'));
    assert(parts.skip(2) =~= split_on(path, ':'));
    reveal_strlit(":");
    assert(":"@ =~= seq![':']);
}

/// Joining the pieces of a text gives the text back.
proof fn lemma_join_split(s: Seq<char>, sep: char)
    ensures
        joined(split_on(s, sep), seq![sep]) == s,
{
    law_split_and_join(s, sep);
}

/// A line of the kernel's list names a control group of the unified hierarchy exactly
/// where it is a text without colons, two colons, and the control group.
pub proof fn law_unified_line(line: Seq<char>, path: Seq<char>)
    ensures
        unified_cgroup(line) == Some(path) <==> exists|number: Seq<char>|
            !number.contains(':') && line == #[trigger] (number + "::"@ + path),
{
    reveal_strlit("::");
    assert("::"@ =~= seq![':', ':']);
    if unified_cgroup(line) == Some(path) {
        let parts = split_on(line, ':');
        let rest = parts.skip(2);
        let colon = seq![':'];
        law_split_and_join(line, ':');
        reveal_strlit(":");
        assert(":"@ =~= colon);
        law_join_behind(parts.take(2), rest, colon);
        assert(parts.take(2) + rest =~= parts);
        law_join_behind(seq![parts[0]], seq![parts[1]], colon);
        assert(seq![parts[0]] + seq![parts[1]] =~= parts.take(2));
        law_join_behind(seq![parts[1]], seq![], colon);
        let number = parts[0];
        assert(line =~= number + "::"@ + path);
        if number.contains(':') {
            let k = choose|k: int| 0 <= k < number.len() && number[k] == ':';
            assert(parts[0][k] != ':');
        }
        assert(!number.contains(':') && line == number + "::"@ + path);
    }
    if exists|number: Seq<char>|
        !number.contains(':') && line == #[trigger] (number + "::"@ + path) {
        let number = choose|number: Seq<char>|
            !number.contains(':') && line == #[trigger] (number + "::"@ + path);
        law_path_is_kept(number, path);
    }
}

/// The control group of the caller is what the first line about the unified hierarchy
/// says; without such a line it is not known.
pub proof fn law_own_control_group(content: &str, r: Result<String, String>, i: int)
    requires
        call_ensures(current_cgroup, (content,), r),
    ensures
        (forall|k: int|
            0 <= k < lines_of(content@).len() ==> unified_cgroup(#[trigger] lines_of(content@)[k])
                is None) ==> r is Err,
        r matches Err(e) ==> e@ == "Could not determine current cgroup from /proc/self/cgroup"@,
        0 <= i < lines_of(content@).len() && unified_cgroup(lines_of(content@)[i]) is Some && (
        forall|k: int|
            0 <= k < i ==> unified_cgroup(#[trigger] lines_of(content@)[k]) is None) ==> r is Ok
            && unified_cgroup(lines_of(content@)[i]) == Some(r->Ok_0@),
{
    lemma_first_unified(lines_of(content@), i);
}

proof fn lemma_first_unified(lines: Seq<Seq<char>>, i: int)
    ensures
        (forall|k: int| 0 <= k < lines.len() ==> unified_cgroup(#[trigger] lines[k]) is None)
            ==> first_unified(lines) is None,
        0 <= i < lines.len() && unified_cgroup(lines[i]) is Some && (forall|k: int|
            0 <= k < i ==> unified_cgroup(#[trigger] lines[k]) is None) ==> first_unified(lines)
            == unified_cgroup(lines[i]),
    decreases lines.len(),
{
    if lines.len() > 0 && unified_cgroup(lines[0]) is None {
        let rest = lines.drop_first();
        lemma_first_unified(rest, i - 1);
        assert(forall|k: int| 0 <= k < rest.len() ==> rest[k] == #[trigger] lines[k + 1]);
        if forall|k: int| 0 <= k < lines.len() ==> unified_cgroup(#[trigger] lines[k]) is None {
            assert forall|k: int| 0 <= k < rest.len() implies unified_cgroup(#[trigger] rest[k])
                is None by {
                assert(rest[k] == lines[k + 1]);
            }
        }
        if 0 <= i < lines.len() && unified_cgroup(lines[i]) is Some && (forall|k: int|
            0 <= k < i ==> unified_cgroup(#[trigger] lines[k]) is None) {
            assert(rest[i - 1] == lines[i]);
            assert forall|k: int| 0 <= k < i - 1 implies unified_cgroup(#[trigger] rest[k])
                is None by {
                assert(rest[k] == lines[k + 1]);
            }
        }
    }
}

/// The control groups of the sandbox are those below `/bpfjailer/`.
pub proof fn law_inside(cgroup: Seq<char>)
    ensures
        in_jail(cgroup) <==> exists|rest: Seq<char>| cgroup == #[trigger] ("/bpfjailer/"@ + rest),
{
    law_prefix(cgroup, "/bpfjailer/"@);
}

/// The request asks for the role of the command, and is the one line from which that is
/// read.
pub proof fn law_request(line: String)
    requires
        call_ensures(request_line, (), line),
    ensures
        json_parse(line@) == Ok::<JsonValue, Seq<char>>(
            JsonValue::Object(
                seq![
                    (
                        "EnrollSelf"@,
                        JsonValue::Object(seq![("role"@, JsonValue::Text("code_agent"@))]),
                    ),
                ],
            ),
        ),
        line@.len() > 0 && line@.last() == '\n',
{
}

/// Where the daemon cannot be reached, its socket, the reason and the group are named.
pub proof fn law_unreachable(why: &str, m: String)
    requires
        call_ensures(connect_error, (why,), m),
    ensures
        m@ == "cannot connect to "@ + "/run/bpfjailer/enrollment.sock"@ + ": "@ + why@
            + ". Are you in the 'bpfjailer' group?"@,
{
}

/// The daemon has enrolled the caller exactly where it names a control group; otherwise
/// what it has against it is reported, or what it answered.
pub proof fn law_answer_is_reported(line: &str, response: &Json, r: Result<String, String>)
    requires
        call_ensures(interpret, (line, response), r),
    ensures
        ({
            let cgroup = match response@.get("Enrolled"@) {
                Some(info) => info.get_text("cgroup"@),
                None => None,
            };
            &&& r is Ok <==> cgroup is Some
            &&& cgroup matches Some(named) ==> r->Ok_0@ == named
            &&& r is Err ==> (response@.get_text("Error"@) matches Some(e) ==> r->Err_0@
                == "daemon refused enrollment: "@ + e)
            &&& r is Err && response@.get_text("Error"@) is None ==> r->Err_0@
                == "unexpected response from daemon: "@ + trimmed(line@)
        }),
{
}

/// A line that is no JSON is reported as such, and every other one is taken for what
/// it says.
pub proof fn law_line_is_read(
    line: &str,
    parsed: Result<Json, String>,
    said: Result<String, String>,
    r: Result<String, String>,
)
    requires
        call_ensures(parse_json, (line,), parsed),
        parsed is Ok ==> call_ensures(interpret, (line, &parsed->Ok_0), said),
        call_ensures(read_response, (line,), r),
    ensures
        parsed matches Err(e) ==> r is Err && r->Err_0@ == "invalid response from daemon: "@ + e@,
        parsed is Ok ==> result_text(r) == result_text(said),
{
}

/// The steps of a path are those before a slash and those behind it. A name without
/// slashes is one step, but for an empty one and a single dot.
pub proof fn law_steps_of_a_path(a: Seq<char>, b: Seq<char>)
    ensures
        steps_of(a.push('/') + b) == steps_of(a) + steps_of(b),
        !a.contains('/') && a.len() > 0 && a != seq!['.'] ==> steps_of(a) == seq![a],
        a.len() == 0 || a == seq!['.'] ==> steps_of(a).len() == 0,
{
    let slash = is_char('/');
    let head = a.push('/');
    reveal(Seq::filter);
    reveal_strlit(".");
    assert("."@ =~= seq!['.']);
    lemma_split_behind(head, b, slash);
    assert(head.drop_last() =~= a);
    assert(split_where(head, slash).drop_last() =~= split_where(a, slash));
    Seq::filter_distributes_over_add(split_on(a, '/'), split_on(b, '/'), is_step());
    if !a.contains('/') {
        assert forall|i: int| 0 <= i < a.len() implies !slash(#[trigger] a[i]) by {
            assert(a.contains(a[i]));
        }
        lemma_no_separator(a, slash);
        let one = seq![a];
        assert(one.drop_last() =~= Seq::<Seq<char>>::empty());
        assert(one.last() == a);
        assert(one.drop_last().filter(is_step()) =~= Seq::<Seq<char>>::empty());
        assert(one.filter(is_step()) =~= if a.len() > 0 && a != "."@ {
            one
        } else {
            Seq::<Seq<char>>::empty()
        });
    }
    if a.len() == 0 || a == seq!['.'] {
        assert(!a.contains('/'));
    }
}

/// Two paths name the same place exactly where they go the same steps and begin both at
/// the root or neither of them.
pub proof fn law_same_place(a: Seq<char>, b: Seq<char>)
    ensures
        same_place(a, b) <==> steps_of(a) == steps_of(b) && ((a.len() > 0 && a[0] == '/') <==> (
        b.len() > 0 && b[0] == '/')),
{
    lemma_absolute(a);
    lemma_absolute(b);
}

proof fn lemma_absolute(p: Seq<char>)
    ensures
        has_prefix(p, "/"@) <==> p.len() > 0 && p[0] == '/',
{
    reveal_strlit("/");
    if p.len() > 0 {
        assert(p.take(1)[0] == p[0]);
        if p[0] == '/' {
            assert(p.take(1) =~= "/"@);
        }
    }
}

/// The control group of a directory below the mount is the steps from the mount on, with
/// a slash before each; a directory that is not below it is a control group itself.
pub proof fn law_group_of_a_directory(path: Seq<char>)
    ensures
        ({
            let steps = steps_of(path);
            let below = path.len() > 0 && path[0] == '/' && steps.len() >= 3 && steps[0] == "sys"@
                && steps[1] == "fs"@ && steps[2] == "cgroup"@;
            &&& below ==> group_of(path) == "/"@ + joined(steps.skip(3), "/"@)
            &&& !below ==> group_of(path) == "/"@ + joined(steps, "/"@)
        }),
{
    let steps = steps_of(path);
    lemma_absolute(path);
    lemma_mount();
    let mount = seq!["sys"@, "fs"@, "cgroup"@];
    if steps.len() >= 3 {
        let first = steps.take(3);
        assert(first[0] == steps[0] && first[1] == steps[1] && first[2] == steps[2]);
        if steps[0] == "sys"@ && steps[1] == "fs"@ && steps[2] == "cgroup"@ {
            assert(first =~= mount);
        }
    }
}

proof fn lemma_mount()
    ensures
        steps_of(CGROUP_MOUNT@) == seq!["sys"@, "fs"@, "cgroup"@],
{
    reveal_strlit("/sys/fs/cgroup");
    reveal_strlit("sys");
    reveal_strlit("fs");
    reveal_strlit("cgroup");
    let none = Seq::<char>::empty();
    let a = none.push('/') + "sys"@;
    let b = a.push('/') + "fs"@;
    let c = b.push('/') + "cgroup"@;
    assert(CGROUP_MOUNT@ =~= c);
    law_steps_of_a_path(none, "sys"@);
    law_steps_of_a_path(a, "fs"@);
    law_steps_of_a_path(b, "cgroup"@);
    law_steps_of_a_path("sys"@, none);
    law_steps_of_a_path("fs"@, none);
    law_steps_of_a_path("cgroup"@, none);
    assert(steps_of(c) =~= seq!["sys"@, "fs"@, "cgroup"@]);
}

/// The policy that was asked for is in force exactly where the daemon names a policy at
/// the same place; otherwise both are named, or what the daemon has against it, or what
/// it answered.
pub proof fn law_policy_is_compared(
    asked: &str,
    line: &str,
    response: &Json,
    r: Result<(), String>,
)
    requires
        call_ensures(compare_policy, (asked, line, response), r),
    ensures
        ({
            let info = response@.get("StatusInfo"@);
            let named = match info {
                Some(info) => info.get_text("policy_path"@),
                None => None,
            };
            &&& r is Ok <==> named is Some && same_place(named->Some_0, asked@)
            &&& r is Err && named is Some ==> r->Err_0@ == "daemon enforces policy "@
                + named->Some_0 + ", not "@ + asked@
            &&& info is None ==> (response@.get_text("Error"@) matches Some(e) ==> r->Err_0@
                == "status query failed: "@ + e)
            &&& named is None && (info is Some || response@.get_text("Error"@) is None)
                ==> r->Err_0@ == "unexpected response from daemon: "@ + trimmed(line@)
        }),
{
}

/// A line that is no JSON is reported as such, and every other one is taken for what it
/// says of the policy.
pub proof fn law_policy_line_is_read(
    asked: &str,
    line: &str,
    parsed: Result<Json, String>,
    said: Result<(), String>,
    r: Result<(), String>,
)
    requires
        call_ensures(parse_json, (line,), parsed),
        parsed is Ok ==> call_ensures(compare_policy, (asked, line, &parsed->Ok_0), said),
        call_ensures(read_policy, (asked, line), r),
    ensures
        parsed matches Err(e) ==> r is Err && r->Err_0@ == "invalid response from daemon: "@ + e@,
        parsed is Ok ==> with_text(r) == with_text(said),
{
}

/// At the start the caller must be outside the sandbox.
pub proof fn law_way_begins_outside(
    content: String,
    text: &str,
    cgroup: Result<String, String>,
    wishes: &Wishes,
    m: Move,
)
    requires
        text@ == content@,
        call_ensures(current_cgroup, (text,), cgroup),
        call_ensures(advance, (Stage::Start, Event::Cgroups(Ok(content)), wishes), m),
    ensures
        cgroup matches Err(e) ==> m@ == MoveView::Fail(e@),
        cgroup matches Ok(c) ==> {
            &&& has_prefix(c@, "/bpfjailer/"@) ==> m@ == MoveView::Fail(
                "Already inside a jailed shell (cgroup="@ + c@ + "). Exit first."@,
            )
            &&& !has_prefix(c@, "/bpfjailer/"@) ==> m@ == MoveView::Goto(Stage::Outside, None)
        },
{
}

/// From outside, the way leads on exactly where the socket exists: to the question for
/// the policy where one was asked for, and to the request otherwise.
pub proof fn law_daemon_must_be_there(exists: bool, wishes: &Wishes, m: Move)
    requires
        call_ensures(advance, (Stage::Outside, Event::Socket(exists), wishes), m),
    ensures
        !exists ==> m@ == MoveView::Fail(
            "Daemon not running (no socket at "@ + "/run/bpfjailer/enrollment.sock"@
                + "). Start it first:\n  sudo systemctl start bpfjailer-daemon"@,
        ),
        exists && wishes.policy is Some ==> m@ == MoveView::Goto(Stage::PolicyAsked, None),
        exists && wishes.policy is None ==> m@ == MoveView::Goto(
            Stage::DaemonThere,
            Some("[jailerctl] requesting enrollment from daemon..."@),
        ),
{
}

/// The request follows exactly where the policy that was asked for is in force.
pub proof fn law_policy_must_be_in_force(
    line: String,
    text: &str,
    asked: &str,
    said: Result<(), String>,
    wishes: &Wishes,
    m: Move,
)
    requires
        text@ == line@,
        wishes.policy is Some,
        asked@ == wishes.policy->Some_0@,
        call_ensures(read_policy, (asked, text), said),
        call_ensures(advance, (Stage::PolicyAsked, Event::Answer(Ok(line)), wishes), m),
    ensures
        said is Ok ==> m@ == MoveView::Goto(
            Stage::DaemonThere,
            Some("[jailerctl] requesting enrollment from daemon..."@),
        ),
        said matches Err(e) ==> m@ == MoveView::Fail(e@),
{
}

/// The way leads on from the request exactly where the daemon names the control group
/// that it put the caller into.
pub proof fn law_daemon_must_enroll(
    line: String,
    text: &str,
    said: Result<String, String>,
    wishes: &Wishes,
    m: Move,
)
    requires
        text@ == line@,
        call_ensures(read_response, (text,), said),
        call_ensures(advance, (Stage::DaemonThere, Event::Answer(Ok(line)), wishes), m),
    ensures
        said matches Ok(cgroup) ==> m@ == MoveView::Goto(
            Stage::Enrolled,
            Some("[jailerctl] enrolled: ok ("@ + cgroup@ + ")"@),
        ),
        said matches Err(e) ==> m@ == MoveView::Fail(e@),
{
}

/// The command starts exactly where the kernel says that the caller is inside the
/// sandbox, in the control group that was asked for, if one was.
pub proof fn law_caller_must_be_inside(
    content: String,
    text: &str,
    cgroup: Result<String, String>,
    wishes: &Wishes,
    m: Move,
)
    requires
        text@ == content@,
        call_ensures(current_cgroup, (text,), cgroup),
        call_ensures(advance, (Stage::Enrolled, Event::Cgroups(Ok(content)), wishes), m),
    ensures
        cgroup matches Err(e) ==> m@ == MoveView::Fail(e@),
        cgroup matches Ok(c) ==> {
            let inside = has_prefix(c@, "/bpfjailer/"@);
            let joined_it = wishes.cgroup matches Some(path) ==> c@ == group_of(path@);
            &&& m@ is Execute <==> inside && joined_it
            &&& !inside ==> m@ == MoveView::Fail(
                "Cgroup join failed: expected /bpfjailer/..., got "@ + c@,
            )
            &&& inside && !joined_it ==> m@ == MoveView::Fail(
                "Cgroup join failed: expected "@ + group_of(wishes.cgroup->Some_0@) + ", got "@
                    + c@,
            )
        },
{
}

/// Whatever could not be had ends the way, with the reason.
pub proof fn law_what_cannot_be_had_ends_the_way(
    stage: Stage,
    event: Event,
    wishes: &Wishes,
    m: Move,
)
    requires
        fits(stage, event),
        call_ensures(advance, (stage, event, wishes), m),
    ensures
        event matches Event::Cgroups(Err(e)) ==> m@ == MoveView::Fail(e@),
        event matches Event::Answer(Err(e)) ==> m@ == MoveView::Fail(e@),
{
}

/// What is started is what was asked for, with all of its arguments in order, and a login
/// shell where nothing was.
pub proof fn law_what_is_started(cmd: &Vec<String>, r: (String, Vec<String>))
    requires
        call_ensures(command, (cmd,), r),
    ensures
        cmd@.len() == 0 ==> r.0@ == "bash"@ && r.1@.len() == 1 && r.1@[0]@ == "--login"@,
        cmd@.len() > 0 ==> {
            &&& r.0@ == cmd@[0]@
            &&& r.1@.len() == cmd@.len() - 1
            &&& forall|i: int| 0 <= i < r.1@.len() ==> (#[trigger] r.1@[i])@ == cmd@[i + 1]@
        },
{
    let all = texts(cmd@);
    let args = texts(r.1@);
    assert(all.len() == cmd@.len());
    assert(args.len() == r.1@.len());
    assert(forall|i: int| 0 <= i < args.len() ==> args[i] == (#[trigger] r.1@[i])@);
    assert(forall|i: int| 0 <= i < all.len() ==> all[i] == (#[trigger] cmd@[i])@);
    if cmd@.len() > 0 {
        assert forall|i: int| 0 <= i < r.1@.len() implies (#[trigger] r.1@[i])@ == cmd@[i
            + 1]@ by {
            assert(args[i] == all[i + 1]);
        }
    } else {
        assert(args[0] == r.1@[0]@);
    }
}

/// The notice names what is started with its arguments, blanks between them.
pub proof fn law_notice(program: &str, args: &Vec<String>, m: String)
    requires
        call_ensures(exec_notice, (program, args), m),
    ensures
        m@ == "[jailerctl] exec: "@ + program@ + " "@ + joined(
            args@.map_values(|s: String| s@),
            " "@,
        ),
{
    assert(texts(args@) =~= args@.map_values(|s: String| s@));
}

/// What a move shows is all that it says.
pub proof fn law_move_shows_all(m: Move)
    ensures
        m is Execute <==> m@ is Execute,
        m matches Move::Fail(e) ==> m@ == MoveView::Fail(e@),
        m matches Move::Goto(stage, None) ==> m@ == MoveView::Goto(stage, None),
        m matches Move::Goto(stage, Some(notice)) ==> m@ == MoveView::Goto(stage, Some(notice@)),
{
}

} // verus!
