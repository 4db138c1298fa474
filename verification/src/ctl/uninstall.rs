//! `uninstall`: take the sandbox off the system.

use crate::text::texts;
use vstd::prelude::*;

verus! {

pub const DAEMON_BIN: &'static str = "/usr/sbin/icb-sandboxd";

pub const CTL_BIN: &'static str = "/usr/bin/icb-sandbox-ctl";

pub const BOOTSTRAP_BIN: &'static str = "/usr/bin/icb-sandbox-bootstrap";

pub const SERVICE_DAEMON: &'static str = "/etc/systemd/system/icb-sandboxd.service";

pub const SERVICE_BOOTSTRAP: &'static str = "/etc/systemd/system/icb-sandbox-bootstrap.service";

pub const RUN_DIR: &'static str = "/run/icb-sandbox";

pub const BPF_PIN: &'static str = "/sys/fs/bpf/icb-sandbox";

pub const LIB_DIR: &'static str = "/usr/lib/icb-sandbox";

/// The configuration, which stays unless the caller asks for its removal.
pub const CONFIG_DIR: &'static str = "/etc/icb/sandbox";

/// One step of the removal. None of them ends it where it fails.
#[derive(Debug)]
pub enum Step {
    /// Show a line.
    Say(String),
    /// Run the service manager.
    Systemctl(Vec<String>),
    /// Remove a file where it exists.
    RemoveFile(String),
    /// Remove a directory with all that is in it where it exists.
    RemoveDir(String),
}

pub enum StepView {
    Say(Seq<char>),
    Systemctl(Seq<Seq<char>>),
    RemoveFile(Seq<char>),
    RemoveDir(Seq<char>),
}

impl View for Step {
    type V = StepView;

    open spec fn view(&self) -> StepView {
        match *self {
            Step::Say(s) => StepView::Say(s@),
            Step::Systemctl(args) => StepView::Systemctl(texts(args@)),
            Step::RemoveFile(path) => StepView::RemoveFile(path@),
            Step::RemoveDir(path) => StepView::RemoveDir(path@),
        }
    }
}

/// What a list of steps does.
pub open spec fn steps_view(v: Seq<Step>) -> Seq<StepView> {
    v.map_values(|s: Step| s@)
}

/// What came of planning the removal.
pub open spec fn plan_view(r: Result<Vec<Step>, String>) -> Result<Seq<StepView>, Seq<char>> {
    match r {
        Ok(v) => Ok(steps_view(v@)),
        Err(e) => Err(e@),
    }
}

/// The steps of the removal.
pub open spec fn removal(purge: bool) -> Seq<StepView> {
    seq![
        StepView::Say("Stopping icb-sandboxd..."@),
        StepView::Systemctl(seq!["stop"@, "icb-sandboxd"@]),
        StepView::Systemctl(seq!["stop"@, "icb-sandbox-bootstrap"@]),
        StepView::Say("Disabling services..."@),
        StepView::Systemctl(seq!["disable"@, "icb-sandboxd"@]),
        StepView::Systemctl(seq!["disable"@, "icb-sandbox-bootstrap"@]),
        StepView::Say("Removing binaries..."@),
        StepView::RemoveFile(DAEMON_BIN@),
        StepView::RemoveFile(CTL_BIN@),
        StepView::RemoveFile(BOOTSTRAP_BIN@),
        StepView::Say("Removing systemd units..."@),
        StepView::RemoveFile(SERVICE_DAEMON@),
        StepView::RemoveFile(SERVICE_BOOTSTRAP@),
        StepView::Systemctl(seq!["daemon-reload"@]),
        StepView::Say("Cleaning runtime state..."@),
        StepView::RemoveDir(RUN_DIR@),
        StepView::RemoveDir(BPF_PIN@),
        StepView::RemoveDir(LIB_DIR@),
    ] + (if purge {
        seq![StepView::Say("Purging configuration..."@), StepView::RemoveDir(CONFIG_DIR@)]
    } else {
        seq![
            StepView::Say(
                "Config preserved at "@ + CONFIG_DIR@ + ". Use --purge to remove."@,
            ),
        ]
    }) + seq![StepView::Say("icb-sandbox uninstalled."@)]
}

/// What is done: nothing without the rights of root.
pub open spec fn removal_for(is_root: bool, purge: bool) -> Result<Seq<StepView>, Seq<char>> {
    if is_root {
        Ok(removal(purge))
    } else {
        Err("uninstall requires root. Run with sudo."@)
    }
}

/// A line to show.
fn say(text: &str) -> (s: Step)
    ensures
        s@ == StepView::Say(text@),
{
    Step::Say(text.to_owned())
}

/// A run of the service manager on a service.
fn systemctl(verb: &str, service: &str) -> (s: Step)
    ensures
        s@ == StepView::Systemctl(seq![verb@, service@]),
{
    let mut args: Vec<String> = Vec::new();
    args.push(verb.to_owned());
    args.push(service.to_owned());
    assert(texts(args@) =~= seq![verb@, service@]);
    Step::Systemctl(args)
}

/// The removal of a file.
fn remove_if_exists(path: &str) -> (s: Step)
    ensures
        s@ == StepView::RemoveFile(path@),
{
    Step::RemoveFile(path.to_owned())
}

/// The removal of a directory.
fn remove_dir_if_exists(path: &str) -> (s: Step)
    ensures
        s@ == StepView::RemoveDir(path@),
{
    Step::RemoveDir(path.to_owned())
}

/// The steps of the removal.
pub fn plan(is_root: bool, purge: bool) -> (r: Result<Vec<Step>, String>)
    ensures
        plan_view(r) == removal_for(is_root, purge),
{
    if !is_root {
        return Err("uninstall requires root. Run with sudo.".to_owned());
    }
    let mut reload: Vec<String> = Vec::new();
    reload.push("daemon-reload".to_owned());
    assert(texts(reload@) =~= seq!["daemon-reload"@]);
    let mut v: Vec<Step> = Vec::new();
    v.push(say("Stopping icb-sandboxd..."));
    v.push(systemctl("stop", "icb-sandboxd"));
    v.push(systemctl("stop", "icb-sandbox-bootstrap"));
    v.push(say("Disabling services..."));
    v.push(systemctl("disable", "icb-sandboxd"));
    v.push(systemctl("disable", "icb-sandbox-bootstrap"));
    v.push(say("Removing binaries..."));
    v.push(remove_if_exists(DAEMON_BIN));
    v.push(remove_if_exists(CTL_BIN));
    v.push(remove_if_exists(BOOTSTRAP_BIN));
    v.push(say("Removing systemd units..."));
    v.push(remove_if_exists(SERVICE_DAEMON));
    v.push(remove_if_exists(SERVICE_BOOTSTRAP));
    v.push(Step::Systemctl(reload));
    v.push(say("Cleaning runtime state..."));
    v.push(remove_dir_if_exists(RUN_DIR));
    v.push(remove_dir_if_exists(BPF_PIN));
    v.push(remove_dir_if_exists(LIB_DIR));
    if purge {
        v.push(say("Purging configuration..."));
        v.push(remove_dir_if_exists(CONFIG_DIR));
    } else {
        let mut kept = "Config preserved at ".to_owned();
        kept.append(CONFIG_DIR);
        kept.append(". Use --purge to remove.");
        v.push(Step::Say(kept));
    }
    v.push(say("icb-sandbox uninstalled."));
    assert(steps_view(v@) =~= removal(purge));
    Ok(v)
}

/// The warning about something that could not be removed.
pub open spec fn warning_text(path: Seq<char>, why: Seq<char>) -> Seq<char> {
    "  warning: could not remove "@ + path + ": "@ + why
}

/// The warning about something that could not be removed.
pub fn warning(path: &str, why: &str) -> (m: String)
    ensures
        m@ == warning_text(path@, why@),
{
    let mut m = "  warning: could not remove ".to_owned();
    m.append(path);
    m.append(": ");
    m.append(why);
    m
}

/// The configuration is removed exactly where the caller asks for it.
pub proof fn law_configuration_stays_unless_purged(purge: bool)
    ensures
        removal(purge).contains(StepView::RemoveDir(CONFIG_DIR@)) <==> purge,
{
    reveal_strlit("/etc/icb/sandbox");
    reveal_strlit("/run/icb-sandbox");
    reveal_strlit("/sys/fs/bpf/icb-sandbox");
    reveal_strlit("/usr/lib/icb-sandbox");
    let v = removal(purge);
    assert(CONFIG_DIR@[1] != RUN_DIR@[1] && CONFIG_DIR@[1] != BPF_PIN@[1] && CONFIG_DIR@[1]
        != LIB_DIR@[1]);
    if purge {
        assert(v[19] == StepView::RemoveDir(CONFIG_DIR@));
    }
}

/// Without the rights of root nothing is done.
pub proof fn law_only_root_removes(purge: bool)
    ensures
        removal_for(false, purge) is Err,
{
}

/// What a step shows is all that it does.
pub proof fn law_step_shows_all(step: Step)
    ensures
        match step {
            Step::Say(s) => step@ == StepView::Say(s@),
            Step::Systemctl(args) => step@ == StepView::Systemctl(
                args@.map_values(|s: String| s@),
            ),
            Step::RemoveFile(path) => step@ == StepView::RemoveFile(path@),
            Step::RemoveDir(path) => step@ == StepView::RemoveDir(path@),
        },
{
    if let Step::Systemctl(args) = step {
        assert(texts(args@) =~= args@.map_values(|s: String| s@));
    }
}

/// A removal takes everything off the system that was put on it: both services are
/// stopped and disabled before anything is removed; the three programs and the two
/// units are removed, and the service manager is told; then the state in `/run`, the
/// pinned programs and the library go. The configuration goes only where that is asked
/// for. Without the rights of root there is no removal.
#[verifier::rlimit(40)]
pub proof fn law_removal_is_complete(is_root: bool, purge: bool, r: Result<Vec<Step>, String>)
    requires
        call_ensures(plan, (is_root, purge), r),
    ensures
        r is Ok <==> is_root,
        r matches Err(e) ==> e@ == "uninstall requires root. Run with sudo."@,
        r matches Ok(v) ==> {
            let all = v@.map_values(|s: Step| s@);
            let n = all.len();
            &&& n == if purge {
                21int
            } else {
                20int
            }
            &&& all[1] == StepView::Systemctl(seq!["stop"@, "icb-sandboxd"@])
            &&& all[2] == StepView::Systemctl(seq!["stop"@, "icb-sandbox-bootstrap"@])
            &&& all[4] == StepView::Systemctl(seq!["disable"@, "icb-sandboxd"@])
            &&& all[5] == StepView::Systemctl(seq!["disable"@, "icb-sandbox-bootstrap"@])
            &&& all[7] == StepView::RemoveFile("/usr/sbin/icb-sandboxd"@)
            &&& all[8] == StepView::RemoveFile("/usr/bin/icb-sandbox-ctl"@)
            &&& all[9] == StepView::RemoveFile("/usr/bin/icb-sandbox-bootstrap"@)
            &&& all[11] == StepView::RemoveFile("/etc/systemd/system/icb-sandboxd.service"@)
            &&& all[12] == StepView::RemoveFile(
                "/etc/systemd/system/icb-sandbox-bootstrap.service"@,
            )
            &&& all[13] == StepView::Systemctl(seq!["daemon-reload"@])
            &&& all[15] == StepView::RemoveDir("/run/icb-sandbox"@)
            &&& all[16] == StepView::RemoveDir("/sys/fs/bpf/icb-sandbox"@)
            &&& all[17] == StepView::RemoveDir("/usr/lib/icb-sandbox"@)
            &&& purge ==> all[19] == StepView::RemoveDir("/etc/icb/sandbox"@)
            &&& !purge ==> all[18] == StepView::Say(
                "Config preserved at "@ + "/etc/icb/sandbox"@ + ". Use --purge to remove."@,
            )
            &&& all[n - 1] == StepView::Say("icb-sandbox uninstalled."@)
            &&& all[0] == StepView::Say("Stopping icb-sandboxd..."@)
            &&& all[3] == StepView::Say("Disabling services..."@)
            &&& all[6] == StepView::Say("Removing binaries..."@)
            &&& all[10] == StepView::Say("Removing systemd units..."@)
            &&& all[14] == StepView::Say("Cleaning runtime state..."@)
            &&& purge ==> all[18] == StepView::Say("Purging configuration..."@)
        },
{
    if let Ok(v) = r {
        assert(v@.map_values(|s: Step| s@) =~= steps_view(v@));
    }
}

/// What could not be removed is named with the reason.
pub proof fn law_warning(path: &str, why: &str, m: String)
    requires
        call_ensures(warning, (path, why), m),
    ensures
        m@ == "  warning: could not remove "@ + path@ + ": "@ + why@,
{
}

} // verus!
