//! `doctor`: whether the system is ready for the sandbox.

use crate::daemon::enrollment::SOCKET_PATH;
use crate::text::{
    any_is, contains, decimal, has_part, has_prefix, is_char, law_written_numbers_are_read,
    lemma_decimal_digits, lemma_no_separator, lemma_split_behind, lemma_split_nonempty, lines,
    lines_of, parse_u32, same, split, split_on, split_where, split_whitespace, starts_with, texts,
    trim, trimmed, u32_of, words_of,
};
use vstd::prelude::*;

verus! {

/// Where the kernel lists its security modules.
pub const LSM_PATH: &'static str = "/sys/kernel/security/lsm";

/// Where the kernel keeps its type information.
pub const BTF_PATH: &'static str = "/sys/kernel/btf/vmlinux";

/// While this file exists, nothing is enforced.
pub const DISABLED_SENTINEL: &'static str = "/etc/icb/sandbox/disabled";

/// What came of one check.
#[derive(Debug)]
pub struct Check {
    pub name: &'static str,
    pub pass: bool,
    pub detail: String,
}

pub struct CheckView {
    pub name: Seq<char>,
    pub pass: bool,
    pub detail: Seq<char>,
}

impl View for Check {
    type V = CheckView;

    open spec fn view(&self) -> CheckView {
        CheckView { name: self.name@, pass: self.pass, detail: self.detail@ }
    }
}

/// What came of some checks.
pub open spec fn checks_view(v: Seq<Check>) -> Seq<CheckView> {
    v.map_values(|c: Check| c@)
}

/// The number that a part of a version denotes, or 0.
pub open spec fn version_part(s: Seq<char>) -> u32 {
    match u32_of(s) {
        Some(n) => n,
        None => 0,
    }
}

/// The first two numbers of a kernel release, or zeros where there are not two
/// parts.
pub open spec fn kernel_version(release: Seq<char>) -> (u32, u32) {
    let parts = split_on(release, '.');
    if parts.len() >= 2 {
        (version_part(parts[0]), version_part(parts[1]))
    } else {
        (0, 0)
    }
}

/// The version is 5.11 or later.
pub open spec fn recent_enough(version: (u32, u32)) -> bool {
    version.0 > 5 || (version.0 == 5 && version.1 >= 11)
}

/// The check of the kernel's version, from its release if that could be had.
pub open spec fn kernel_check(release: Option<Seq<char>>) -> CheckView {
    match release {
        Some(r) => CheckView {
            name: "Kernel >= 5.11"@,
            pass: recent_enough(kernel_version(r)),
            detail: r + " (need 5.11+)"@,
        },
        None => CheckView {
            name: "Kernel >= 5.11"@,
            pass: false,
            detail: "failed to read uname"@,
        },
    }
}

/// The number that a part of a version denotes, or 0.
fn read_part(s: &str) -> (n: u32)
    ensures
        n == version_part(s@),
{
    match parse_u32(s) {
        Some(n) => n,
        None => 0,
    }
}

/// Checks the kernel's version.
pub fn check_kernel_version(release: Option<&str>) -> (c: Check)
    ensures
        c@ == kernel_check(
            match release {
                Some(r) => Some(r@),
                None => None,
            },
        ),
{
    let name = "Kernel >= 5.11";
    match release {
        Some(r) => {
            let parts = split(r, '.');
            assert(texts(parts@).len() == parts@.len());
            let mut version: (u32, u32) = (0, 0);
            if parts.len() >= 2 {
                assert(texts(parts@)[0] == parts@[0]@ && texts(parts@)[1] == parts@[1]@);
                version = (read_part(parts[0].as_str()), read_part(parts[1].as_str()));
            }
            let mut detail = r.to_owned();
            detail.append(" (need 5.11+)");
            Check { name, pass: version.0 > 5 || (version.0 == 5 && version.1 >= 11), detail }
        },
        None => Check { name, pass: false, detail: "failed to read uname".to_owned() },
    }
}

/// A list with commas names the kernel programs, with or without blanks around.
pub open spec fn lists_bpf(list: Seq<char>) -> bool {
    exists|i: int|
        0 <= i < split_on(list, ',').len() && trimmed(#[trigger] split_on(list, ',')[i]) == "bpf"@
}

/// The check of the active security modules, from their list or why it could not
/// be read.
pub open spec fn lsm_check(content: Result<Seq<char>, Seq<char>>) -> CheckView {
    let name = "CONFIG_BPF_LSM"@;
    match content {
        Ok(s) => if lists_bpf(s) {
            CheckView {
                name,
                pass: true,
                detail: "bpf found in active LSMs ("@ + trimmed(s) + ")"@,
            }
        } else {
            CheckView {
                name,
                pass: false,
                detail: "bpf NOT in active LSMs ("@ + trimmed(s)
                    + "). Add lsm=...,bpf to kernel cmdline."@,
            }
        },
        Err(e) => CheckView {
            name,
            pass: false,
            detail: "cannot read "@ + LSM_PATH@ + ": "@ + e,
        },
    }
}

/// Whether a list with commas names the kernel programs.
fn has_bpf(list: &str) -> (r: bool)
    ensures
        r == lists_bpf(list@),
{
    let parts = split(list, ',');
    let ghost all = split_on(list@, ',');
    let mut i: usize = 0;
    while i < parts.len()
        invariant
            all == split_on(list@, ','),
            all == texts(parts@),
            0 <= i <= parts@.len(),
            forall|k: int| 0 <= k < i ==> trimmed(#[trigger] all[k]) != "bpf"@,
        decreases parts@.len() - i,
    {
        assert(all[i as int] == parts@[i as int]@);
        if same(trim(parts[i].as_str()).as_str(), "bpf") {
            return true;
        }
        i = i + 1;
    }
    false
}

/// Checks the active security modules.
pub fn check_bpf_lsm_enabled(content: &Result<String, String>) -> (c: Check)
    ensures
        c@ == lsm_check(crate::text::result_text(*content)),
{
    let name = "CONFIG_BPF_LSM";
    match content {
        Ok(s) => {
            let active = trim(s.as_str());
            if has_bpf(s.as_str()) {
                let mut detail = "bpf found in active LSMs (".to_owned();
                detail.append(active.as_str());
                detail.append(")");
                Check { name, pass: true, detail }
            } else {
                let mut detail = "bpf NOT in active LSMs (".to_owned();
                detail.append(active.as_str());
                detail.append("). Add lsm=...,bpf to kernel cmdline.");
                Check { name, pass: false, detail }
            }
        },
        Err(e) => {
            let mut detail = "cannot read ".to_owned();
            detail.append(LSM_PATH);
            detail.append(": ");
            detail.append(e.as_str());
            Check { name, pass: false, detail }
        },
    }
}

/// A boot parameter that names the security modules, the kernel programs among
/// them.
pub open spec fn names_bpf(word: Seq<char>) -> bool {
    &&& has_prefix(word, "lsm="@)
    &&& split_on(word, '=').len() >= 2
    &&& split_on(split_on(word, '=')[1], ',').contains("bpf"@)
}

/// One of the boot parameters names the kernel programs.
pub open spec fn booted_with_bpf(cmdline: Seq<char>) -> bool {
    exists|i: int| 0 <= i < words_of(cmdline).len() && names_bpf(#[trigger] words_of(cmdline)[i])
}

/// The check of the boot parameters. Where they do not name the kernel programs,
/// the list of active modules may.
pub open spec fn boot_check(cmdline: Seq<char>, active: Option<Seq<char>>) -> CheckView {
    let name = "Boot param lsm=bpf"@;
    if booted_with_bpf(cmdline) {
        CheckView { name, pass: true, detail: "lsm= includes bpf"@ }
    } else if active is Some && has_part(active->Some_0, "bpf"@) {
        CheckView { name, pass: true, detail: "bpf LSM active (built-in or default)"@ }
    } else {
        CheckView { name, pass: false, detail: "lsm= does not include bpf in /proc/cmdline"@ }
    }
}

/// Whether a boot parameter names the kernel programs.
fn word_names_bpf(word: &str) -> (r: bool)
    ensures
        r == names_bpf(word@),
{
    if !starts_with(word, "lsm=") {
        return false;
    }
    let sides = split(word, '=');
    assert(texts(sides@).len() == sides@.len());
    if sides.len() < 2 {
        return false;
    }
    assert(texts(sides@)[1] == sides@[1]@);
    any_is(&split(sides[1].as_str(), ','), "bpf")
}

/// Checks the boot parameters.
pub fn check_bpf_lsm_boot_param(cmdline: &str, active: Option<&str>) -> (c: Check)
    ensures
        c@ == boot_check(
            cmdline@,
            match active {
                Some(s) => Some(s@),
                None => None,
            },
        ),
{
    let name = "Boot param lsm=bpf";
    let words = split_whitespace(cmdline);
    let ghost all = words_of(cmdline@);
    let mut i: usize = 0;
    while i < words.len()
        invariant
            all == words_of(cmdline@),
            all == texts(words@),
            name@ == "Boot param lsm=bpf"@,
            0 <= i <= words@.len(),
            forall|k: int| 0 <= k < i ==> !names_bpf(#[trigger] all[k]),
        decreases words@.len() - i,
    {
        assert(all[i as int] == words@[i as int]@);
        if word_names_bpf(words[i].as_str()) {
            return Check { name, pass: true, detail: "lsm= includes bpf".to_owned() };
        }
        i = i + 1;
    }
    let listed = match active {
        Some(s) => contains(s, "bpf"),
        None => false,
    };
    if listed {
        Check { name, pass: true, detail: "bpf LSM active (built-in or default)".to_owned() }
    } else {
        Check {
            name,
            pass: false,
            detail: "lsm= does not include bpf in /proc/cmdline".to_owned(),
        }
    }
}

/// The check of the kernel's type information.
pub open spec fn btf_check(exists: bool) -> CheckView {
    CheckView {
        name: "BTF (vmlinux)"@,
        pass: exists,
        detail: if exists {
            "/sys/kernel/btf/vmlinux present"@
        } else {
            "missing — kernel needs CONFIG_DEBUG_INFO_BTF=y"@
        },
    }
}

/// Checks the kernel's type information.
pub fn check_btf_available(exists: bool) -> (c: Check)
    ensures
        c@ == btf_check(exists),
{
    Check {
        name: "BTF (vmlinux)",
        pass: exists,
        detail: if exists {
            "/sys/kernel/btf/vmlinux present".to_owned()
        } else {
            "missing — kernel needs CONFIG_DEBUG_INFO_BTF=y".to_owned()
        },
    }
}

/// A mount of the unified control groups at their place: device, place, type.
pub open spec fn mounts_cgroup2(line: Seq<char>) -> bool {
    &&& words_of(line).len() >= 3
    &&& words_of(line)[1] == "/sys/fs/cgroup"@
    &&& words_of(line)[2] == "cgroup2"@
}

/// Whether a mount is that of the unified control groups at their place.
fn is_cgroup2_mount(line: &str) -> (r: bool)
    ensures
        r == mounts_cgroup2(line@),
{
    let words = split_whitespace(line);
    assert(texts(words@).len() == words@.len());
    if words.len() < 3 {
        return false;
    }
    assert(texts(words@)[1] == words@[1]@ && texts(words@)[2] == words@[2]@);
    same(words[1].as_str(), "/sys/fs/cgroup") && same(words[2].as_str(), "cgroup2")
}

/// One of the mounts is that of the unified control groups.
pub open spec fn has_cgroup2(mounts: Seq<char>) -> bool {
    exists|i: int| 0 <= i < lines_of(mounts).len() && mounts_cgroup2(#[trigger] lines_of(mounts)[i])
}

/// The check of the control groups.
pub open spec fn cgroup_check(mounts: Seq<char>) -> CheckView {
    CheckView {
        name: "cgroup v2 unified"@,
        pass: has_cgroup2(mounts),
        detail: if has_cgroup2(mounts) {
            "/sys/fs/cgroup is cgroup2"@
        } else {
            "cgroup v2 unified hierarchy not found at /sys/fs/cgroup"@
        },
    }
}

/// Checks the control groups, from the list of mounts.
pub fn check_cgroup_v2(mounts: &str) -> (c: Check)
    ensures
        c@ == cgroup_check(mounts@),
{
    let name = "cgroup v2 unified";
    let all = lines(mounts);
    let ghost every = lines_of(mounts@);
    let mut i: usize = 0;
    while i < all.len()
        invariant
            every == lines_of(mounts@),
            every == texts(all@),
            name@ == "cgroup v2 unified"@,
            0 <= i <= all@.len(),
            forall|k: int| 0 <= k < i ==> !mounts_cgroup2(#[trigger] every[k]),
        decreases all@.len() - i,
    {
        assert(every[i as int] == all@[i as int]@);
        if is_cgroup2_mount(all[i].as_str()) {
            return Check { name, pass: true, detail: "/sys/fs/cgroup is cgroup2".to_owned() };
        }
        i = i + 1;
    }
    Check {
        name,
        pass: false,
        detail: "cgroup v2 unified hierarchy not found at /sys/fs/cgroup".to_owned(),
    }
}

/// The check of the daemon: where its socket exists, from what the system says of
/// its process, and whether the service manager runs it.
pub open spec fn daemon_check(found: Option<(Seq<char>, bool)>) -> CheckView {
    let name = "Daemon running"@;
    match found {
        Some((pid, via_systemd)) => CheckView {
            name,
            pass: true,
            detail: "pid="@ + trimmed(pid) + (if via_systemd {
                " (systemd, logs: journalctl -u icb-sandboxd)"@
            } else {
                " (manual, logs: stderr or /tmp/icb-sandboxd.log)"@
            }),
        },
        None => CheckView {
            name,
            pass: false,
            detail: "no socket at "@ + SOCKET_PATH@,
        },
    }
}

/// Checks the daemon.
pub fn check_daemon_running(found: Option<(&str, bool)>) -> (c: Check)
    ensures
        c@ == daemon_check(
            match found {
                Some((pid, via_systemd)) => Some((pid@, via_systemd)),
                None => None,
            },
        ),
{
    let name = "Daemon running";
    match found {
        Some((pid, via_systemd)) => {
            let mut detail = "pid=".to_owned();
            detail.append(trim(pid).as_str());
            detail.append(
                if via_systemd {
                    " (systemd, logs: journalctl -u icb-sandboxd)"
                } else {
                    " (manual, logs: stderr or /tmp/icb-sandboxd.log)"
                },
            );
            Check { name, pass: true, detail }
        },
        None => {
            let mut detail = "no socket at ".to_owned();
            detail.append(SOCKET_PATH);
            Check { name, pass: false, detail }
        },
    }
}

/// The check of the sentinel.
pub open spec fn sentinel_check(exists: bool) -> CheckView {
    CheckView {
        name: "Emergency disable"@,
        pass: !exists,
        detail: if exists {
            DISABLED_SENTINEL@ + " EXISTS — enforcement is OFF"@
        } else {
            "not active (normal operation)"@
        },
    }
}

/// Checks the sentinel.
pub fn check_disabled_sentinel(exists: bool) -> (c: Check)
    ensures
        c@ == sentinel_check(exists),
{
    let name = "Emergency disable";
    if exists {
        let mut detail = DISABLED_SENTINEL.to_owned();
        detail.append(" EXISTS — enforcement is OFF");
        Check { name, pass: false, detail }
    } else {
        Check { name, pass: true, detail: "not active (normal operation)".to_owned() }
    }
}

/// A check in a line.
pub open spec fn check_line(c: CheckView) -> Seq<char> {
    "  "@ + (if c.pass {
        "\x1b[32m✓\x1b[0m"@
    } else {
        "\x1b[31m✗\x1b[0m"@
    }) + " "@ + c.name + ": "@ + c.detail
}

/// Every check passes.
pub open spec fn all_pass(checks: Seq<CheckView>) -> bool {
    forall|i: int| 0 <= i < checks.len() ==> (#[trigger] checks[i]).pass
}

/// The report on some checks in lines.
pub open spec fn report_lines(checks: Seq<CheckView>) -> Seq<Seq<char>> {
    seq!["icb-sandbox-ctl doctor — system readiness check"@, ""@] + checks.map_values(
        |c: CheckView| check_line(c),
    ) + seq![
        ""@,
        if all_pass(checks) {
            "\x1b[32mAll checks passed.\x1b[0m Ready to run icb-sandbox."@
        } else {
            "\x1b[31mSome checks failed.\x1b[0m Fix the issues above before running icb-sandbox."@
        },
    ]
}

/// The report on some checks in lines, and whether all of them pass.
pub fn report(checks: &Vec<Check>) -> (r: (Vec<String>, bool))
    ensures
        texts(r.0@) == report_lines(checks_view(checks@)),
        r.1 == all_pass(checks_view(checks@)),
{
    let ghost all = checks_view(checks@);
    let ghost marked = all.map_values(|c: CheckView| check_line(c));
    let ghost head = seq!["icb-sandbox-ctl doctor — system readiness check"@, ""@];
    let mut lines: Vec<String> = Vec::new();
    lines.push("icb-sandbox-ctl doctor — system readiness check".to_owned());
    lines.push("".to_owned());
    assert(texts(lines@) =~= head + marked.take(0));
    let mut pass = true;
    let mut i: usize = 0;
    while i < checks.len()
        invariant
            all == checks_view(checks@),
            marked == all.map_values(|c: CheckView| check_line(c)),
            0 <= i <= checks@.len(),
            texts(lines@) == head + marked.take(i as int),
            pass == all_pass(all.take(i as int)),
        decreases checks@.len() - i,
    {
        let c = &checks[i];
        let ghost held = texts(lines@);
        let mut line = "  ".to_owned();
        line.append(
            if c.pass {
                "\x1b[32m✓\x1b[0m"
            } else {
                "\x1b[31m✗\x1b[0m"
            },
        );
        line.append(" ");
        line.append(c.name);
        line.append(": ");
        line.append(c.detail.as_str());
        lines.push(line);
        proof {
            assert(all[i as int] == c@);
            assert(texts(lines@) =~= held.push(marked[i as int]));
            assert(head + marked.take(i + 1) =~= held.push(marked[i as int]));
            let before = all.take(i as int);
            let now = all.take(i + 1);
            assert(now[i as int] == c@);
            assert(forall|k: int| 0 <= k < i ==> now[k] == #[trigger] before[k]);
            if all_pass(before) && c.pass {
                assert forall|k: int| 0 <= k < now.len() implies (#[trigger] now[k]).pass by {
                    if k < i {
                        assert(before[k].pass);
                    }
                }
            }
            if all_pass(now) {
                assert forall|k: int| 0 <= k < before.len() implies (#[trigger] before[k]).pass by {
                    assert(now[k].pass);
                }
                assert(now[i as int].pass);
            }
        }
        if !c.pass {
            pass = false;
        }
        i = i + 1;
    }
    proof {
        assert(marked.take(i as int) =~= marked);
        assert(all.take(i as int) =~= all);
    }
    lines.push("".to_owned());
    lines.push(
        if pass {
            "\x1b[32mAll checks passed.\x1b[0m Ready to run icb-sandbox.".to_owned()
        } else {
            "\x1b[31mSome checks failed.\x1b[0m Fix the issues above before running icb-sandbox.".to_owned()
        },
    );
    assert(texts(lines@) =~= report_lines(all));
    (lines, pass)
}

/// The name of a check that does not pass.
pub open spec fn failed_name() -> spec_fn(CheckView) -> Option<Seq<char>> {
    |c: CheckView|
        if c.pass {
            None
        } else {
            Some(c.name)
        }
}

/// The names of the checks that do not pass.
pub fn unmet(checks: &Vec<Check>) -> (names: Vec<String>)
    ensures
        texts(names@) == checks_view(checks@).filter_map(failed_name()),
{
    let ghost all = checks_view(checks@);
    let ghost f = failed_name();
    let mut names: Vec<String> = Vec::new();
    assert(texts(names@) =~= all.take(0).filter_map(f));
    let mut i: usize = 0;
    while i < checks.len()
        invariant
            all == checks_view(checks@),
            f == failed_name(),
            0 <= i <= checks@.len(),
            texts(names@) == all.take(i as int).filter_map(f),
        decreases checks@.len() - i,
    {
        let ghost before = texts(names@);
        proof {
            all.lemma_filter_map_take_succ(f, i as int);
            assert(all[i as int] == checks@[i as int]@);
        }
        if !checks[i].pass {
            names.push(checks[i].name.to_owned());
            assert(texts(names@) =~= before + seq![checks@[i as int].name@]);
        }
        i = i + 1;
        assert(texts(names@) =~= all.take(i as int).filter_map(f));
    }
    assert(all.take(i as int) =~= all);
    names
}

/// A kernel is recent enough exactly where its version, major number before minor
/// number, is 5.11 or later; what is no number counts as 0. A release with less than
/// two parts, or that could not be had, does not pass.
pub proof fn law_kernel_version(release: Option<&str>, c: Check)
    requires
        call_ensures(check_kernel_version, (release,), c),
    ensures
        c.name@ == "Kernel >= 5.11"@,
        release is None ==> !c.pass && c.detail@ == "failed to read uname"@,
        release matches Some(r) ==> {
            let parts = split_on(r@, '.');
            &&& c.detail@ == r@ + " (need 5.11+)"@
            &&& parts.len() < 2 ==> !c.pass
            &&& parts.len() >= 2 ==> {
                let major = match u32_of(parts[0]) {
                    Some(n) => n as int,
                    None => 0,
                };
                let minor = match u32_of(parts[1]) {
                    Some(n) => n as int,
                    None => 0,
                };
                c.pass <==> major * 0x1_0000_0000 + minor >= 5 * 0x1_0000_0000 + 11
            }
        },
{
}

/// A release that begins with two numbers passes exactly where they are 5.11 or later,
/// whatever follows behind a dot.
pub proof fn law_release_passes(
    major: u32,
    minor: u32,
    tail: Seq<char>,
    release: &str,
    c: Check,
)
    requires
        tail.len() == 0 || tail[0] == '.',
        release@ == decimal(major as nat) + "."@ + decimal(minor as nat) + tail,
        call_ensures(check_kernel_version, (Some(release),), c),
    ensures
        c.pass <==> major > 5 || (major == 5 && minor > 10),
{
    law_kernel_version(Some(release), c);
    lemma_release_parts(major as nat, minor as nat, tail);
    law_written_numbers_are_read(major);
    law_written_numbers_are_read(minor);
}

/// A kernel that is later than one that passes does pass.
pub proof fn law_later_kernels_pass(
    major: u32,
    minor: u32,
    later: u32,
    tail: Seq<char>,
    first: &str,
    second: &str,
    a: Check,
    b: Check,
)
    requires
        tail.len() == 0 || tail[0] == '.',
        minor <= later,
        first@ == decimal(major as nat) + "."@ + decimal(minor as nat) + tail,
        second@ == decimal(major as nat) + "."@ + decimal(later as nat) + tail,
        call_ensures(check_kernel_version, (Some(first),), a),
        call_ensures(check_kernel_version, (Some(second),), b),
        a.pass,
    ensures
        b.pass,
{
    law_release_passes(major, minor, tail, first, a);
    law_release_passes(major, later, tail, second, b);
}

proof fn lemma_release_parts(major: nat, minor: nat, tail: Seq<char>)
    requires
        tail.len() == 0 || tail[0] == '.',
    ensures
        ({
            let parts = split_on(decimal(major) + "."@ + decimal(minor) + tail, '.');
            &&& parts.len() >= 2
            &&& parts[0] == decimal(major)
            &&& parts[1] == decimal(minor)
        }),
{
    let dot = is_char('.');
    let a = decimal(major);
    let b = decimal(minor);
    reveal_strlit(".");
    lemma_decimal_digits(major);
    lemma_decimal_digits(minor);
    lemma_no_separator(a, dot);
    lemma_no_separator(b, dot);
    let head = a.push('.');
    let rest = b + tail;
    assert(a + "."@ + b + tail =~= head + rest);
    lemma_split_behind(head, rest, dot);
    assert(head.drop_last() =~= a);
    assert(split_where(head, dot) =~= seq![a, Seq::<char>::empty()]);
    assert(split_where(head, dot).drop_last() =~= seq![a]);
    lemma_split_nonempty(rest, dot);
    if tail.len() == 0 {
        assert(rest =~= b);
    } else {
        let next = b.push('.');
        let behind = tail.drop_first();
        assert(rest =~= next + behind);
        lemma_split_behind(next, behind, dot);
        assert(next.drop_last() =~= b);
        assert(split_where(next, dot) =~= seq![b, Seq::<char>::empty()]);
        assert(split_where(next, dot).drop_last() =~= seq![b]);
    }
}

/// The kernel programs are active exactly where the list of the kernel's security
/// modules has `bpf` between two commas, blanks aside. A list that could not be read
/// does not pass.
pub proof fn law_active_modules(content: &Result<String, String>, c: Check)
    requires
        call_ensures(check_bpf_lsm_enabled, (content,), c),
    ensures
        c.name@ == "CONFIG_BPF_LSM"@,
        *content matches Err(e) ==> !c.pass && c.detail@ == "cannot read "@
            + "/sys/kernel/security/lsm"@ + ": "@ + e@,
        *content matches Ok(s) ==> {
            &&& c.pass <==> exists|i: int|
                0 <= i < split_on(s@, ',').len() && trimmed(#[trigger] split_on(s@, ',')[i])
                    == "bpf"@
            &&& c.pass ==> c.detail@ == "bpf found in active LSMs ("@ + trimmed(s@) + ")"@
            &&& !c.pass ==> c.detail@ == "bpf NOT in active LSMs ("@ + trimmed(s@)
                + "). Add lsm=...,bpf to kernel cmdline."@
        },
{
}

/// The boot parameters pass exactly where one of them begins with `lsm=` and lists
/// `bpf` between commas, or the list of active modules names it anyhow.
pub proof fn law_boot_parameters(cmdline: &str, active: Option<&str>, c: Check)
    requires
        call_ensures(check_bpf_lsm_boot_param, (cmdline, active), c),
    ensures
        c.name@ == "Boot param lsm=bpf"@,
        ({
            let words = words_of(cmdline@);
            let booted = exists|i: int|
                {
                    &&& 0 <= i < words.len()
                    &&& has_prefix(#[trigger] words[i], "lsm="@)
                    &&& split_on(split_on(words[i], '=')[1], ',').contains("bpf"@)
                };
            let built_in = active is Some && has_part(active->Some_0@, "bpf"@);
            &&& c.pass <==> booted || built_in
            &&& booted ==> c.detail@ == "lsm= includes bpf"@
            &&& !booted && built_in ==> c.detail@ == "bpf LSM active (built-in or default)"@
            &&& !booted && !built_in ==> c.detail@
                == "lsm= does not include bpf in /proc/cmdline"@
        }),
{
    let words = words_of(cmdline@);
    assert forall|i: int|
        0 <= i < words.len() && has_prefix(#[trigger] words[i], "lsm="@) implies split_on(
        words[i],
        '=',
    ).len() >= 2 by {
        let w = words[i];
        reveal_strlit("lsm=");
        let head = "lsm="@;
        let rest = w.skip(4);
        assert(w =~= head + rest);
        lemma_split_behind(head, rest, is_char('='));
        lemma_split_nonempty(rest, is_char('='));
        lemma_split_nonempty(head.drop_last(), is_char('='));
        assert(head.last() == '=');
    }
    if booted_with_bpf(cmdline@) {
        let i = choose|i: int| 0 <= i < words.len() && names_bpf(#[trigger] words[i]);
        assert(has_prefix(words[i], "lsm="@));
    }
    if exists|i: int|
        {
            &&& 0 <= i < words.len()
            &&& has_prefix(#[trigger] words[i], "lsm="@)
            &&& split_on(split_on(words[i], '=')[1], ',').contains("bpf"@)
        } {
        let i = choose|i: int|
            {
                &&& 0 <= i < words.len()
                &&& has_prefix(#[trigger] words[i], "lsm="@)
                &&& split_on(split_on(words[i], '=')[1], ',').contains("bpf"@)
            };
        assert(names_bpf(words[i]));
    }
}

/// The kernel's type information passes exactly where it exists.
pub proof fn law_type_information(exists: bool, c: Check)
    requires
        call_ensures(check_btf_available, (exists,), c),
    ensures
        c.name@ == "BTF (vmlinux)"@,
        c.pass == exists,
        exists ==> c.detail@ == "/sys/kernel/btf/vmlinux present"@,
        !exists ==> c.detail@ == "missing — kernel needs CONFIG_DEBUG_INFO_BTF=y"@,
{
}

/// The control groups pass exactly where a mount of the type `cgroup2` stands at
/// `/sys/fs/cgroup`.
pub proof fn law_control_groups(mounts: &str, c: Check)
    requires
        call_ensures(check_cgroup_v2, (mounts,), c),
    ensures
        c.name@ == "cgroup v2 unified"@,
        c.pass <==> exists|i: int|
            {
                &&& 0 <= i < lines_of(mounts@).len()
                &&& words_of(#[trigger] lines_of(mounts@)[i]).len() >= 3
                &&& words_of(lines_of(mounts@)[i])[1] == "/sys/fs/cgroup"@
                &&& words_of(lines_of(mounts@)[i])[2] == "cgroup2"@
            },
        c.pass ==> c.detail@ == "/sys/fs/cgroup is cgroup2"@,
        !c.pass ==> c.detail@ == "cgroup v2 unified hierarchy not found at /sys/fs/cgroup"@,
{
    let all = lines_of(mounts@);
    if has_cgroup2(mounts@) {
        let i = choose|i: int| 0 <= i < all.len() && mounts_cgroup2(#[trigger] all[i]);
        assert(words_of(all[i]).len() >= 3);
    }
    if exists|i: int|
        {
            &&& 0 <= i < all.len()
            &&& words_of(#[trigger] all[i]).len() >= 3
            &&& words_of(all[i])[1] == "/sys/fs/cgroup"@
            &&& words_of(all[i])[2] == "cgroup2"@
        } {
        let i = choose|i: int|
            {
                &&& 0 <= i < all.len()
                &&& words_of(#[trigger] all[i]).len() >= 3
                &&& words_of(all[i])[1] == "/sys/fs/cgroup"@
                &&& words_of(all[i])[2] == "cgroup2"@
            };
        assert(mounts_cgroup2(all[i]));
    }
}

/// The daemon passes exactly where its socket was found. Its process is named, and
/// where its log is to be looked for.
pub proof fn law_daemon_running(found: Option<(&str, bool)>, c: Check)
    requires
        call_ensures(check_daemon_running, (found,), c),
    ensures
        c.name@ == "Daemon running"@,
        c.pass <==> found is Some,
        found is None ==> c.detail@ == "no socket at "@ + "/run/bpfjailer/enrollment.sock"@,
        found matches Some((pid, true)) ==> c.detail@ == "pid="@ + trimmed(pid@)
            + " (systemd, logs: journalctl -u icb-sandboxd)"@,
        found matches Some((pid, false)) ==> c.detail@ == "pid="@ + trimmed(pid@)
            + " (manual, logs: stderr or /tmp/icb-sandboxd.log)"@,
{
}

/// The sentinel passes exactly where it does not exist.
pub proof fn law_sentinel(exists: bool, c: Check)
    requires
        call_ensures(check_disabled_sentinel, (exists,), c),
    ensures
        c.name@ == "Emergency disable"@,
        c.pass == !exists,
        exists ==> c.detail@ == "/etc/icb/sandbox/disabled"@ + " EXISTS — enforcement is OFF"@,
        !exists ==> c.detail@ == "not active (normal operation)"@,
{
}

/// A report has a line for each check, in order, with its name, its detail, and a mark
/// that says whether it passed; it ends well exactly where all of them did.
pub proof fn law_report(checks: &Vec<Check>, r: (Vec<String>, bool), i: int)
    requires
        call_ensures(report, (checks,), r),
    ensures
        r.1 <==> forall|k: int| 0 <= k < checks@.len() ==> (#[trigger] checks@[k]).pass,
        r.0@.len() == checks@.len() + 4,
        r.0@[0]@ == "icb-sandbox-ctl doctor — system readiness check"@,
        r.0@[1]@ == ""@,
        0 <= i < checks@.len() ==> r.0@[i + 2]@ == "  "@ + (if checks@[i].pass {
            "\x1b[32m✓\x1b[0m"@
        } else {
            "\x1b[31m✗\x1b[0m"@
        }) + " "@ + checks@[i].name@ + ": "@ + checks@[i].detail@,
        r.0@[checks@.len() as int + 2]@ == ""@,
        r.1 ==> r.0@[checks@.len() as int + 3]@
            == "\x1b[32mAll checks passed.\x1b[0m Ready to run icb-sandbox."@,
        !r.1 ==> r.0@[checks@.len() as int + 3]@
            == "\x1b[31mSome checks failed.\x1b[0m Fix the issues above before running icb-sandbox."@,
{
    let all = checks_view(checks@);
    let lines = texts(r.0@);
    let n = checks@.len() as int;
    assert(lines.len() == r.0@.len());
    assert(lines.len() == n + 4);
    assert(forall|k: int| 0 <= k < lines.len() ==> #[trigger] lines[k] == r.0@[k]@);
    assert(forall|k: int| 0 <= k < n ==> all[k] == (#[trigger] checks@[k])@);
    assert(lines[0] == r.0@[0]@ && lines[1] == r.0@[1]@);
    assert(lines[n + 2] == r.0@[n + 2]@ && lines[n + 3] == r.0@[n + 3]@);
    if 0 <= i < n {
        assert(lines[i + 2] == check_line(all[i]));
    }
    if r.1 {
        assert forall|k: int| 0 <= k < checks@.len() implies (#[trigger] checks@[k]).pass by {
            assert(all[k].pass);
        }
    }
}

/// What is missing is named check by check, in order: the checks that did not pass, and
/// no others.
pub proof fn law_unmet(checks: &Vec<Check>, names: Vec<String>)
    requires
        call_ensures(unmet, (checks,), names),
    ensures
        ({
            let failed = checks@.filter(|c: Check| !c.pass);
            &&& names@.len() == failed.len()
            &&& forall|i: int|
                0 <= i < names@.len() ==> (#[trigger] names@[i])@ == failed[i].name@
        }),
{
    lemma_unmet(checks@);
    assert(texts(names@).len() == names@.len());
    assert(forall|i: int| 0 <= i < names@.len() ==> texts(names@)[i] == (#[trigger] names@[i])@);
}

proof fn lemma_unmet(checks: Seq<Check>)
    ensures
        ({
            let failed = checks.filter(|c: Check| !c.pass);
            let names = checks_view(checks).filter_map(failed_name());
            &&& names.len() == failed.len()
            &&& forall|i: int| 0 <= i < names.len() ==> #[trigger] names[i] == failed[i].name@
        }),
    decreases checks.len(),
{
    reveal(Seq::filter);
    if checks.len() > 0 {
        lemma_unmet(checks.drop_last());
        assert(checks_view(checks).drop_last() =~= checks_view(checks.drop_last()));
    }
}

/// What a check shows is what came of it.
pub proof fn law_check_shows_all(c: Check)
    ensures
        c@.name == c.name@,
        c@.pass == c.pass,
        c@.detail == c.detail@,
{
}

/// Where the checks look.
pub proof fn law_places()
    ensures
        LSM_PATH@ == "/sys/kernel/security/lsm"@,
        BTF_PATH@ == "/sys/kernel/btf/vmlinux"@,
        DISABLED_SENTINEL@ == "/etc/icb/sandbox/disabled"@,
{
}

} // verus!
