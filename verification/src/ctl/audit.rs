//! `audit`: show what the kernel programs have denied.

use crate::daemon::audit::{attributed, audit_line, hook, verdict_name, AuditEvent};
use crate::text::{
    any_is, apart_at, contains_apart, decimal, hexadecimal, is_space, law_apart, law_trimmed,
    lemma_decimal_value, lemma_number_unbroken, lemma_one_word, lemma_some_word, lemma_word_apart,
    lemma_words_append, lines, lines_of, split_whitespace, stands_apart, texts, to_decimal, trim,
    trimmed, unbroken, words_of,
};
use vstd::prelude::*;

verus! {

/// The arguments of the journal reader.
pub open spec fn journal_arguments(me: bool, since: Option<Seq<char>>, follow: bool) -> Seq<
    Seq<char>,
> {
    seq!["--output"@, "short-precise"@, "-t"@, "icb-sandbox-audit"@] + (if follow {
        seq!["-f"@]
    } else {
        Seq::empty()
    }) + seq![
        "--since"@,
        match since {
            Some(s) => s,
            None => "5min ago"@,
        },
    ] + (if me {
        seq!["--output-fields=MESSAGE"@]
    } else {
        Seq::empty()
    })
}

/// The arguments of the journal reader.
pub fn journal_args(me: bool, since: Option<&str>, follow: bool) -> (args: Vec<String>)
    ensures
        texts(args@) == journal_arguments(
            me,
            match since {
                Some(s) => Some(s@),
                None => None,
            },
            follow,
        ),
{
    let mut args: Vec<String> = Vec::new();
    args.push("--output".to_owned());
    args.push("short-precise".to_owned());
    args.push("-t".to_owned());
    args.push("icb-sandbox-audit".to_owned());
    if follow {
        args.push("-f".to_owned());
    }
    args.push("--since".to_owned());
    args.push(
        match since {
            Some(s) => s.to_owned(),
            None => "5min ago".to_owned(),
        },
    );
    if me {
        args.push("--output-fields=MESSAGE".to_owned());
    }
    assert(texts(args@) =~= journal_arguments(
        me,
        match since {
            Some(s) => Some(s@),
            None => None,
        },
        follow,
    ));
    args
}

/// How the journal is shown.
#[derive(Clone, Copy, Debug, PartialEq, Eq, Structural)]
pub enum Presentation {
    /// Line by line, as far as the lines match.
    Filtered,
    /// As it comes, as far as the lines match.
    FilteredStream,
    /// As it comes.
    Streamed,
    /// As a whole.
    Whole,
}

/// How the journal is shown: filtered where the caller asks for a user or a role,
/// and as it comes where the caller asks to follow it.
pub open spec fn presentation_for(me: bool, role: bool, follow: bool) -> Presentation {
    if (me || role) && follow {
        Presentation::FilteredStream
    } else if me || role {
        Presentation::Filtered
    } else if follow {
        Presentation::Streamed
    } else {
        Presentation::Whole
    }
}

/// How the journal is shown.
pub fn presentation(me: bool, role: bool, follow: bool) -> (p: Presentation)
    ensures
        p == presentation_for(me, role, follow),
{
    if (me || role) && follow {
        Presentation::FilteredStream
    } else if me || role {
        Presentation::Filtered
    } else if follow {
        Presentation::Streamed
    } else {
        Presentation::Whole
    }
}

/// The line is about the user and the role that are asked for: it names the user
/// in a word of its own, and the role between white space or the ends of the
/// line. The name of a role may itself hold white space.
pub open spec fn wanted(line: Seq<char>, uid: Option<u32>, role: Option<Seq<char>>) -> bool {
    &&& uid matches Some(uid) ==> words_of(line).contains("uid="@ + decimal(uid as nat))
    &&& role matches Some(role) ==> stands_apart(line, "role="@ + role)
}

/// Whether a line is about the user and the role that are asked for.
pub fn is_wanted(line: &str, uid: Option<u32>, role: Option<&str>) -> (r: bool)
    ensures
        r == wanted(
            line@,
            uid,
            match role {
                Some(r) => Some(r@),
                None => None,
            },
        ),
{
    if let Some(uid) = uid {
        let words = split_whitespace(line);
        let mut mark = "uid=".to_owned();
        mark.append(to_decimal(uid as u64).as_str());
        if !any_is(&words, mark.as_str()) {
            return false;
        }
    }
    if let Some(role) = role {
        let mut mark = "role=".to_owned();
        mark.append(role);
        if !contains_apart(line, mark.as_str()) {
            return false;
        }
    }
    true
}

/// The lines about the user and the role that are asked for.
pub open spec fn wanted_lines(
    lines: Seq<Seq<char>>,
    uid: Option<u32>,
    role: Option<Seq<char>>,
) -> Seq<Seq<char>> {
    lines.filter(|l: Seq<char>| wanted(l, uid, role))
}

/// The lines of the journal about the user and the role that are asked for.
pub fn filter_lines(stdout: &str, uid: Option<u32>, role: Option<&str>) -> (kept: Vec<String>)
    ensures
        texts(kept@) == wanted_lines(
            lines_of(stdout@),
            uid,
            match role {
                Some(r) => Some(r@),
                None => None,
            },
        ),
{
    let ghost wanted_role = match role {
        Some(r) => Some(r@),
        None => None,
    };
    let ghost pred = |l: Seq<char>| wanted(l, uid, wanted_role);
    let all = lines(stdout);
    let ghost every = lines_of(stdout@);
    let mut kept: Vec<String> = Vec::new();
    proof {
        reveal(Seq::filter);
        assert(texts(kept@) =~= every.take(0).filter(pred));
    }
    let mut i: usize = 0;
    while i < all.len()
        invariant
            every == lines_of(stdout@),
            texts(all@) == every,
            pred == (|l: Seq<char>| wanted(l, uid, wanted_role)),
            wanted_role == match role {
                Some(r) => Some(r@),
                None => None,
            },
            0 <= i <= all@.len(),
            texts(kept@) == every.take(i as int).filter(pred),
        decreases all@.len() - i,
    {
        let ghost before = texts(kept@);
        proof {
            reveal(Seq::filter);
            assert(every.take(i + 1).drop_last() =~= every.take(i as int));
            assert(every.take(i + 1).last() == all@[i as int]@);
        }
        if is_wanted(all[i].as_str(), uid, role) {
            kept.push(all[i].clone());
            assert(texts(kept@) =~= before.push(every[i as int]));
        }
        i = i + 1;
    }
    assert(every.take(i as int) =~= every);
    kept
}

/// The journal as a whole, or a notice where it is empty.
pub open spec fn whole_text(stdout: Seq<char>) -> Seq<char> {
    if trimmed(stdout).len() == 0 {
        "No audit events in the specified time range.\n"@
    } else {
        stdout
    }
}

/// The journal as a whole, or a notice where it is empty.
pub fn whole_output(stdout: &str) -> (s: String)
    ensures
        s@ == whole_text(stdout@),
{
    if trim(stdout).as_str().is_empty() {
        "No audit events in the specified time range.\n".to_owned()
    } else {
        stdout.to_owned()
    }
}

/// A shown line is a line of the journal, and with a user or a role asked for it
/// speaks of them; a line that does is shown.
pub proof fn law_shown_lines(
    lines: Seq<Seq<char>>,
    uid: Option<u32>,
    role: Option<Seq<char>>,
    line: Seq<char>,
)
    ensures
        wanted_lines(lines, uid, role).contains(line) <==> lines.contains(line) && wanted(
            line,
            uid,
            role,
        ),
{
    let pred = |l: Seq<char>| wanted(l, uid, role);
    let kept = lines.filter(pred);
    if kept.contains(line) {
        lines.lemma_filter_contains_rev(pred, line);
        let i = choose|i: int| 0 <= i < kept.len() && kept[i] == line;
        lines.lemma_filter_pred(pred, i);
    }
    if lines.contains(line) && wanted(line, uid, role) {
        let i = choose|i: int| 0 <= i < lines.len() && lines[i] == line;
        lines.lemma_filter_contains(pred, i);
    }
}

/// Asking for more shows no more.
pub proof fn law_filters_narrow(
    lines: Seq<Seq<char>>,
    uid: u32,
    role: Seq<char>,
    line: Seq<char>,
)
    requires
        wanted_lines(lines, Some(uid), Some(role)).contains(line),
    ensures
        wanted_lines(lines, Some(uid), None).contains(line),
        wanted_lines(lines, None, Some(role)).contains(line),
{
    law_shown_lines(lines, Some(uid), Some(role), line);
    law_shown_lines(lines, Some(uid), None, line);
    law_shown_lines(lines, None, Some(role), line);
}

/// A key and a value behind a blank are one more word.
proof fn lemma_word_behind(x: Seq<char>, mark: Seq<char>, key: Seq<char>, value: Seq<char>)
    requires
        mark == seq![' '] + key,
        key.len() > 0,
        unbroken(key),
        unbroken(value),
    ensures
        words_of(x + mark + value) == words_of(x).push(key + value),
{
    assert(x + mark + value =~= x.push(' ') + (key + value));
    lemma_words_append(x, ' ', key + value);
    lemma_one_word(key + value);
    assert(words_of(x) + seq![key + value] =~= words_of(x).push(key + value));
}

/// The words of a line of the log.
pub open spec fn audit_words(e: AuditEvent) -> Seq<Seq<char>> {
    seq![
        "pid="@ + decimal(e.pid as nat),
        "role_id="@ + decimal(e.role_id as nat),
        "pod_id="@ + decimal(e.pod_id as nat),
        "decision="@ + verdict_name(e.decision),
        "hook="@ + hook(e.hook_type),
        "context=0x"@ + hexadecimal(e.context as nat),
    ]
}

proof fn lemma_audit_words(e: AuditEvent)
    ensures
        words_of(audit_line(e)) == audit_words(e),
{
    reveal_strlit("pid=");
    reveal_strlit(" role_id=");
    reveal_strlit("role_id=");
    reveal_strlit(" pod_id=");
    reveal_strlit("pod_id=");
    reveal_strlit(" decision=");
    reveal_strlit("decision=");
    reveal_strlit(" hook=");
    reveal_strlit("hook=");
    reveal_strlit(" context=0x");
    reveal_strlit("context=0x");
    lemma_names_unbroken(e);
    lemma_number_unbroken(e.pid as nat);
    lemma_number_unbroken(e.role_id as nat);
    lemma_number_unbroken(e.pod_id as nat);
    lemma_number_unbroken(e.context as nat);
    let x1 = "pid="@ + decimal(e.pid as nat);
    lemma_one_word(x1);
    assert(" role_id="@ =~= seq![' '] + "role_id="@);
    lemma_word_behind(x1, " role_id="@, "role_id="@, decimal(e.role_id as nat));
    let x2 = x1 + " role_id="@ + decimal(e.role_id as nat);
    assert(" pod_id="@ =~= seq![' '] + "pod_id="@);
    lemma_word_behind(x2, " pod_id="@, "pod_id="@, decimal(e.pod_id as nat));
    let x3 = x2 + " pod_id="@ + decimal(e.pod_id as nat);
    assert(" decision="@ =~= seq![' '] + "decision="@);
    lemma_word_behind(x3, " decision="@, "decision="@, verdict_name(e.decision));
    let x4 = x3 + " decision="@ + verdict_name(e.decision);
    assert(" hook="@ =~= seq![' '] + "hook="@);
    lemma_word_behind(x4, " hook="@, "hook="@, hook(e.hook_type));
    let x5 = x4 + " hook="@ + hook(e.hook_type);
    assert(" context=0x"@ =~= seq![' '] + "context=0x"@);
    lemma_word_behind(x5, " context=0x"@, "context=0x"@, hexadecimal(e.context as nat));
    assert(words_of(audit_line(e)) =~= audit_words(e));
}

/// The names of hooks and decisions are words.
proof fn lemma_names_unbroken(e: AuditEvent)
    ensures
        unbroken(hook(e.hook_type)),
        unbroken(verdict_name(e.decision)),
{
    reveal_strlit("file_open");
    reveal_strlit("socket_bind");
    reveal_strlit("socket_connect");
    reveal_strlit("bprm_check");
    reveal_strlit("path_rename");
    reveal_strlit("unknown");
    reveal_strlit("deny");
    reveal_strlit("allow");
}

/// A line that the daemon logs of a user and a role is shown to whoever asks for
/// that user, for that role or for both.
pub proof fn law_logged_lines_are_found(e: AuditEvent, uid: u32, role: Seq<char>)
    ensures
        ({
            let line = attributed(audit_line(e), Some(uid), Some(role));
            &&& wanted(line, Some(uid), None)
            &&& wanted(line, None, Some(role))
            &&& wanted(line, Some(uid), Some(role))
        }),
{
    let line = attributed(audit_line(e), Some(uid), Some(role));
    let user = "uid="@ + decimal(uid as nat);
    let named = "role="@ + role;
    let y = lemma_user_words(e, uid);
    reveal_strlit(" role=");
    reveal_strlit("role=");
    assert(line =~= y.push(' ') + named);
    lemma_words_append(y, ' ', named);
    assert(words_of(line)[6] == user);
    let at = y.len() as int + 1;
    assert(line.subrange(at, at + named.len()) =~= named);
    assert(apart_at(line, named, at));
}

/// A line that the daemon logs of a user and a role with an unbroken name is
/// shown to nobody who asks for another user or another role.
pub proof fn law_logged_lines_are_private(e: AuditEvent, uid: u32, role: Seq<char>)
    requires
        unbroken(role),
    ensures
        ({
            let line = attributed(audit_line(e), Some(uid), Some(role));
            &&& forall|other: u32| #[trigger] wanted(line, Some(other), None) ==> other == uid
            &&& forall|other: Seq<char>| #[trigger]
                wanted(line, None, Some(other)) ==> other == role
        }),
{
    let line = attributed(audit_line(e), Some(uid), Some(role));
    reveal_strlit("uid=");
    reveal_strlit(" role=");
    reveal_strlit("role=");
    let y = lemma_user_words(e, uid);
    assert(" role="@ =~= seq![' '] + "role="@);
    lemma_word_behind(y, " role="@, "role="@, role);
    assert(line == y + " role="@ + role);
    let user = "uid="@ + decimal(uid as nat);
    let named = "role="@ + role;
    let all = words_of(line);
    assert(all == audit_words(e).push(user).push(named));
    assert(all[6] == user && all[7] == named);
    lemma_audit_marks(e);
    assert forall|other: u32| #[trigger] wanted(line, Some(other), None) implies other == uid by {
        let asked = "uid="@ + decimal(other as nat);
        assert(asked[0] == 'u');
        let i = choose|i: int| 0 <= i < all.len() && all[i] == asked;
        assert(all[i][0] == 'u');
        assert(named[0] == 'r');
        if i < 6 {
            assert(all[i] == audit_words(e)[i]);
        }
        assert(i == 6);
        assert(asked.skip(4) =~= decimal(other as nat));
        assert(user.skip(4) =~= decimal(uid as nat));
        lemma_decimal_value(other as nat);
        lemma_decimal_value(uid as nat);
    }
    assert forall|other: Seq<char>| #[trigger]
        wanted(line, None, Some(other)) implies other == role by {
        let asked = "role="@ + other;
        let at = choose|i: int| apart_at(line, asked, i);
        let word = unbroken_start(asked);
        lemma_unbroken_start(asked);
        assert(word.len() >= 5) by {
            if word.len() < 5 {
                assert(is_space(asked[word.len() as int]));
            }
        }
        assert(line.subrange(at, at + word.len()) =~= line.subrange(at, at + asked.len()).take(
            word.len() as int,
        ));
        assert(word.len() < asked.len() ==> line[at + word.len()] == line.subrange(
            at,
            at + asked.len(),
        )[word.len() as int]);
        assert(apart_at(line, word, at));
        lemma_word_apart(line, word, at);
        let i = words_of(line.take(at)).len() as int;
        assert(all[i] == word);
        assert(word[0] == 'r' && word[4] == '=');
        assert(all[i][0] == 'r' && all[i][4] == '=');
        assert(user[0] == 'u');
        if i < 6 {
            assert(all[i] == audit_words(e)[i]);
        }
        assert(i == 7);
        let rest = line.skip(at + word.len());
        assert(words_of(rest).len() == 0);
        assert(line.last() == named.last());
        if rest.len() > 0 {
            assert(rest.last() == line.last());
            lemma_some_word(rest);
        }
        assert(asked =~= word);
        assert(asked.skip(5) =~= other);
        assert(named.skip(5) =~= role);
    }
}

/// The characters before the first white space.
spec fn unbroken_start(s: Seq<char>) -> Seq<char>
    decreases s.len(),
{
    if s.len() == 0 || unbroken(s) {
        s
    } else {
        unbroken_start(s.drop_last())
    }
}

proof fn lemma_unbroken_start(s: Seq<char>)
    ensures
        unbroken(unbroken_start(s)),
        unbroken_start(s).len() <= s.len(),
        unbroken_start(s) == s.take(unbroken_start(s).len() as int),
        unbroken_start(s).len() < s.len() ==> is_space(s[unbroken_start(s).len() as int]),
    decreases s.len(),
{
    if s.len() == 0 || unbroken(s) {
        assert(s.take(s.len() as int) =~= s);
    } else {
        let less = s.drop_last();
        lemma_unbroken_start(less);
        let n = unbroken_start(less).len() as int;
        assert(less.take(n) =~= s.take(n));
        if n == less.len() {
            assert(less.take(n) =~= less);
            assert(forall|i: int| 0 <= i < less.len() ==> less[i] == s[i]);
        }
    }
}

/// The words of a line of the log with the user behind it.
proof fn lemma_user_words(e: AuditEvent, uid: u32) -> (y: Seq<char>)
    ensures
        y == audit_line(e) + " uid="@ + decimal(uid as nat),
        words_of(y) == audit_words(e).push("uid="@ + decimal(uid as nat)),
{
    reveal_strlit(" uid=");
    reveal_strlit("uid=");
    lemma_audit_words(e);
    lemma_number_unbroken(uid as nat);
    assert(" uid="@ =~= seq![' '] + "uid="@);
    lemma_word_behind(audit_line(e), " uid="@, "uid="@, decimal(uid as nat));
    audit_line(e) + " uid="@ + decimal(uid as nat)
}

/// None of the words of an event names a user or a role.
proof fn lemma_audit_marks(e: AuditEvent)
    ensures
        forall|i: int| 0 <= i < 6 ==> (#[trigger] audit_words(e)[i])[0] != 'u',
        forall|i: int|
            0 <= i < 6 ==> (#[trigger] audit_words(e)[i])[0] != 'r' || audit_words(e)[i][4] != '=',
{
    reveal_strlit("pid=");
    reveal_strlit("role_id=");
    reveal_strlit("pod_id=");
    reveal_strlit("decision=");
    reveal_strlit("hook=");
    reveal_strlit("context=0x");
    let w = audit_words(e);
    assert(w[0][0] == 'p' && w[1][0] == 'r' && w[1][4] == '_' && w[2][0] == 'p' && w[3][0] == 'd'
        && w[4][0] == 'h' && w[5][0] == 'c');
}

/// The journal is asked for the lines of the audit log since the time that was given, or
/// for the last five minutes. It is followed exactly where that is asked for, and only
/// the message is wanted where the caller asks for their own lines.
pub proof fn law_journal_is_asked(
    me: bool,
    since: Option<&str>,
    follow: bool,
    args: Vec<String>,
)
    requires
        call_ensures(journal_args, (me, since, follow), args),
    ensures
        ({
            let at = if follow {
                5int
            } else {
                4int
            };
            &&& args@.len() == at + 2 + (if me {
                1int
            } else {
                0int
            })
            &&& args@[0]@ == "--output"@
            &&& args@[1]@ == "short-precise"@
            &&& args@[2]@ == "-t"@
            &&& args@[3]@ == "icb-sandbox-audit"@
            &&& follow ==> args@[4]@ == "-f"@
            &&& args@[at]@ == "--since"@
            &&& since is None ==> args@[at + 1]@ == "5min ago"@
            &&& since matches Some(time) ==> args@[at + 1]@ == time@
            &&& me ==> args@[at + 2]@ == "--output-fields=MESSAGE"@
        }),
{
    let all = texts(args@);
    assert(all.len() == args@.len());
    assert(forall|k: int| 0 <= k < args@.len() ==> all[k] == (#[trigger] args@[k])@);
}

/// Lines are picked exactly where a user or a role is asked for, and shown as they come
/// exactly where the journal is followed.
pub proof fn law_presentation(me: bool, role: bool, follow: bool, p: Presentation)
    requires
        call_ensures(presentation, (me, role, follow), p),
    ensures
        (p == Presentation::Filtered || p == Presentation::FilteredStream) <==> me || role,
        (p == Presentation::Streamed || p == Presentation::FilteredStream) <==> follow,
{
}

/// A line is wanted exactly where it has a word that is `uid=` and the number of the
/// user, if one is asked for, and `role=` and the name of the role between white space
/// or the ends of the line, if one is asked for.
pub proof fn law_wanted_lines_name_both(
    line: &str,
    uid: Option<u32>,
    role: Option<&str>,
    r: bool,
)
    requires
        call_ensures(is_wanted, (line, uid, role), r),
    ensures
        r <==> {
            &&& uid matches Some(n) ==> exists|i: int|
                0 <= i < words_of(line@).len() && #[trigger] words_of(line@)[i] == "uid="@
                    + decimal(n as nat)
            &&& role matches Some(name) ==> exists|a: Seq<char>, b: Seq<char>|
                {
                    &&& line@ == #[trigger] (a + ("role="@ + name@) + b)
                    &&& a.len() == 0 || is_space(a.last())
                    &&& b.len() == 0 || is_space(b[0])
                }
        },
{
    if let Some(name) = role {
        law_apart(line@, "role="@ + name@);
    }
}

/// The lines that are shown are all lines of the journal that are wanted, in order, and
/// no others.
pub proof fn law_lines_are_picked(
    stdout: &str,
    uid: Option<u32>,
    role: Option<&str>,
    kept: Vec<String>,
)
    requires
        call_ensures(filter_lines, (stdout, uid, role), kept),
    ensures
        kept@.map_values(|s: String| s@) == lines_of(stdout@).filter(
            |line: Seq<char>|
                {
                    &&& uid matches Some(n) ==> words_of(line).contains("uid="@ + decimal(n as nat))
                    &&& role matches Some(name) ==> stands_apart(line, "role="@ + name@)
                },
        ),
{
    let asked = match role {
        Some(r) => Some(r@),
        None => None,
    };
    assert(kept@.map_values(|s: String| s@) =~= texts(kept@));
    assert((|line: Seq<char>| wanted(line, uid, asked)) =~= (|line: Seq<char>|
        {
            &&& uid matches Some(n) ==> words_of(line).contains("uid="@ + decimal(n as nat))
            &&& role matches Some(name) ==> stands_apart(line, "role="@ + name@)
        }));
}

/// A journal is shown as it is, but for one that holds nothing but white space, which
/// is said to hold no events.
pub proof fn law_whole_journal(stdout: &str, s: String)
    requires
        call_ensures(whole_output, (stdout,), s),
    ensures
        (forall|i: int| 0 <= i < stdout@.len() ==> is_space(#[trigger] stdout@[i])) ==> s@
            == "No audit events in the specified time range.\n"@,
        (exists|i: int| 0 <= i < stdout@.len() && !is_space(#[trigger] stdout@[i])) ==> s@
            == stdout@,
{
    let r = law_trimmed(stdout@);
    if r.0 < r.1 {
        assert(!is_space(stdout@[r.0]));
    }
}

} // verus!
