//! Rules that users add for themselves: where their files are looked for, which
//! files are read, and which rules are taken over. Users can only deny, and
//! cannot touch what the global policy has locked.

use crate::common::{
    rules, PathPattern, PathPatternView, Role, RoleTable, RoleView, UserExtensionConfig,
};
use crate::text::{
    contains, decimal, has_part, has_prefix, join, joined, law_prefix, lines, lines_of, parse_u32,
    split, split_on, starts_with, texts, to_decimal, u32_of, with_text,
};
use std::collections::HashMap;
use vstd::prelude::*;

verus! {

/// Where a user's extensions stand below the home directory.
pub const CONFIG_BELOW_HOME: &'static str = ".config/icb/sandbox/policy.toml";

/// User numbers from here on belong to people.
pub const FIRST_USER_ID: u32 = 1000;

/// The path of `file` below the directory `dir`.
pub open spec fn path_below(dir: Seq<char>, file: Seq<char>) -> Seq<char> {
    if dir.len() == 0 || dir.last() == '/' {
        dir + file
    } else {
        dir + "/"@ + file
    }
}

/// A shell that lets nobody log in.
pub open spec fn is_closed_shell(shell: Seq<char>) -> bool {
    has_part(shell, "nologin"@) || has_part(shell, "/false"@)
}

/// The user that a line of the user database speaks of, if it is a person who
/// can log in: number, name, and the file where the extensions are looked for.
pub open spec fn candidate(line: Seq<char>) -> Option<(u32, Seq<char>, Seq<char>)> {
    let fields = split_on(line, ':');
    if fields.len() < 6 {
        None
    } else {
        match u32_of(fields[2]) {
            Some(uid) => if uid < FIRST_USER_ID || (fields.len() > 6 && is_closed_shell(
                fields[6],
            )) {
                None
            } else {
                Some((uid, fields[0], path_below(fields[5], CONFIG_BELOW_HOME@)))
            },
            None => None,
        }
    }
}

/// Reading a line of the user database.
pub open spec fn candidate_of() -> spec_fn(Seq<char>) -> Option<(u32, Seq<char>, Seq<char>)> {
    |line: Seq<char>| candidate(line)
}

/// Users by number, name and file, as text.
pub open spec fn users(v: Seq<(u32, String, String)>) -> Seq<(u32, Seq<char>, Seq<char>)> {
    v.map_values(|u: (u32, String, String)| (u.0, u.1@, u.2@))
}

/// The path of `file` below the directory `dir`.
fn join_path(dir: &str, file: &str) -> (r: String)
    ensures
        r@ == path_below(dir@, file@),
{
    let mut r = dir.to_owned();
    let n: usize = dir.unicode_len();
    if n > 0 && dir.get_char(n - 1) != '/' {
        r.append("/");
    }
    r.append(file);
    r
}

/// The user that a line of the user database speaks of.
fn read_candidate(line: &str) -> (r: Option<(u32, String, String)>)
    ensures
        match r {
            Some(u) => candidate(line@) == Some((u.0, u.1@, u.2@)),
            None => candidate(line@) is None,
        },
{
    let fields = split(line, ':');
    let ghost all = split_on(line@, ':');
    assert(all.len() == fields@.len());
    assert(forall|i: int| 0 <= i < all.len() ==> all[i] == fields@[i]@);
    if fields.len() < 6 {
        return None;
    }
    let uid: u32 = match parse_u32(fields[2].as_str()) {
        Some(uid) => uid,
        None => {
            return None;
        },
    };
    if uid < FIRST_USER_ID {
        return None;
    }
    if fields.len() > 6 && (contains(fields[6].as_str(), "nologin") || contains(
        fields[6].as_str(),
        "/false",
    )) {
        return None;
    }
    Some((uid, fields[0].clone(), join_path(fields[5].as_str(), CONFIG_BELOW_HOME)))
}

/// The people in the user database, with the file where the extensions of each
/// are looked for.
pub fn discover_user_configs(passwd: &str) -> (r: Vec<(u32, String, String)>)
    ensures
        users(r@) == lines_of(passwd@).filter_map(candidate_of()),
{
    let all = lines(passwd);
    let ghost every = lines_of(passwd@);
    let ghost f = candidate_of();
    let mut r: Vec<(u32, String, String)> = Vec::new();
    assert(users(r@) =~= every.take(0).filter_map(f));
    let mut i: usize = 0;
    while i < all.len()
        invariant
            texts(all@) == every,
            f == candidate_of(),
            0 <= i <= all@.len(),
            users(r@) == every.take(i as int).filter_map(f),
        decreases all@.len() - i,
    {
        let ghost before = users(r@);
        proof {
            every.lemma_filter_map_take_succ(f, i as int);
            assert(every[i as int] == all@[i as int]@);
        }
        match read_candidate(all[i].as_str()) {
            Some(u) => {
                let ghost c = (u.0, u.1@, u.2@);
                r.push(u);
                assert(users(r@) =~= before + seq![c]);
            },
            None => {},
        }
        i = i + 1;
        assert(users(r@) =~= every.take(i as int).filter_map(f));
    }
    assert(every.take(i as int) =~= every);
    r
}

/// Whether a user's file may be read, and if not, why: it must be a file of the
/// user, and no symbolic link.
pub open spec fn admission(
    path: Seq<char>,
    is_symlink: bool,
    owner: u32,
    uid: u32,
) -> Result<(), Seq<char>> {
    if is_symlink {
        Err("rejecting symlink at "@ + path)
    } else if owner != uid {
        Err(
            path + " owned by uid "@ + decimal(owner as nat) + " but expected "@ + decimal(
                uid as nat,
            ),
        )
    } else {
        Ok(())
    }
}

/// Whether the file of the user `uid` may be read.
pub fn admit_user_config(path: &str, is_symlink: bool, owner: u32, uid: u32) -> (r: Result<
    (),
    String,
>)
    ensures
        with_text(r) == admission(path@, is_symlink, owner, uid),
{
    if is_symlink {
        let mut m = "rejecting symlink at ".to_owned();
        m.append(path);
        Err(m)
    } else if owner != uid {
        let mut m = path.to_owned();
        m.append(" owned by uid ");
        m.append(to_decimal(owner as u64).as_str());
        m.append(" but expected ");
        m.append(to_decimal(uid as u64).as_str());
        Err(m)
    } else {
        Ok(())
    }
}

/// Why the content of a user's file could not be had.
#[derive(Debug)]
pub enum ConfigFileError {
    Unreadable(String),
    Malformed(String),
}

/// What came of loading a user's extensions.
pub open spec fn loaded_view(r: Result<UserExtensionConfig, String>) -> Result<
    Seq<PathPatternView>,
    Seq<char>,
> {
    match r {
        Ok(c) => Ok(rules(c.user_extensions@)),
        Err(e) => Err(e@),
    }
}

/// The extension allows or locks, which no user may.
pub open spec fn forbidden(ext: PathPatternView) -> bool {
    ext.allow || ext.lockdown
}

/// What is wrong with the extension at `i` in itself.
pub open spec fn rule_faults(i: nat, ext: PathPatternView) -> Seq<Seq<char>> {
    (if ext.allow {
        seq![
            "user_extensions["@ + decimal(i) + "]: allow=true is forbidden (pattern: "@
                + ext.pattern + ")"@,
        ]
    } else {
        Seq::empty()
    }) + (if ext.lockdown {
        seq![
            "user_extensions["@ + decimal(i) + "]: lockdown=true is forbidden (pattern: "@
                + ext.pattern + ")"@,
        ]
    } else {
        Seq::empty()
    })
}

/// What is wrong with a user's extensions in themselves.
pub open spec fn faults(exts: Seq<PathPatternView>) -> Seq<Seq<char>>
    decreases exts.len(),
{
    if exts.len() == 0 {
        Seq::empty()
    } else {
        faults(exts.drop_last()) + rule_faults((exts.len() - 1) as nat, exts.last())
    }
}

/// What comes of loading the file of the user `uid`, with what was read from it:
/// nothing that it holds counts where it is not admitted, and none of its rules
/// where one of them is forbidden.
pub open spec fn load_outcome(
    path: Seq<char>,
    is_symlink: bool,
    owner: u32,
    uid: u32,
    content: Result<UserExtensionConfig, ConfigFileError>,
) -> Result<Seq<PathPatternView>, Seq<char>> {
    match admission(path, is_symlink, owner, uid) {
        Err(e) => Err(e),
        Ok(_) => match content {
            Ok(c) => if faults(rules(c.user_extensions@)).len() > 0 {
                Err(
                    "invalid user extension rules: "@ + joined(
                        faults(rules(c.user_extensions@)),
                        "; "@,
                    ),
                )
            } else {
                Ok(rules(c.user_extensions@))
            },
            Err(ConfigFileError::Unreadable(why)) => Err(why@),
            Err(ConfigFileError::Malformed(why)) => Err(
                "invalid user extension TOML: "@ + why@,
            ),
        },
    }
}

/// What is wrong with a user's extensions in themselves.
fn find_faults(exts: &Vec<PathPattern>) -> (r: Vec<String>)
    ensures
        texts(r@) == faults(rules(exts@)),
{
    let ghost all = rules(exts@);
    let mut r: Vec<String> = Vec::new();
    assert(texts(r@) =~= faults(all.take(0)));
    let mut i: usize = 0;
    while i < exts.len()
        invariant
            all == rules(exts@),
            0 <= i <= exts@.len(),
            texts(r@) == faults(all.take(i as int)),
        decreases exts@.len() - i,
    {
        let ext = &exts[i];
        let ghost before = texts(r@);
        assert(all.take(i + 1).drop_last() =~= all.take(i as int));
        assert(all[i as int] == ext@);
        let mut place = "user_extensions[".to_owned();
        place.append(to_decimal(i as u64).as_str());
        if ext.allow {
            let mut m = place.clone();
            m.append("]: allow=true is forbidden (pattern: ");
            m.append(ext.pattern.as_str());
            m.append(")");
            r.push(m);
        }
        if ext.lockdown {
            let mut m = place;
            m.append("]: lockdown=true is forbidden (pattern: ");
            m.append(ext.pattern.as_str());
            m.append(")");
            r.push(m);
        }
        assert(texts(r@) =~= before + rule_faults(i as nat, ext@));
        i = i + 1;
    }
    assert(all.take(i as int) =~= all);
    r
}

/// Loads the file of the user `uid`, with what was read from it. The file is
/// rejected where it is not admitted, cannot be read, or holds a forbidden rule.
pub fn load_user_config(
    path: &str,
    is_symlink: bool,
    owner: u32,
    uid: u32,
    content: Result<UserExtensionConfig, ConfigFileError>,
) -> (r: Result<UserExtensionConfig, String>)
    ensures
        loaded_view(r) == load_outcome(path@, is_symlink, owner, uid, content),
{
    match admit_user_config(path, is_symlink, owner, uid) {
        Err(e) => Err(e),
        Ok(_) => match content {
            Ok(c) => {
                let wrong = find_faults(&c.user_extensions);
                assert(texts(wrong@).len() == wrong@.len());
                if wrong.len() > 0 {
                    let mut m = "invalid user extension rules: ".to_owned();
                    m.append(join(&wrong, "; ").as_str());
                    Err(m)
                } else {
                    Ok(c)
                }
            },
            Err(ConfigFileError::Unreadable(why)) => Err(why),
            Err(ConfigFileError::Malformed(why)) => {
                let mut m = "invalid user extension TOML: ".to_owned();
                m.append(why.as_str());
                Err(m)
            },
        },
    }
}

/// Two patterns overlap where one begins with the other.
pub open spec fn overlap(a: Seq<char>, b: Seq<char>) -> bool {
    has_prefix(a, b) || has_prefix(b, a) || a == b
}

/// Whether two patterns overlap.
pub fn patterns_overlap(a: &str, b: &str) -> (r: bool)
    ensures
        r == overlap(a@, b@),
{
    starts_with(a, b) || starts_with(b, a) || crate::text::same(a, b)
}

/// How a complaint about the extension at `i` begins.
pub open spec fn complaint(username: Seq<char>, i: nat) -> Seq<char> {
    "["@ + username + "] user_extensions["@ + decimal(i) + "]: "@
}

/// The complaint about an extension that allows.
pub open spec fn allow_complaint(username: Seq<char>, i: nat, pattern: Seq<char>) -> Seq<char> {
    complaint(username, i) + "allow=true is forbidden (pattern: "@ + pattern + ")"@
}

/// The complaint about an extension that locks.
pub open spec fn lockdown_complaint(username: Seq<char>, i: nat, pattern: Seq<char>) -> Seq<char> {
    complaint(username, i) + "lockdown=true is forbidden (pattern: "@ + pattern + ")"@
}

/// The complaint about an extension that overlaps a locked rule.
pub open spec fn conflict_complaint(
    username: Seq<char>,
    i: nat,
    pattern: Seq<char>,
    locked: Seq<char>,
) -> Seq<char> {
    complaint(username, i) + "pattern \""@ + pattern + "\" conflicts with lockdown rule \""@
        + locked + "\""@
}

/// The rule `base` is locked and overlaps `ext`.
pub open spec fn conflicts(ext: PathPatternView, base: PathPatternView) -> bool {
    base.lockdown && overlap(ext.pattern, base.pattern)
}

/// The complaints about an extension that overlaps locked rules, one for each.
pub open spec fn conflict_complaints(
    username: Seq<char>,
    i: nat,
    ext: PathPatternView,
    base: Seq<PathPatternView>,
) -> Seq<Seq<char>>
    decreases base.len(),
{
    if base.len() == 0 {
        Seq::empty()
    } else {
        let before = conflict_complaints(username, i, ext, base.drop_last());
        if conflicts(ext, base.last()) {
            before.push(conflict_complaint(username, i, ext.pattern, base.last().pattern))
        } else {
            before
        }
    }
}

/// All complaints about the extension at `i`.
pub open spec fn complaints(
    username: Seq<char>,
    i: nat,
    ext: PathPatternView,
    base: Seq<PathPatternView>,
) -> Seq<Seq<char>> {
    (if ext.allow {
        seq![allow_complaint(username, i, ext.pattern)]
    } else {
        Seq::empty()
    }) + (if ext.lockdown {
        seq![lockdown_complaint(username, i, ext.pattern)]
    } else {
        Seq::empty()
    }) + conflict_complaints(username, i, ext, base)
}

/// All complaints about a user's extensions, held against the rules of a role.
pub open spec fn violations(
    username: Seq<char>,
    exts: Seq<PathPatternView>,
    base: Seq<PathPatternView>,
) -> Seq<Seq<char>>
    decreases exts.len(),
{
    if exts.len() == 0 {
        Seq::empty()
    } else {
        violations(username, exts.drop_last(), base) + complaints(
            username,
            (exts.len() - 1) as nat,
            exts.last(),
            base,
        )
    }
}

/// How a complaint begins.
fn complaint_text(username: &str, i: usize) -> (m: String)
    ensures
        m@ == complaint(username@, i as nat),
{
    let mut m = "[".to_owned();
    m.append(username);
    m.append("] user_extensions[");
    m.append(to_decimal(i as u64).as_str());
    m.append("]: ");
    m
}

/// All complaints about a user's extensions, held against some rules.
fn find_violations(config: &UserExtensionConfig, file_paths: &Vec<PathPattern>, username: &str) -> (
    errors: Vec<String>)
    ensures
        texts(errors@) == violations(
            username@,
            rules(config.user_extensions@),
            rules(file_paths@),
        ),
{
    let ghost exts = rules(config.user_extensions@);
    let ghost base = rules(file_paths@);
    let mut errors: Vec<String> = Vec::new();
    assert(texts(errors@) =~= violations(username@, exts.take(0), base));
    let mut i: usize = 0;
    while i < config.user_extensions.len()
        invariant
            exts == rules(config.user_extensions@),
            base == rules(file_paths@),
            0 <= i <= exts.len(),
            texts(errors@) == violations(username@, exts.take(i as int), base),
        decreases exts.len() - i,
    {
        let ext = &config.user_extensions[i];
        let ghost before = texts(errors@);
        let ghost mut so_far: Seq<Seq<char>> = Seq::empty();
        assert(exts[i as int] == ext@);
        assert(exts.take(i + 1).drop_last() =~= exts.take(i as int));
        if ext.allow {
            let mut m = complaint_text(username, i);
            m.append("allow=true is forbidden (pattern: ");
            m.append(ext.pattern.as_str());
            m.append(")");
            errors.push(m);
            proof {
                so_far = so_far.push(m@);
            }
        }
        assert(texts(errors@) =~= before + so_far);
        if ext.lockdown {
            let mut m = complaint_text(username, i);
            m.append("lockdown=true is forbidden (pattern: ");
            m.append(ext.pattern.as_str());
            m.append(")");
            errors.push(m);
            proof {
                so_far = so_far.push(m@);
            }
        }
        assert(texts(errors@) =~= before + so_far);
        let mut k: usize = 0;
        while k < file_paths.len()
            invariant
                base == rules(file_paths@),
                0 <= k <= base.len(),
                texts(errors@) == before + so_far + conflict_complaints(
                    username@,
                    i as nat,
                    ext@,
                    base.take(k as int),
                ),
            decreases base.len() - k,
        {
            let rule = &file_paths[k];
            assert(base[k as int] == rule@);
            assert(base.take(k + 1).drop_last() =~= base.take(k as int));
            let ghost held = texts(errors@);
            if rule.lockdown && patterns_overlap(ext.pattern.as_str(), rule.pattern.as_str()) {
                let mut m = complaint_text(username, i);
                m.append("pattern \"");
                m.append(ext.pattern.as_str());
                m.append("\" conflicts with lockdown rule \"");
                m.append(rule.pattern.as_str());
                m.append("\"");
                let ghost t = m@;
                errors.push(m);
                assert(texts(errors@) =~= held.push(t));
            }
            k = k + 1;
            assert(texts(errors@) =~= before + so_far + conflict_complaints(
                username@,
                i as nat,
                ext@,
                base.take(k as int),
            ));
        }
        assert(base.take(k as int) =~= base);
        assert(so_far + conflict_complaints(username@, i as nat, ext@, base) =~= complaints(
            username@,
            i as nat,
            ext@,
            base,
        ));
        assert(texts(errors@) =~= before + complaints(username@, i as nat, ext@, base));
        i = i + 1;
    }
    assert(exts.take(i as int) =~= exts);
    errors
}

/// Holds a user's extensions against a role of the global policy. Returns all
/// complaints, if there are any.
pub fn validate_user_config(config: &UserExtensionConfig, role: &Role, username: &str) -> (r:
    Result<(), Vec<String>>)
    ensures
        match r {
            Ok(_) => violations(
                username@,
                rules(config.user_extensions@),
                role@.file_paths,
            ).len() == 0,
            Err(e) => e@.len() > 0 && texts(e@) == violations(
                username@,
                rules(config.user_extensions@),
                role@.file_paths,
            ),
        },
{
    let errors = find_violations(config, &role.file_paths, username);
    if errors.is_empty() {
        assert(texts(errors@).len() == 0);
        Ok(())
    } else {
        Err(errors)
    }
}

/// What came of reading the file of one user: the extensions, or why they could
/// not be had.
#[derive(Debug)]
pub struct LoadedConfig {
    pub uid: u32,
    pub username: String,
    pub path: String,
    pub config: Result<UserExtensionConfig, String>,
}

pub struct LoadedConfigView {
    pub uid: u32,
    pub username: Seq<char>,
    pub path: Seq<char>,
    pub config: Result<Seq<PathPatternView>, Seq<char>>,
}

impl View for LoadedConfig {
    type V = LoadedConfigView;

    open spec fn view(&self) -> LoadedConfigView {
        LoadedConfigView {
            uid: self.uid,
            username: self.username@,
            path: self.path@,
            config: match self.config {
                Ok(c) => Ok(rules(c.user_extensions@)),
                Err(e) => Err(e@),
            },
        }
    }
}

/// What a sequence of files holds.
pub open spec fn loaded_configs(v: Seq<LoadedConfig>) -> Seq<LoadedConfigView> {
    v.map_values(|c: LoadedConfig| c@)
}

/// The rules of each user.
pub open spec fn extension_rules(m: Map<u32, Vec<PathPattern>>) -> Map<u32, Seq<PathPatternView>> {
    m.map_values(|v: Vec<PathPattern>| rules(v@))
}

/// The complaint about a file that could not be had.
pub open spec fn load_complaint(username: Seq<char>, path: Seq<char>, e: Seq<char>) -> Seq<char> {
    "["@ + username + "] failed to load "@ + path + ": "@ + e
}

/// The complaints about a user's extensions: those of the first role that has
/// something against them. Without roles, those about the extensions themselves.
pub open spec fn refusal(
    username: Seq<char>,
    exts: Seq<PathPatternView>,
    roles: Seq<(Seq<char>, RoleView)>,
) -> Seq<Seq<char>>
    decreases roles.len(),
{
    if roles.len() == 0 {
        violations(username, exts, Seq::empty())
    } else if roles.len() == 1 {
        violations(username, exts, roles[0].1.file_paths)
    } else {
        let before = refusal(username, exts, roles.drop_last());
        if before.len() > 0 {
            before
        } else {
            violations(username, exts, roles.last().1.file_paths)
        }
    }
}

/// The rule as one that denies and is not locked.
pub open spec fn as_denial(p: PathPatternView) -> PathPatternView {
    PathPatternView { pattern: p.pattern, allow: false, lockdown: false }
}

/// The extensions taken over and the complaints made.
pub struct Extensions {
    pub rules: Map<u32, Seq<PathPatternView>>,
    pub errors: Seq<Seq<char>>,
}

/// What one more file changes.
pub open spec fn with_config(
    e: Extensions,
    c: LoadedConfigView,
    roles: Seq<(Seq<char>, RoleView)>,
) -> Extensions {
    match c.config {
        Err(why) => Extensions {
            errors: e.errors.push(load_complaint(c.username, c.path, why)),
            ..e
        },
        Ok(exts) => if exts.len() == 0 {
            e
        } else if refusal(c.username, exts, roles).len() > 0 {
            Extensions { errors: e.errors + refusal(c.username, exts, roles), ..e }
        } else {
            Extensions {
                rules: e.rules.insert(c.uid, exts.map_values(|p: PathPatternView| as_denial(p))),
                ..e
            }
        },
    }
}

/// What comes of the files of all users, taken in order.
pub open spec fn extensions_of(
    configs: Seq<LoadedConfigView>,
    roles: Seq<(Seq<char>, RoleView)>,
) -> Extensions
    decreases configs.len(),
{
    if configs.len() == 0 {
        Extensions { rules: Map::empty(), errors: Seq::empty() }
    } else {
        with_config(extensions_of(configs.drop_last(), roles), configs.last(), roles)
    }
}

/// The complaints about a user's extensions; none where every role accepts them.
fn refusal_of(config: &UserExtensionConfig, roles: &RoleTable, username: &str) -> (r: Vec<String>)
    ensures
        texts(r@) == refusal(username@, rules(config.user_extensions@), roles@),
{
    let ghost exts = rules(config.user_extensions@);
    if roles.len() == 0 {
        let none: Vec<PathPattern> = Vec::new();
        assert(rules(none@) =~= Seq::empty());
        return find_violations(config, &none, username);
    }
    let mut i: usize = 0;
    while i < roles.len()
        invariant
            exts == rules(config.user_extensions@),
            0 <= i <= roles@.len(),
            i > 0 ==> refusal(username@, exts, roles@.take(i as int)).len() == 0,
        decreases roles@.len() - i,
    {
        assert(roles@.take(i + 1).drop_last() =~= roles@.take(i as int));
        match validate_user_config(config, roles.role(i), username) {
            Ok(_) => {
                assert(roles@.take(i + 1)[0] == roles@[0]);
                assert(roles@.take(i + 1).last() == roles@[i as int]);
            },
            Err(errors) => {
                proof {
                    assert(roles@.take(i + 1)[0] == roles@[0]);
                    assert(roles@.take(i + 1).last() == roles@[i as int]);
                    lemma_refusal_stays(username@, exts, roles@, i + 1);
                }
                return errors;
            },
        }
        i = i + 1;
    }
    assert(roles@.take(i as int) =~= roles@);
    let r: Vec<String> = Vec::new();
    assert(texts(r@) =~= refusal(username@, exts, roles@));
    r
}

/// Later roles do not change what an earlier one has against the extensions.
proof fn lemma_refusal_stays(
    username: Seq<char>,
    exts: Seq<PathPatternView>,
    roles: Seq<(Seq<char>, RoleView)>,
    i: int,
)
    requires
        0 < i <= roles.len(),
        refusal(username, exts, roles.take(i)).len() > 0,
    ensures
        refusal(username, exts, roles) == refusal(username, exts, roles.take(i)),
    decreases roles.len(),
{
    if i == roles.len() {
        assert(roles.take(i) =~= roles);
    } else {
        assert(roles.drop_last().take(i) =~= roles.take(i));
        lemma_refusal_stays(username, exts, roles.drop_last(), i);
    }
}

/// The rules as rules that deny and are not locked.
fn denials(exts: &Vec<PathPattern>) -> (r: Vec<PathPattern>)
    ensures
        rules(r@) == rules(exts@).map_values(|p: PathPatternView| as_denial(p)),
{
    let mut r: Vec<PathPattern> = Vec::new();
    let ghost all = rules(exts@).map_values(|p: PathPatternView| as_denial(p));
    let mut i: usize = 0;
    while i < exts.len()
        invariant
            0 <= i <= exts@.len(),
            all == rules(exts@).map_values(|p: PathPatternView| as_denial(p)),
            rules(r@) == all.take(i as int),
        decreases exts@.len() - i,
    {
        let ghost before = rules(r@);
        r.push(PathPattern { pattern: exts[i].pattern.clone(), allow: false, lockdown: false });
        assert(all[i as int] == as_denial(exts@[i as int]@));
        assert(rules(r@) =~= before.push(all[i as int]));
        assert(all.take(i + 1) =~= all.take(i as int).push(all[i as int]));
        i = i + 1;
    }
    assert(all.take(i as int) =~= all);
    r
}

/// Takes over the extensions of all users whose files the roles of the global
/// policy accept. A file with anything against it is left out as a whole.
/// Returns the rules of each user, and all complaints.
pub fn load_all(roles: &RoleTable, configs: &Vec<LoadedConfig>) -> (r: (
    HashMap<u32, Vec<PathPattern>>,
    Vec<String>,
))
    ensures
        extension_rules(r.0@) == extensions_of(loaded_configs(configs@), roles@).rules,
        texts(r.1@) == extensions_of(loaded_configs(configs@), roles@).errors,
{
    let ghost all = loaded_configs(configs@);
    let mut extensions: HashMap<u32, Vec<PathPattern>> = HashMap::new();
    let mut errors: Vec<String> = Vec::new();
    assert(extension_rules(extensions@) =~= extensions_of(all.take(0), roles@).rules);
    assert(texts(errors@) =~= extensions_of(all.take(0), roles@).errors);
    let mut i: usize = 0;
    while i < configs.len()
        invariant
            all == loaded_configs(configs@),
            0 <= i <= configs@.len(),
            extension_rules(extensions@) == extensions_of(all.take(i as int), roles@).rules,
            texts(errors@) == extensions_of(all.take(i as int), roles@).errors,
        decreases configs@.len() - i,
    {
        let c = &configs[i];
        let ghost before = extensions_of(all.take(i as int), roles@);
        assert(all.take(i + 1).drop_last() =~= all.take(i as int));
        assert(all.take(i + 1).last() == c@);
        match &c.config {
            Err(e) => {
                let mut m = "[".to_owned();
                m.append(c.username.as_str());
                m.append("] failed to load ");
                m.append(c.path.as_str());
                m.append(": ");
                m.append(e.as_str());
                let ghost t = m@;
                errors.push(m);
                assert(texts(errors@) =~= before.errors.push(t));
            },
            Ok(config) => {
                if !config.user_extensions.is_empty() {
                    let mut refused = refusal_of(config, roles, c.username.as_str());
                    if refused.is_empty() {
                        assert(texts(refused@).len() == 0);
                        let patterns = denials(&config.user_extensions);
                        let ghost p = rules(patterns@);
                        extensions.insert(c.uid, patterns);
                        assert(extension_rules(extensions@) =~= before.rules.insert(c.uid, p));
                    } else {
                        assert(texts(refused@).len() > 0);
                        let ghost more = texts(refused@);
                        errors.append(&mut refused);
                        assert(texts(errors@) =~= before.errors + more);
                    }
                }
            },
        }
        i = i + 1;
    }
    assert(all.take(i as int) =~= all);
    (extensions, errors)
}

/// What the checks are for: a role has nothing against a user's extensions
/// exactly where each of them denies, is not locked, and overlaps no locked rule
/// of the role.
pub proof fn law_accepted_extensions(
    username: Seq<char>,
    exts: Seq<PathPatternView>,
    base: Seq<PathPatternView>,
)
    ensures
        violations(username, exts, base).len() == 0 <==> forall|i: int|
            0 <= i < exts.len() ==> accepted(#[trigger] exts[i], base),
    decreases exts.len(),
{
    if exts.len() > 0 {
        law_accepted_extensions(username, exts.drop_last(), base);
        lemma_no_conflicts(username, (exts.len() - 1) as nat, exts.last(), base);
        let before = exts.drop_last();
        assert(complaints(username, (exts.len() - 1) as nat, exts.last(), base).len() == 0
            <==> accepted(exts.last(), base));
        if forall|i: int| 0 <= i < exts.len() ==> accepted(#[trigger] exts[i], base) {
            assert forall|i: int| 0 <= i < before.len() implies accepted(
                #[trigger] before[i],
                base,
            ) by {
                assert(before[i] == exts[i]);
            }
        }
        if violations(username, exts, base).len() == 0 {
            assert forall|i: int| 0 <= i < exts.len() implies accepted(#[trigger] exts[i], base) by {
                if i < before.len() {
                    assert(before[i] == exts[i]);
                }
            }
        }
    }
}

/// The extension denies, is not locked, and overlaps no locked rule.
pub open spec fn accepted(ext: PathPatternView, base: Seq<PathPatternView>) -> bool {
    &&& !ext.allow
    &&& !ext.lockdown
    &&& forall|k: int| 0 <= k < base.len() ==> !conflicts(ext, #[trigger] base[k])
}

/// No complaint about conflicts where no locked rule overlaps.
proof fn lemma_no_conflicts(
    username: Seq<char>,
    i: nat,
    ext: PathPatternView,
    base: Seq<PathPatternView>,
)
    ensures
        conflict_complaints(username, i, ext, base).len() == 0 <==> forall|k: int|
            0 <= k < base.len() ==> !conflicts(ext, #[trigger] base[k]),
    decreases base.len(),
{
    if base.len() > 0 {
        let before = base.drop_last();
        lemma_no_conflicts(username, i, ext, before);
        assert(forall|k: int| 0 <= k < before.len() ==> before[k] == base[k]);
        if conflict_complaints(username, i, ext, base).len() == 0 {
            assert forall|k: int| 0 <= k < base.len() implies !conflicts(
                ext,
                #[trigger] base[k],
            ) by {
                if k < before.len() {
                    assert(!conflicts(ext, before[k]));
                }
            }
        }
    }
}

/// None of the extensions allows or locks, and every role of the table accepts
/// each of them.
pub open spec fn accepted_by_all(
    exts: Seq<PathPatternView>,
    roles: Seq<(Seq<char>, RoleView)>,
) -> bool {
    &&& forall|i: int| 0 <= i < exts.len() ==> !forbidden(#[trigger] exts[i])
    &&& forall|r: int, i: int|
        0 <= r < roles.len() && 0 <= i < exts.len() ==> accepted(
            #[trigger] exts[i],
            (#[trigger] roles[r]).1.file_paths,
        )
}

/// No complaint is made exactly where every role accepts every extension.
pub proof fn law_refusal(
    username: Seq<char>,
    exts: Seq<PathPatternView>,
    roles: Seq<(Seq<char>, RoleView)>,
)
    ensures
        refusal(username, exts, roles).len() == 0 <==> accepted_by_all(exts, roles),
    decreases roles.len(),
{
    if roles.len() == 0 {
        law_accepted_extensions(username, exts, Seq::empty());
        assert(forall|i: int|
            0 <= i < exts.len() ==> (accepted(#[trigger] exts[i], Seq::empty()) <==> !forbidden(
                exts[i],
            )));
    } else {
        let last = roles.last().1.file_paths;
        law_accepted_extensions(username, exts, last);
        assert(roles[roles.len() - 1] == roles.last());
        let before = roles.drop_last();
        assert(forall|r: int| 0 <= r < before.len() ==> before[r] == #[trigger] roles[r]);
        if roles.len() > 1 {
            law_refusal(username, exts, before);
        }
        if accepted_by_all(exts, roles) {
            assert forall|r: int, i: int|
                0 <= r < before.len() && 0 <= i < exts.len() implies accepted(
                #[trigger] exts[i],
                (#[trigger] before[r]).1.file_paths,
            ) by {
                assert(accepted(exts[i], roles[r].1.file_paths));
            }
            assert forall|i: int| 0 <= i < exts.len() implies accepted(
                #[trigger] exts[i],
                last,
            ) by {
                assert(accepted(exts[i], roles[roles.len() - 1].1.file_paths));
            }
        }
        if refusal(username, exts, roles).len() == 0 {
            assert forall|r: int, i: int|
                0 <= r < roles.len() && 0 <= i < exts.len() implies accepted(
                #[trigger] exts[i],
                (#[trigger] roles[r]).1.file_paths,
            ) by {
                if r < before.len() {
                    assert(accepted(exts[i], before[r].1.file_paths));
                }
            }
            assert forall|i: int| 0 <= i < exts.len() implies !forbidden(#[trigger] exts[i]) by {
                assert(accepted(exts[i], last));
            }
        }
    }
}

/// A user's file with a rule that allows or locks has something against it,
/// whatever roles there are.
pub proof fn law_forbidden_rules_are_refused(
    username: Seq<char>,
    exts: Seq<PathPatternView>,
    roles: Seq<(Seq<char>, RoleView)>,
)
    ensures
        (exists|i: int| 0 <= i < exts.len() && (exts[i].allow || exts[i].lockdown)) ==> refusal(
            username,
            exts,
            roles,
        ).len() > 0,
{
    law_refusal(username, exts, roles);
    if exists|i: int| 0 <= i < exts.len() && (exts[i].allow || exts[i].lockdown) {
        let i = choose|i: int| 0 <= i < exts.len() && (exts[i].allow || exts[i].lockdown);
        assert(forbidden(exts[i]));
    }
}

/// A file is loaded exactly where it is admitted, could be read, and holds no
/// rule that allows or locks; what is loaded is what it holds.
pub proof fn law_loaded_files_hold_no_forbidden_rule(
    path: Seq<char>,
    is_symlink: bool,
    owner: u32,
    uid: u32,
    content: Result<UserExtensionConfig, ConfigFileError>,
)
    ensures
        load_outcome(path, is_symlink, owner, uid, content) is Ok <==> {
            &&& !is_symlink
            &&& owner == uid
            &&& content matches Ok(c)
            &&& forall|i: int|
                0 <= i < c.user_extensions@.len() ==> !forbidden(
                    #[trigger] rules(c.user_extensions@)[i],
                )
        },
        load_outcome(path, is_symlink, owner, uid, content) matches Ok(exts) ==> exts == rules(
            content->Ok_0.user_extensions@,
        ),
{
    if let Ok(c) = content {
        lemma_faults(rules(c.user_extensions@));
    }
}

proof fn lemma_faults(exts: Seq<PathPatternView>)
    ensures
        faults(exts).len() == 0 <==> forall|i: int|
            0 <= i < exts.len() ==> !forbidden(#[trigger] exts[i]),
    decreases exts.len(),
{
    if exts.len() > 0 {
        let before = exts.drop_last();
        lemma_faults(before);
        assert(forall|i: int| 0 <= i < before.len() ==> before[i] == #[trigger] exts[i]);
        assert(exts[exts.len() - 1] == exts.last());
        if faults(exts).len() == 0 {
            assert forall|i: int| 0 <= i < exts.len() implies !forbidden(#[trigger] exts[i]) by {
                if i < before.len() {
                    assert(!forbidden(before[i]));
                }
            }
        }
        if forall|i: int| 0 <= i < exts.len() ==> !forbidden(#[trigger] exts[i]) {
            assert forall|i: int| 0 <= i < before.len() implies !forbidden(
                #[trigger] before[i],
            ) by {
                assert(!forbidden(exts[i]));
            }
        }
    }
}

/// A user's file with anything against it changes nothing in force: the whole of
/// it is left out, and every complaint is reported.
pub proof fn law_refused_as_a_whole(
    e: Extensions,
    c: LoadedConfigView,
    roles: Seq<(Seq<char>, RoleView)>,
)
    requires
        c.config is Err || !accepted_by_all(c.config->Ok_0, roles),
    ensures
        with_config(e, c, roles).rules == e.rules,
        with_config(e, c, roles).errors.len() > e.errors.len(),
{
    if c.config is Ok {
        law_refusal(c.username, c.config->Ok_0, roles);
    }
}

/// A user's file that every role accepts is taken over as it is written.
pub proof fn law_accepted_as_written(
    e: Extensions,
    c: LoadedConfigView,
    roles: Seq<(Seq<char>, RoleView)>,
)
    requires
        c.config is Ok,
        c.config->Ok_0.len() > 0,
        accepted_by_all(c.config->Ok_0, roles),
    ensures
        with_config(e, c, roles).rules == e.rules.insert(c.uid, c.config->Ok_0),
        with_config(e, c, roles).errors == e.errors,
{
    let exts = c.config->Ok_0;
    law_refusal(c.username, exts, roles);
    let taken = exts.map_values(|p: PathPatternView| as_denial(p));
    assert forall|i: int| 0 <= i < exts.len() implies taken[i] == #[trigger] exts[i] by {
        assert(!forbidden(exts[i]));
    }
    assert(taken =~= exts);
}

/// Whatever users write, a rule taken over from them denies, is not locked, and
/// overlaps no locked rule of any role: the global policy wins.
pub proof fn law_extensions_only_tighten(
    configs: Seq<LoadedConfigView>,
    roles: Seq<(Seq<char>, RoleView)>,
    uid: u32,
    i: int,
)
    requires
        extensions_of(configs, roles).rules.contains_key(uid),
        0 <= i < extensions_of(configs, roles).rules[uid].len(),
    ensures
        ({
            let rule = extensions_of(configs, roles).rules[uid][i];
            &&& !rule.allow
            &&& !rule.lockdown
            &&& forall|r: int, k: int|
                0 <= r < roles.len() && 0 <= k < roles[r].1.file_paths.len() ==> !conflicts(
                    rule,
                    #[trigger] roles[r].1.file_paths[k],
                )
        }),
    decreases configs.len(),
{
    if configs.len() > 0 {
        let before = extensions_of(configs.drop_last(), roles);
        let c = configs.last();
        let now = with_config(before, c, roles);
        if c.config is Ok && c.config->Ok_0.len() > 0 && refusal(
            c.username,
            c.config->Ok_0,
            roles,
        ).len() == 0 && uid == c.uid {
            let exts = c.config->Ok_0;
            let rule = now.rules[uid][i];
            law_refusal(c.username, exts, roles);
            assert(rule == as_denial(exts[i]));
            assert forall|r: int, k: int|
                0 <= r < roles.len() && 0 <= k < roles[r].1.file_paths.len() implies !conflicts(
                rule,
                #[trigger] roles[r].1.file_paths[k],
            ) by {
                assert(accepted(exts[i], roles[r].1.file_paths));
                assert(!conflicts(exts[i], roles[r].1.file_paths[k]));
            }
        } else {
            law_extensions_only_tighten(configs.drop_last(), roles, uid, i);
        }
    }
}

/// A file that is a symbolic link or belongs to somebody else counts for nothing,
/// whatever it holds.
pub proof fn law_foreign_file_is_rejected(
    path: Seq<char>,
    is_symlink: bool,
    owner: u32,
    uid: u32,
    content: Result<UserExtensionConfig, ConfigFileError>,
)
    requires
        is_symlink || owner != uid,
    ensures
        load_outcome(path, is_symlink, owner, uid, content) is Err,
{
}

/// The file adds nothing: it could not be had, is empty, or has something against
/// it.
pub open spec fn adds_nothing(c: LoadedConfigView, roles: Seq<(Seq<char>, RoleView)>) -> bool {
    match c.config {
        Ok(exts) => exts.len() == 0 || !accepted_by_all(exts, roles),
        Err(_) => true,
    }
}

/// A user whose file adds nothing is left with the global policy alone.
pub proof fn law_refused_user_falls_back(
    configs: Seq<LoadedConfigView>,
    roles: Seq<(Seq<char>, RoleView)>,
    uid: u32,
)
    requires
        forall|i: int|
            0 <= i < configs.len() && (#[trigger] configs[i]).uid == uid ==> adds_nothing(
                configs[i],
                roles,
            ),
    ensures
        !extensions_of(configs, roles).rules.contains_key(uid),
    decreases configs.len(),
{
    if configs.len() > 0 {
        let before = configs.drop_last();
        let c = configs.last();
        assert(configs[configs.len() - 1] == c);
        assert forall|i: int|
            0 <= i < before.len() && (#[trigger] before[i]).uid == uid implies adds_nothing(
            before[i],
            roles,
        ) by {
            assert(before[i] == configs[i]);
        }
        law_refused_user_falls_back(before, roles, uid);
        if c.config is Ok {
            law_refusal(c.username, c.config->Ok_0, roles);
        }
    }
}

/// A user whose file every role accepts gets the rules as they are written,
/// whatever the files of other users hold.
pub proof fn law_accepted_user_is_served(
    configs: Seq<LoadedConfigView>,
    roles: Seq<(Seq<char>, RoleView)>,
    i: int,
)
    requires
        0 <= i < configs.len(),
        configs[i].config is Ok,
        configs[i].config->Ok_0.len() > 0,
        accepted_by_all(configs[i].config->Ok_0, roles),
        forall|j: int|
            0 <= j < configs.len() && j != i ==> (#[trigger] configs[j]).uid != configs[i].uid,
    ensures
        extensions_of(configs, roles).rules.contains_key(configs[i].uid),
        extensions_of(configs, roles).rules[configs[i].uid] == configs[i].config->Ok_0,
    decreases configs.len(),
{
    let before = configs.drop_last();
    if i == configs.len() - 1 {
        law_accepted_as_written(extensions_of(before, roles), configs[i], roles);
    } else {
        assert(before[i] == configs[i]);
        assert forall|j: int| 0 <= j < before.len() && j != i implies (#[trigger] before[j]).uid
            != before[i].uid by {
            assert(before[j] == configs[j]);
        }
        law_accepted_user_is_served(before, roles, i);
        assert(configs[configs.len() - 1].uid != configs[i].uid);
    }
}

/// Two patterns overlap exactly where one of them is the other with something, or
/// nothing, behind it.
pub proof fn law_overlap(a: &str, b: &str, r: bool)
    requires
        call_ensures(patterns_overlap, (a, b), r),
    ensures
        r <==> (exists|rest: Seq<char>| a@ == #[trigger] (b@ + rest)) || (exists|rest: Seq<char>|
            b@ == #[trigger] (a@ + rest)),
{
    law_prefix(a@, b@);
    law_prefix(b@, a@);
    if a@ == b@ {
        assert(a@ =~= b@ + Seq::<char>::empty());
    }
}

/// The people of the user database are its lines with at least six fields, a number
/// of 1000 or more in the third, and no shell that keeps them out in the seventh, in
/// order. Each comes with that number, the first field as the name, and the file of
/// the sixth as home directory.
pub proof fn law_people_of_the_database(passwd: &str, r: Vec<(u32, String, String)>)
    requires
        call_ensures(discover_user_configs, (passwd,), r),
    ensures
        ({
            let people = lines_of(passwd@).filter(
                |line: Seq<char>|
                    {
                        let fields = split_on(line, ':');
                        &&& fields.len() >= 6
                        &&& u32_of(fields[2]) is Some
                        &&& u32_of(fields[2])->Some_0 >= 1000
                        &&& fields.len() >= 7 ==> !has_part(fields[6], "nologin"@) && !has_part(
                            fields[6],
                            "/false"@,
                        )
                    },
            );
            &&& r@.len() == people.len()
            &&& forall|i: int|
                0 <= i < r@.len() ==> {
                    let fields = split_on(people[i], ':');
                    let home = fields[5];
                    &&& u32_of(fields[2]) == Some((#[trigger] r@[i]).0)
                    &&& r@[i].1@ == fields[0]
                    &&& r@[i].2@ == if home.len() == 0 || home.last() == '/' {
                        home + ".config/icb/sandbox/policy.toml"@
                    } else {
                        home + "/"@ + ".config/icb/sandbox/policy.toml"@
                    }
                }
        }),
{
    let all = lines_of(passwd@);
    let person = |line: Seq<char>|
        {
            let fields = split_on(line, ':');
            &&& fields.len() >= 6
            &&& u32_of(fields[2]) is Some
            &&& u32_of(fields[2])->Some_0 >= 1000
            &&& fields.len() >= 7 ==> !has_part(fields[6], "nologin"@) && !has_part(
                fields[6],
                "/false"@,
            )
        };
    assert forall|line: Seq<char>| candidate_of()(line) is Some == #[trigger] person(line) by {}
    lemma_candidates(all, person);
    assert(users(r@).len() == r@.len());
    assert forall|i: int| 0 <= i < r@.len() implies {
        let fields = split_on(all.filter(person)[i], ':');
        let home = fields[5];
        &&& u32_of(fields[2]) == Some((#[trigger] r@[i]).0)
        &&& r@[i].1@ == fields[0]
        &&& r@[i].2@ == if home.len() == 0 || home.last() == '/' {
            home + ".config/icb/sandbox/policy.toml"@
        } else {
            home + "/"@ + ".config/icb/sandbox/policy.toml"@
        }
    } by {
        assert(users(r@)[i] == (r@[i].0, r@[i].1@, r@[i].2@));
        assert(candidate(all.filter(person)[i]) == Some(users(r@)[i]));
    }
}

proof fn lemma_candidates(all: Seq<Seq<char>>, person: spec_fn(Seq<char>) -> bool)
    requires
        forall|line: Seq<char>| candidate_of()(line) is Some == #[trigger] person(line),
    ensures
        all.filter_map(candidate_of()).len() == all.filter(person).len(),
        forall|i: int|
            0 <= i < all.filter(person).len() ==> candidate(#[trigger] all.filter(person)[i])
                == Some(all.filter_map(candidate_of())[i]),
    decreases all.len(),
{
    reveal(Seq::filter);
    if all.len() > 0 {
        lemma_candidates(all.drop_last(), person);
        assert(candidate_of()(all.last()) is Some == person(all.last()));
        assert(candidate_of()(all.last()) == candidate(all.last()));
    }
}

/// A user's file may be read exactly where it is no symbolic link and belongs to the
/// user; a link is what is complained about first.
pub proof fn law_admitted_files(
    path: &str,
    is_symlink: bool,
    owner: u32,
    uid: u32,
    r: Result<(), String>,
)
    requires
        call_ensures(admit_user_config, (path, is_symlink, owner, uid), r),
    ensures
        r is Ok <==> !is_symlink && owner == uid,
        is_symlink ==> r->Err_0@ == "rejecting symlink at "@ + path@,
        !is_symlink && owner != uid ==> r->Err_0@ == path@ + " owned by uid "@ + decimal(
            owner as nat,
        ) + " but expected "@ + decimal(uid as nat),
{
}

/// A user's file is loaded exactly where it may be read, could be read, and no rule
/// in it allows or locks. What is loaded is what the file holds, and the reason is
/// given where nothing is.
pub proof fn law_loaded_files(
    path: &str,
    is_symlink: bool,
    owner: u32,
    uid: u32,
    content: Result<UserExtensionConfig, ConfigFileError>,
    r: Result<UserExtensionConfig, String>,
)
    requires
        call_ensures(load_user_config, (path, is_symlink, owner, uid, content), r),
    ensures
        r is Ok <==> {
            &&& !is_symlink
            &&& owner == uid
            &&& content is Ok
            &&& forall|i: int|
                0 <= i < content->Ok_0.user_extensions@.len()
                    ==> !(#[trigger] content->Ok_0.user_extensions@[i]).allow
                    && !content->Ok_0.user_extensions@[i].lockdown
        },
        r matches Ok(c) ==> c.user_extensions@.len() == content->Ok_0.user_extensions@.len()
            && forall|i: int|
            0 <= i < c.user_extensions@.len() ==> (#[trigger] c.user_extensions@[i])@
                == content->Ok_0.user_extensions@[i]@,
        !is_symlink && owner == uid ==> (content matches Err(ConfigFileError::Unreadable(why))
            ==> r->Err_0@ == why@),
        !is_symlink && owner == uid ==> (content matches Err(ConfigFileError::Malformed(why))
            ==> r->Err_0@ == "invalid user extension TOML: "@ + why@),
        !is_symlink && owner == uid && content is Ok && r is Err ==> has_prefix(
            r->Err_0@,
            "invalid user extension rules: "@,
        ),
{
    law_loaded_files_hold_no_forbidden_rule(path@, is_symlink, owner, uid, content);
    if let Ok(c) = content {
        let all = rules(c.user_extensions@);
        assert(all.len() == c.user_extensions@.len());
        assert(forall|i: int| 0 <= i < all.len() ==> #[trigger] all[i] == c.user_extensions@[i]@);
        assert forall|i: int|
            0 <= i < c.user_extensions@.len() && r is Ok implies !(
        #[trigger] c.user_extensions@[i]).allow && !c.user_extensions@[i].lockdown by {
            assert(!forbidden(all[i]));
        }
        if r is Err && !is_symlink && owner == uid {
            let why = joined(faults(all), "; "@);
            law_prefix(r->Err_0@, "invalid user extension rules: "@);
            assert(r->Err_0@ == "invalid user extension rules: "@ + why);
        }
    }
    if let Ok(c) = r {
        let held = rules(c.user_extensions@);
        assert(held.len() == c.user_extensions@.len());
        assert(forall|i: int|
            0 <= i < held.len() ==> held[i] == (#[trigger] c.user_extensions@[i])@);
    }
}

/// Every forbidden rule of a user's file is named where the file is rejected, with
/// its place and its pattern.
pub proof fn law_every_fault_is_named(exts: Seq<PathPatternView>, i: int)
    requires
        0 <= i < exts.len(),
    ensures
        exts[i].allow ==> faults(exts).contains(
            "user_extensions["@ + decimal(i as nat) + "]: allow=true is forbidden (pattern: "@
                + exts[i].pattern + ")"@,
        ),
        exts[i].lockdown ==> faults(exts).contains(
            "user_extensions["@ + decimal(i as nat) + "]: lockdown=true is forbidden (pattern: "@
                + exts[i].pattern + ")"@,
        ),
    decreases exts.len(),
{
    let before = exts.drop_last();
    let all = faults(exts);
    let allowed = "user_extensions["@ + decimal(i as nat)
        + "]: allow=true is forbidden (pattern: "@ + exts[i].pattern + ")"@;
    let locked = "user_extensions["@ + decimal(i as nat)
        + "]: lockdown=true is forbidden (pattern: "@ + exts[i].pattern + ")"@;
    if i < before.len() {
        law_every_fault_is_named(before, i);
        if exts[i].allow {
            let k = choose|k: int| 0 <= k < faults(before).len() && faults(before)[k] == allowed;
            assert(all[k] == allowed);
        }
        if exts[i].lockdown {
            let k = choose|k: int| 0 <= k < faults(before).len() && faults(before)[k] == locked;
            assert(all[k] == locked);
        }
    } else {
        let n = faults(before).len() as int;
        if exts[i].allow {
            assert(all[n] == allowed);
        }
        if exts[i].lockdown {
            assert(all[all.len() - 1] == locked);
        }
    }
}

/// A user's extensions stand up to a role exactly where each of them denies, is not
/// locked, and is neither the beginning nor a continuation of a locked pattern of
/// the role.
pub proof fn law_role_accepts(
    config: &UserExtensionConfig,
    role: &Role,
    username: &str,
    r: Result<(), Vec<String>>,
)
    requires
        call_ensures(validate_user_config, (config, role, username), r),
    ensures
        r is Ok <==> forall|i: int|
            0 <= i < config.user_extensions@.len() ==> {
                let ext = #[trigger] config.user_extensions@[i];
                &&& !ext.allow
                &&& !ext.lockdown
                &&& forall|k: int|
                    0 <= k < role.file_paths@.len() && (#[trigger] role.file_paths@[k]).lockdown
                        ==> {
                        &&& !has_prefix(ext.pattern@, role.file_paths@[k].pattern@)
                        &&& !has_prefix(role.file_paths@[k].pattern@, ext.pattern@)
                    }
            },
{
    let exts = rules(config.user_extensions@);
    let base = rules(role.file_paths@);
    law_accepted_extensions(username@, exts, base);
    assert(forall|i: int|
        0 <= i < exts.len() ==> exts[i] == (#[trigger] config.user_extensions@[i])@);
    assert(forall|k: int| 0 <= k < base.len() ==> base[k] == (#[trigger] role.file_paths@[k])@);
    if r is Ok {
        assert forall|i: int| 0 <= i < config.user_extensions@.len() implies {
            let ext = #[trigger] config.user_extensions@[i];
            &&& !ext.allow
            &&& !ext.lockdown
            &&& forall|k: int|
                0 <= k < role.file_paths@.len() && (#[trigger] role.file_paths@[k]).lockdown ==> {
                    &&& !has_prefix(ext.pattern@, role.file_paths@[k].pattern@)
                    &&& !has_prefix(role.file_paths@[k].pattern@, ext.pattern@)
                }
        } by {
            assert(accepted(exts[i], base));
            assert forall|k: int|
                0 <= k < role.file_paths@.len() && (
                #[trigger] role.file_paths@[k]).lockdown implies {
                &&& !has_prefix(config.user_extensions@[i].pattern@, role.file_paths@[k].pattern@)
                &&& !has_prefix(role.file_paths@[k].pattern@, config.user_extensions@[i].pattern@)
            } by {
                assert(!conflicts(exts[i], base[k]));
            }
        }
    } else {
        let i = choose|i: int| 0 <= i < exts.len() && !accepted(#[trigger] exts[i], base);
        assert(exts[i] == config.user_extensions@[i]@);
        if !exts[i].allow && !exts[i].lockdown {
            let k = choose|k: int| 0 <= k < base.len() && conflicts(exts[i], #[trigger] base[k]);
            assert(base[k] == role.file_paths@[k]@);
            if exts[i].pattern == base[k].pattern {
                assert(exts[i].pattern.take(base[k].pattern.len() as int) =~= exts[i].pattern);
            }
        }
    }
}

/// Everything that a role has against a user's extensions is reported: each one that
/// allows, each one that locks, and each overlap with a locked rule, with the user,
/// the place and the patterns.
pub proof fn law_every_violation_is_reported(
    username: Seq<char>,
    exts: Seq<PathPatternView>,
    base: Seq<PathPatternView>,
    i: int,
    k: int,
)
    requires
        0 <= i < exts.len(),
    ensures
        exts[i].allow ==> violations(username, exts, base).contains(
            "["@ + username + "] user_extensions["@ + decimal(i as nat) + "]: "@
                + "allow=true is forbidden (pattern: "@ + exts[i].pattern + ")"@,
        ),
        exts[i].lockdown ==> violations(username, exts, base).contains(
            "["@ + username + "] user_extensions["@ + decimal(i as nat) + "]: "@
                + "lockdown=true is forbidden (pattern: "@ + exts[i].pattern + ")"@,
        ),
        0 <= k < base.len() && base[k].lockdown && (has_prefix(exts[i].pattern, base[k].pattern)
            || has_prefix(base[k].pattern, exts[i].pattern)) ==> violations(
            username,
            exts,
            base,
        ).contains(
            "["@ + username + "] user_extensions["@ + decimal(i as nat) + "]: "@ + "pattern \""@
                + exts[i].pattern + "\" conflicts with lockdown rule \""@ + base[k].pattern
                + "\""@,
        ),
    decreases exts.len(),
{
    let before = exts.drop_last();
    let all = violations(username, exts, base);
    let head = violations(username, before, base);
    let allowed = "["@ + username + "] user_extensions["@ + decimal(i as nat) + "]: "@
        + "allow=true is forbidden (pattern: "@ + exts[i].pattern + ")"@;
    let locked = "["@ + username + "] user_extensions["@ + decimal(i as nat) + "]: "@
        + "lockdown=true is forbidden (pattern: "@ + exts[i].pattern + ")"@;
    let clash = "["@ + username + "] user_extensions["@ + decimal(i as nat) + "]: "@
        + "pattern \""@ + exts[i].pattern + "\" conflicts with lockdown rule \""@
        + base[k].pattern + "\""@;
    if i < before.len() {
        law_every_violation_is_reported(username, before, base, i, k);
        let last = complaints(username, (exts.len() - 1) as nat, exts.last(), base);
        lemma_contained_before(head, last, allowed);
        lemma_contained_before(head, last, locked);
        lemma_contained_before(head, last, clash);
    } else {
        let c = complaints(username, i as nat, exts[i], base);
        let n = head.len() as int;
        assert(all == head + c);
        if exts[i].allow {
            assert(c[0] == allowed);
            assert(all[n] == allowed);
        }
        if exts[i].lockdown {
            let at: int = if exts[i].allow {
                1
            } else {
                0
            };
            assert(c[at] == locked);
            assert(all[n + at] == locked);
        }
        if 0 <= k < base.len() && conflicts(exts[i], base[k]) {
            lemma_conflict_reported(username, i as nat, exts[i], base, k);
            let some = conflict_complaints(username, i as nat, exts[i], base);
            let m = choose|m: int| 0 <= m < some.len() && some[m] == clash;
            let at = c.len() - some.len() + m;
            assert(c[at] == clash);
            assert(all[n + at] == clash);
        }
    }
}

proof fn lemma_contained_before(a: Seq<Seq<char>>, b: Seq<Seq<char>>, x: Seq<char>)
    ensures
        a.contains(x) ==> (a + b).contains(x),
        b.contains(x) ==> (a + b).contains(x),
{
    if a.contains(x) {
        let i = choose|i: int| 0 <= i < a.len() && a[i] == x;
        assert((a + b)[i] == x);
    }
    if b.contains(x) {
        let i = choose|i: int| 0 <= i < b.len() && b[i] == x;
        assert((a + b)[a.len() + i] == x);
    }
}

proof fn lemma_conflict_reported(
    username: Seq<char>,
    i: nat,
    ext: PathPatternView,
    base: Seq<PathPatternView>,
    k: int,
)
    requires
        0 <= k < base.len(),
        conflicts(ext, base[k]),
    ensures
        conflict_complaints(username, i, ext, base).contains(
            conflict_complaint(username, i, ext.pattern, base[k].pattern),
        ),
    decreases base.len(),
{
    let before = base.drop_last();
    let all = conflict_complaints(username, i, ext, base);
    let text = conflict_complaint(username, i, ext.pattern, base[k].pattern);
    if k < before.len() {
        lemma_conflict_reported(username, i, ext, before, k);
        let some = conflict_complaints(username, i, ext, before);
        let m = choose|m: int| 0 <= m < some.len() && some[m] == text;
        assert(all[m] == text);
    } else {
        assert(all[all.len() - 1] == text);
    }
}

/// There are as many complaints about a user's extensions as there are things
/// against them: nothing is made up.
pub proof fn law_no_complaint_without_reason(
    username: Seq<char>,
    exts: Seq<PathPatternView>,
    base: Seq<PathPatternView>,
)
    ensures
        violations(username, exts, base).len() == exts.filter(
            |e: PathPatternView| e.allow,
        ).len() + exts.filter(|e: PathPatternView| e.lockdown).len() + exts.map_values(
            |e: PathPatternView|
                base.filter(
                    |b: PathPatternView|
                        b.lockdown && (has_prefix(e.pattern, b.pattern) || has_prefix(
                            b.pattern,
                            e.pattern,
                        )),
                ),
        ).flatten_alt().len(),
    decreases exts.len(),
{
    reveal(Seq::filter);
    let clashes = exts.map_values(
        |e: PathPatternView|
            base.filter(
                |b: PathPatternView|
                    b.lockdown && (has_prefix(e.pattern, b.pattern) || has_prefix(
                        b.pattern,
                        e.pattern,
                    )),
            ),
    );
    if exts.len() > 0 {
        let before = exts.drop_last();
        law_no_complaint_without_reason(username, before, base);
        lemma_conflict_count(username, (exts.len() - 1) as nat, exts.last(), base);
        assert(clashes.drop_last() =~= before.map_values(
            |e: PathPatternView|
                base.filter(
                    |b: PathPatternView|
                        b.lockdown && (has_prefix(e.pattern, b.pattern) || has_prefix(
                            b.pattern,
                            e.pattern,
                        )),
                ),
        ));
    }
}

proof fn lemma_conflict_count(
    username: Seq<char>,
    i: nat,
    ext: PathPatternView,
    base: Seq<PathPatternView>,
)
    ensures
        conflict_complaints(username, i, ext, base).len() == base.filter(
            |b: PathPatternView|
                b.lockdown && (has_prefix(ext.pattern, b.pattern) || has_prefix(
                    b.pattern,
                    ext.pattern,
                )),
        ).len(),
    decreases base.len(),
{
    reveal(Seq::filter);
    if base.len() > 0 {
        lemma_conflict_count(username, i, ext, base.drop_last());
        let b = base.last();
        if ext.pattern == b.pattern {
            assert(ext.pattern.take(b.pattern.len() as int) =~= ext.pattern);
        }
    }
}

/// What is read of a user's file is shown as it is.
pub proof fn law_loaded_config_shows_all(c: LoadedConfig)
    ensures
        c@.uid == c.uid,
        c@.username == c.username@,
        c@.path == c.path@,
        c.config matches Err(e) ==> c@.config == Err::<Seq<PathPatternView>, Seq<char>>(e@),
        c.config matches Ok(held) ==> c@.config is Ok && c@.config->Ok_0.len()
            == held.user_extensions@.len() && forall|i: int|
            0 <= i < held.user_extensions@.len() ==> (#[trigger] c@.config->Ok_0[i])
                == held.user_extensions@[i]@,
{
}

/// The rule stands up to every role: it denies, is not locked, and is neither the
/// beginning nor a continuation of a locked pattern of any role.
pub open spec fn stands_up(ext: PathPatternView, roles: Seq<(Seq<char>, RoleView)>) -> bool {
    &&& !ext.allow
    &&& !ext.lockdown
    &&& forall|r: int, k: int|
        0 <= r < roles.len() && 0 <= k < roles[r].1.file_paths.len()
            && (#[trigger] roles[r].1.file_paths[k]).lockdown ==> {
            &&& !has_prefix(ext.pattern, roles[r].1.file_paths[k].pattern)
            &&& !has_prefix(roles[r].1.file_paths[k].pattern, ext.pattern)
        }
}

proof fn lemma_stands_up(exts: Seq<PathPatternView>, roles: Seq<(Seq<char>, RoleView)>)
    ensures
        accepted_by_all(exts, roles) <==> forall|i: int|
            0 <= i < exts.len() ==> stands_up(#[trigger] exts[i], roles),
{
    if accepted_by_all(exts, roles) {
        assert forall|i: int| 0 <= i < exts.len() implies stands_up(#[trigger] exts[i], roles) by {
            assert(!forbidden(exts[i]));
            assert forall|r: int, k: int|
                0 <= r < roles.len() && 0 <= k < roles[r].1.file_paths.len() && (
                #[trigger] roles[r].1.file_paths[k]).lockdown implies {
                &&& !has_prefix(exts[i].pattern, roles[r].1.file_paths[k].pattern)
                &&& !has_prefix(roles[r].1.file_paths[k].pattern, exts[i].pattern)
            } by {
                assert(accepted(exts[i], roles[r].1.file_paths));
                assert(!conflicts(exts[i], roles[r].1.file_paths[k]));
            }
        }
    }
    if forall|i: int| 0 <= i < exts.len() ==> stands_up(#[trigger] exts[i], roles) {
        assert forall|i: int| 0 <= i < exts.len() implies !forbidden(#[trigger] exts[i]) by {
            assert(stands_up(exts[i], roles));
        }
        assert forall|r: int, i: int| 0 <= r < roles.len() && 0 <= i < exts.len() implies accepted(
            #[trigger] exts[i],
            (#[trigger] roles[r]).1.file_paths,
        ) by {
            assert(stands_up(exts[i], roles));
            assert forall|k: int| 0 <= k < roles[r].1.file_paths.len() implies !conflicts(
                exts[i],
                #[trigger] roles[r].1.file_paths[k],
            ) by {
                let b = roles[r].1.file_paths[k];
                if exts[i].pattern == b.pattern {
                    assert(exts[i].pattern.take(b.pattern.len() as int) =~= exts[i].pattern);
                }
            }
        }
    }
}

/// A user has rules after loading exactly where a file of the user holds rules and
/// every one of them stands up to every role. Where a user has one file, the rules
/// are those of the file, all of them and in order.
#[verifier::rlimit(40)]
pub proof fn law_who_has_rules(
    roles: &RoleTable,
    configs: &Vec<LoadedConfig>,
    r: (HashMap<u32, Vec<PathPattern>>, Vec<String>),
    uid: u32,
)
    requires
        call_ensures(load_all, (roles, configs), r),
    ensures
        r.0@.contains_key(uid) <==> exists|i: int|
            {
                &&& 0 <= i < configs@.len()
                &&& (#[trigger] configs@[i]).uid == uid
                &&& configs@[i]@.config is Ok
                &&& configs@[i]@.config->Ok_0.len() > 0
                &&& forall|k: int|
                    0 <= k < configs@[i]@.config->Ok_0.len() ==> stands_up(
                        #[trigger] configs@[i]@.config->Ok_0[k],
                        roles@,
                    )
            },
        forall|i: int|
            {
                &&& 0 <= i < configs@.len()
                &&& (#[trigger] configs@[i]).uid == uid
                &&& r.0@.contains_key(uid)
                &&& forall|j: int|
                    0 <= j < configs@.len() && j != i ==> (#[trigger] configs@[j]).uid != uid
            } ==> r.0@[uid]@.map_values(|p: PathPattern| p@) == configs@[i]@.config->Ok_0,
{
    let all = loaded_configs(configs@);
    let rules_now = extension_rules(r.0@);
    assert(rules_now.contains_key(uid) == r.0@.contains_key(uid));
    assert(forall|i: int| 0 <= i < all.len() ==> all[i] == (#[trigger] configs@[i])@);
    lemma_who_has_rules(all, roles@, uid);
    assert forall|i: int| 0 <= i < all.len() && all[i].config is Ok implies (accepted_by_all(
        #[trigger] all[i].config->Ok_0,
        roles@,
    ) <==> forall|k: int|
        0 <= k < all[i].config->Ok_0.len() ==> stands_up(
            #[trigger] all[i].config->Ok_0[k],
            roles@,
        )) by {
        lemma_stands_up(all[i].config->Ok_0, roles@);
    }
    if r.0@.contains_key(uid) {
        let i = choose|i: int|
            {
                &&& 0 <= i < all.len()
                &&& (#[trigger] all[i]).uid == uid
                &&& !adds_nothing(all[i], roles@)
            };
        assert(configs@[i]@ == all[i]);
        lemma_stands_up(all[i].config->Ok_0, roles@);
        assert(configs@[i].uid == uid);
    }
    if exists|i: int|
        {
            &&& 0 <= i < configs@.len()
            &&& (#[trigger] configs@[i]).uid == uid
            &&& configs@[i]@.config is Ok
            &&& configs@[i]@.config->Ok_0.len() > 0
            &&& forall|k: int|
                0 <= k < configs@[i]@.config->Ok_0.len() ==> stands_up(
                    #[trigger] configs@[i]@.config->Ok_0[k],
                    roles@,
                )
        } {
        let i = choose|i: int|
            {
                &&& 0 <= i < configs@.len()
                &&& (#[trigger] configs@[i]).uid == uid
                &&& configs@[i]@.config is Ok
                &&& configs@[i]@.config->Ok_0.len() > 0
                &&& forall|k: int|
                    0 <= k < configs@[i]@.config->Ok_0.len() ==> stands_up(
                        #[trigger] configs@[i]@.config->Ok_0[k],
                        roles@,
                    )
            };
        lemma_stands_up(all[i].config->Ok_0, roles@);
        assert(!adds_nothing(all[i], roles@));
    }
    assert forall|i: int|
        {
            &&& 0 <= i < configs@.len()
            &&& (#[trigger] configs@[i]).uid == uid
            &&& r.0@.contains_key(uid)
            &&& forall|j: int| 0 <= j < configs@.len() && j != i ==> (#[trigger] configs@[j]).uid
                != uid
        } implies r.0@[uid]@.map_values(|p: PathPattern| p@) == configs@[i]@.config->Ok_0 by {
        let k = choose|k: int|
            {
                &&& 0 <= k < all.len()
                &&& (#[trigger] all[k]).uid == uid
                &&& !adds_nothing(all[k], roles@)
            };
        assert(configs@[k].uid == uid);
        assert(k == i);
        assert forall|j: int| 0 <= j < all.len() && j != i implies (#[trigger] all[j]).uid
            != all[i].uid by {
            assert(configs@[j].uid != uid);
        }
        law_accepted_user_is_served(all, roles@, i);
        assert(rules_now[uid] == rules(r.0@[uid]@));
        assert(r.0@[uid]@.map_values(|p: PathPattern| p@) =~= rules(r.0@[uid]@));
    }
}

proof fn lemma_who_has_rules(
    configs: Seq<LoadedConfigView>,
    roles: Seq<(Seq<char>, RoleView)>,
    uid: u32,
)
    ensures
        extensions_of(configs, roles).rules.contains_key(uid) <==> exists|i: int|
            {
                &&& 0 <= i < configs.len()
                &&& (#[trigger] configs[i]).uid == uid
                &&& !adds_nothing(configs[i], roles)
            },
    decreases configs.len(),
{
    if configs.len() > 0 {
        let before = configs.drop_last();
        let c = configs[configs.len() - 1];
        lemma_who_has_rules(before, roles, uid);
        if c.config is Ok {
            law_refusal(c.username, c.config->Ok_0, roles);
        }
        if extensions_of(before, roles).rules.contains_key(uid) {
            let i = choose|i: int|
                {
                    &&& 0 <= i < before.len()
                    &&& (#[trigger] before[i]).uid == uid
                    &&& !adds_nothing(before[i], roles)
                };
            assert(configs[i].uid == uid);
        }
        if exists|i: int|
            {
                &&& 0 <= i < configs.len()
                &&& (#[trigger] configs[i]).uid == uid
                &&& !adds_nothing(configs[i], roles)
            } {
            let i = choose|i: int|
                {
                    &&& 0 <= i < configs.len()
                    &&& (#[trigger] configs[i]).uid == uid
                    &&& !adds_nothing(configs[i], roles)
                };
            if i < before.len() {
                assert(before[i].uid == uid);
            }
        }
    }
}

/// A file that could not be had is reported with its user, its path and the reason,
/// and a file that some role refuses with all that the first such role has against
/// it.
pub proof fn law_failures_are_reported(
    roles: &RoleTable,
    configs: &Vec<LoadedConfig>,
    r: (HashMap<u32, Vec<PathPattern>>, Vec<String>),
    i: int,
    k: int,
    n: int,
)
    requires
        call_ensures(load_all, (roles, configs), r),
        0 <= i < configs@.len(),
    ensures
        configs@[i]@.config matches Err(why) ==> r.1@.map_values(|s: String| s@).contains(
            "["@ + configs@[i].username@ + "] failed to load "@ + configs@[i].path@ + ": "@ + why,
        ),
        configs@[i]@.config matches Ok(exts) ==> {
            let against = violations(configs@[i].username@, exts, roles@[k].1.file_paths);
            exts.len() > 0 && 0 <= k < roles@.len() && (forall|j: int|
                0 <= j < k ==> violations(
                    configs@[i].username@,
                    exts,
                    (#[trigger] roles@[j]).1.file_paths,
                ).len() == 0) && 0 <= n < against.len() ==> r.1@.map_values(
                |s: String| s@,
            ).contains(against[n])
        },
{
    let all = loaded_configs(configs@);
    assert(all[i] == configs@[i]@);
    assert(r.1@.map_values(|s: String| s@) =~= texts(r.1@));
    match configs@[i]@.config {
        Err(why) => {
            lemma_reported(
                all,
                roles@,
                i,
                load_complaint(configs@[i].username@, configs@[i].path@, why),
            );
        },
        Ok(exts) => {
            if exts.len() > 0 && 0 <= k < roles@.len() && (forall|j: int|
                0 <= j < k ==> violations(
                    configs@[i].username@,
                    exts,
                    (#[trigger] roles@[j]).1.file_paths,
                ).len() == 0) {
                let against = violations(configs@[i].username@, exts, roles@[k].1.file_paths);
                if 0 <= n < against.len() {
                    lemma_first_refusal(configs@[i].username@, exts, roles@, k);
                    assert(refusal(configs@[i].username@, exts, roles@) == against);
                    assert(against.contains(against[n]));
                    lemma_reported(all, roles@, i, against[n]);
                }
            }
        },
    }
}

proof fn lemma_first_refusal(
    username: Seq<char>,
    exts: Seq<PathPatternView>,
    roles: Seq<(Seq<char>, RoleView)>,
    k: int,
)
    requires
        0 <= k < roles.len(),
        violations(username, exts, roles[k].1.file_paths).len() > 0,
        forall|j: int|
            0 <= j < k ==> violations(username, exts, (#[trigger] roles[j]).1.file_paths).len()
                == 0,
    ensures
        refusal(username, exts, roles) == violations(username, exts, roles[k].1.file_paths),
    decreases roles.len(),
{
    if roles.len() > 1 {
        let before = roles.drop_last();
        if k < before.len() {
            assert forall|j: int| 0 <= j < k implies violations(
                username,
                exts,
                (#[trigger] before[j]).1.file_paths,
            ).len() == 0 by {
                assert(before[j] == roles[j]);
            }
            lemma_first_refusal(username, exts, before, k);
        } else {
            lemma_no_refusal(username, exts, before);
        }
    }
}

proof fn lemma_no_refusal(
    username: Seq<char>,
    exts: Seq<PathPatternView>,
    roles: Seq<(Seq<char>, RoleView)>,
)
    requires
        roles.len() > 0,
        forall|j: int|
            0 <= j < roles.len() ==> violations(
                username,
                exts,
                (#[trigger] roles[j]).1.file_paths,
            ).len() == 0,
    ensures
        refusal(username, exts, roles).len() == 0,
    decreases roles.len(),
{
    assert(violations(username, exts, roles[0].1.file_paths).len() == 0);
    assert(violations(username, exts, roles[roles.len() - 1].1.file_paths).len() == 0);
    if roles.len() > 1 {
        let before = roles.drop_last();
        assert forall|j: int| 0 <= j < before.len() implies violations(
            username,
            exts,
            (#[trigger] before[j]).1.file_paths,
        ).len() == 0 by {
            assert(before[j] == roles[j]);
        }
        lemma_no_refusal(username, exts, before);
    }
}

proof fn lemma_reported(
    configs: Seq<LoadedConfigView>,
    roles: Seq<(Seq<char>, RoleView)>,
    i: int,
    text: Seq<char>,
)
    requires
        0 <= i < configs.len(),
        match configs[i].config {
            Err(why) => text == load_complaint(configs[i].username, configs[i].path, why),
            Ok(exts) => exts.len() > 0 && refusal(configs[i].username, exts, roles).contains(text),
        },
    ensures
        extensions_of(configs, roles).errors.contains(text),
    decreases configs.len(),
{
    let before = configs.drop_last();
    let held = extensions_of(before, roles).errors;
    let now = extensions_of(configs, roles).errors;
    let c = configs[configs.len() - 1];
    if i < before.len() {
        lemma_reported(before, roles, i, text);
        match c.config {
            Err(why) => {
                let k = choose|k: int| 0 <= k < held.len() && held[k] == text;
                assert(now[k] == text);
            },
            Ok(exts) => {
                lemma_contained_before(held, refusal(c.username, exts, roles), text);
            },
        }
    } else {
        match c.config {
            Err(why) => {
                assert(now[held.len() as int] == text);
            },
            Ok(exts) => {
                lemma_contained_before(held, refusal(c.username, exts, roles), text);
            },
        }
    }
}

/// Where every file could be had and every rule in it stands up to every role, there
/// is nothing to report.
pub proof fn law_silence_where_all_is_well(
    configs: Seq<LoadedConfigView>,
    roles: Seq<(Seq<char>, RoleView)>,
)
    requires
        forall|i: int|
            0 <= i < configs.len() ==> (#[trigger] configs[i]).config is Ok && forall|k: int|
                0 <= k < configs[i].config->Ok_0.len() ==> stands_up(
                    #[trigger] configs[i].config->Ok_0[k],
                    roles,
                ),
    ensures
        extensions_of(configs, roles).errors.len() == 0,
    decreases configs.len(),
{
    if configs.len() > 0 {
        let before = configs.drop_last();
        let c = configs[configs.len() - 1];
        assert forall|i: int| 0 <= i < before.len() implies (#[trigger] before[i]).config is Ok
            && forall|k: int|
            0 <= k < before[i].config->Ok_0.len() ==> stands_up(
                #[trigger] before[i].config->Ok_0[k],
                roles,
            ) by {
            assert(before[i] == configs[i]);
        }
        law_silence_where_all_is_well(before, roles);
        lemma_stands_up(c.config->Ok_0, roles);
        law_refusal(c.username, c.config->Ok_0, roles);
    }
}

/// There are as many faults in a user's file as it has rules that allow and rules that
/// lock.
pub proof fn law_no_fault_without_reason(exts: Seq<PathPatternView>)
    ensures
        faults(exts).len() == exts.filter(|e: PathPatternView| e.allow).len() + exts.filter(
            |e: PathPatternView| e.lockdown,
        ).len(),
    decreases exts.len(),
{
    reveal(Seq::filter);
    if exts.len() > 0 {
        law_no_fault_without_reason(exts.drop_last());
    }
}

/// Where a user's file is rejected for its rules, all of its faults are named, in order.
pub proof fn law_faults_are_all_named(
    path: &str,
    uid: u32,
    content: UserExtensionConfig,
    r: Result<UserExtensionConfig, String>,
)
    requires
        call_ensures(load_user_config, (path, false, uid, uid, Ok(content)), r),
        r is Err,
    ensures
        r->Err_0@ == "invalid user extension rules: "@ + joined(
            faults(content.user_extensions@.map_values(|p: PathPattern| p@)),
            "; "@,
        ),
{
    assert(content.user_extensions@.map_values(|p: PathPattern| p@) =~= rules(
        content.user_extensions@,
    ));
}

/// Of several files of one user, the last one that holds rules which all stand up to
/// every role decides.
pub proof fn law_last_file_decides(
    roles: &RoleTable,
    configs: &Vec<LoadedConfig>,
    r: (HashMap<u32, Vec<PathPattern>>, Vec<String>),
    i: int,
)
    requires
        call_ensures(load_all, (roles, configs), r),
        0 <= i < configs@.len(),
        configs@[i]@.config is Ok,
        configs@[i]@.config->Ok_0.len() > 0,
        forall|k: int|
            0 <= k < configs@[i]@.config->Ok_0.len() ==> stands_up(
                #[trigger] configs@[i]@.config->Ok_0[k],
                roles@,
            ),
        forall|j: int|
            i < j < configs@.len() && (#[trigger] configs@[j]).uid == configs@[i].uid
                ==> configs@[j]@.config is Err || configs@[j]@.config->Ok_0.len() == 0,
    ensures
        r.0@.contains_key(configs@[i].uid),
        r.0@[configs@[i].uid]@.map_values(|p: PathPattern| p@) == configs@[i]@.config->Ok_0,
{
    let all = loaded_configs(configs@);
    let uid = configs@[i].uid;
    assert(all[i] == configs@[i]@);
    lemma_stands_up(all[i].config->Ok_0, roles@);
    assert forall|j: int| i < j < all.len() && (#[trigger] all[j]).uid == all[i].uid implies
        adds_nothing(all[j], roles@) by {
        assert(all[j] == configs@[j]@);
        assert(configs@[j].uid == uid);
    }
    lemma_last_file(all, roles@, i);
    assert(extension_rules(r.0@).contains_key(uid));
    assert(r.0@[uid]@.map_values(|p: PathPattern| p@) =~= rules(r.0@[uid]@));
}

proof fn lemma_last_file(
    configs: Seq<LoadedConfigView>,
    roles: Seq<(Seq<char>, RoleView)>,
    i: int,
)
    requires
        0 <= i < configs.len(),
        !adds_nothing(configs[i], roles),
        forall|j: int|
            i < j < configs.len() && (#[trigger] configs[j]).uid == configs[i].uid ==> adds_nothing(
                configs[j],
                roles,
            ),
    ensures
        extensions_of(configs, roles).rules.contains_key(configs[i].uid),
        extensions_of(configs, roles).rules[configs[i].uid] == configs[i].config->Ok_0,
    decreases configs.len(),
{
    let before = configs.drop_last();
    let c = configs[configs.len() - 1];
    if i < before.len() {
        assert forall|j: int|
            i < j < before.len() && (#[trigger] before[j]).uid == before[i].uid implies adds_nothing(
            before[j],
            roles,
        ) by {
            assert(before[j] == configs[j]);
        }
        lemma_last_file(before, roles, i);
        if c.config is Ok {
            law_refusal(c.username, c.config->Ok_0, roles);
        }
    } else {
        law_accepted_as_written(extensions_of(before, roles), configs[i], roles);
    }
}

/// What is reported is what there is to report of each file, one file after the other: of
/// a file that could not be had, why; of a file that is refused, what is against it; and
/// of any other, nothing.
pub proof fn law_reports_in_order(
    configs: Seq<LoadedConfigView>,
    roles: Seq<(Seq<char>, RoleView)>,
)
    ensures
        extensions_of(configs, roles).errors == configs.map_values(
            |c: LoadedConfigView|
                match c.config {
                    Err(why) => seq![
                        "["@ + c.username + "] failed to load "@ + c.path + ": "@ + why,
                    ],
                    Ok(exts) => if exts.len() == 0 {
                        Seq::empty()
                    } else {
                        refusal(c.username, exts, roles)
                    },
                },
        ).flatten_alt(),
    decreases configs.len(),
{
    let lists = configs.map_values(
        |c: LoadedConfigView|
            match c.config {
                Err(why) => seq!["["@ + c.username + "] failed to load "@ + c.path + ": "@ + why],
                Ok(exts) => if exts.len() == 0 {
                    Seq::empty()
                } else {
                    refusal(c.username, exts, roles)
                },
            },
    );
    let now = extensions_of(configs, roles).errors;
    if configs.len() > 0 {
        let before = configs.drop_last();
        law_reports_in_order(before, roles);
        assert(lists.drop_last() =~= before.map_values(
            |c: LoadedConfigView|
                match c.config {
                    Err(why) => seq![
                        "["@ + c.username + "] failed to load "@ + c.path + ": "@ + why,
                    ],
                    Ok(exts) => if exts.len() == 0 {
                        Seq::empty()
                    } else {
                        refusal(c.username, exts, roles)
                    },
                },
        ));
        assert(now =~= lists.flatten_alt());
    } else {
        assert(now =~= lists.flatten_alt());
    }
}

/// What is against a user's extensions is what the first role with something against
/// them has; where no role has anything, or there is no role, only what is wrong with
/// the extensions themselves counts.
pub proof fn law_first_role_decides(
    username: Seq<char>,
    exts: Seq<PathPatternView>,
    roles: Seq<(Seq<char>, RoleView)>,
    k: int,
)
    ensures
        roles.len() == 0 ==> refusal(username, exts, roles) == violations(
            username,
            exts,
            Seq::empty(),
        ),
        0 <= k < roles.len() && violations(username, exts, roles[k].1.file_paths).len() > 0 && (
        forall|j: int|
            0 <= j < k ==> violations(username, exts, (#[trigger] roles[j]).1.file_paths).len()
                == 0) ==> refusal(username, exts, roles) == violations(
            username,
            exts,
            roles[k].1.file_paths,
        ),
        roles.len() > 0 && (forall|j: int|
            0 <= j < roles.len() ==> violations(
                username,
                exts,
                (#[trigger] roles[j]).1.file_paths,
            ).len() == 0) ==> refusal(username, exts, roles).len() == 0,
{
    if 0 <= k < roles.len() && violations(username, exts, roles[k].1.file_paths).len() > 0 && (
    forall|j: int|
        0 <= j < k ==> violations(username, exts, (#[trigger] roles[j]).1.file_paths).len() == 0) {
        lemma_first_refusal(username, exts, roles, k);
    }
    if roles.len() > 0 && (forall|j: int|
        0 <= j < roles.len() ==> violations(
            username,
            exts,
            (#[trigger] roles[j]).1.file_paths,
        ).len() == 0) {
        lemma_no_refusal(username, exts, roles);
    }
}

/// A role's complaints are exactly what is reported of a user's extensions.
pub proof fn law_role_reports_all(
    config: &UserExtensionConfig,
    role: &Role,
    username: &str,
    r: Result<(), Vec<String>>,
)
    requires
        call_ensures(validate_user_config, (config, role, username), r),
    ensures
        r matches Err(e) ==> e@.map_values(|s: String| s@) == violations(
            username@,
            config.user_extensions@.map_values(|p: PathPattern| p@),
            role.file_paths@.map_values(|p: PathPattern| p@),
        ),
{
    assert(config.user_extensions@.map_values(|p: PathPattern| p@) =~= rules(
        config.user_extensions@,
    ));
    assert(role.file_paths@.map_values(|p: PathPattern| p@) =~= rules(role.file_paths@));
    if let Err(e) = r {
        assert(e@.map_values(|s: String| s@) =~= texts(e@));
    }
}

} // verus!
