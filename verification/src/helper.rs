//! The privileged helper: its command line, the JSON lines it writes, which
//! cached package files it removes, and the repositories of `pacman.conf`.
use crate::text::{
    chars_of, concat, decimal, ends_with, ends_with_chars, join2, join3, lines, lines_of, lowercase,
    matches_at, occurs_at, starts_with, starts_with_chars, str_eq, string_from_chars, sub_vec, to_lowercase,
    trim, trim_chars, u64_text,
};
use vstd::prelude::*;

verus! {

// ---------------------------------------------------------------------------
// JSON text
// ---------------------------------------------------------------------------

/// The escape of one char inside a JSON string, as the helper writes it:
/// backslash, quote, newline, carriage return and tab are escaped.
pub open spec fn escape_char(c: char) -> Seq<char> {
    if c == '\\' {
        seq!['\\', '\\']
    } else if c == '"' {
        seq!['\\', '"']
    } else if c == '\n' {
        seq!['\\', 'n']
    } else if c == '\r' {
        seq!['\\', 'r']
    } else if c == '\t' {
        seq!['\\', 't']
    } else {
        seq![c]
    }
}

/// The text with every char escaped.
pub open spec fn escaped(s: Seq<char>) -> Seq<char>
    decreases s.len(),
{
    if s.len() == 0 {
        seq![]
    } else {
        escaped(s.drop_last()) + escape_char(s.last())
    }
}

/// Escapes a text for a JSON string.
pub fn escape_json(s: &str) -> (r: String)
    ensures
        r@ == escaped(s@),
{
    let v = chars_of(s);
    let mut out: Vec<char> = Vec::new();
    let mut i: usize = 0;
    while i < v.len()
        invariant
            i <= v.len(),
            v@ == s@,
            out@ == escaped(v@.take(i as int)),
        decreases v.len() - i,
    {
        proof {
            assert(v@.take(i + 1).drop_last() =~= v@.take(i as int));
            assert(v@.take(i + 1).last() == v@[i as int]);
        }
        let c = v[i];
        let ghost o0 = out@;
        if c == '\\' {
            out.push('\\');
            out.push('\\');
        } else if c == '"' {
            out.push('\\');
            out.push('"');
        } else if c == '\n' {
            out.push('\\');
            out.push('n');
        } else if c == '\r' {
            out.push('\\');
            out.push('r');
        } else if c == '\t' {
            out.push('\\');
            out.push('t');
        } else {
            out.push(c);
        }
        assert(out@ =~= o0 + escape_char(c));
        i = i + 1;
    }
    assert(v@.take(v.len() as int) =~= v@);
    string_from_chars(&out)
}

/// Reading a JSON string's text back: a backslash and `n`, `r` or `t` stand
/// for newline, carriage return and tab; a backslash and any other char for that char.
pub open spec fn unescaped(s: Seq<char>) -> Seq<char>
    decreases s.len(),
{
    if s.len() == 0 {
        seq![]
    } else if s[0] == '\\' && s.len() >= 2 {
        let c = s[1];
        let d = if c == 'n' {
            '\n'
        } else if c == 'r' {
            '\r'
        } else if c == 't' {
            '\t'
        } else {
            c
        };
        seq![d] + unescaped(s.skip(2))
    } else {
        seq![s[0]] + unescaped(s.drop_first())
    }
}

proof fn lemma_escaped_front(s: Seq<char>)
    requires
        s.len() > 0,
    ensures
        escaped(s) == escape_char(s[0]) + escaped(s.drop_first()),
    decreases s.len(),
{
    if s.len() == 1 {
        assert(s.drop_last() =~= Seq::<char>::empty());
        assert(s.drop_first() =~= Seq::<char>::empty());
        assert(escape_char(s[0]) + Seq::<char>::empty() =~= escape_char(s[0]));
    } else {
        let t = s.drop_last();
        lemma_escaped_front(t);
        assert(t.drop_first() =~= s.drop_first().drop_last());
        assert(s.drop_first().last() == s.last());
        assert(escaped(s) =~= escape_char(s[0]) + escaped(s.drop_first()));
    }
}

/// Escaping loses nothing: reading the escaped text back gives the text.
pub proof fn lemma_escape_round_trip(s: Seq<char>)
    ensures
        unescaped(escaped(s)) == s,
    decreases s.len(),
{
    if s.len() > 0 {
        lemma_escaped_front(s);
        let c = s[0];
        let e = escape_char(c);
        let rest = escaped(s.drop_first());
        lemma_escape_round_trip(s.drop_first());
        let all = e + rest;
        if e.len() == 2 {
            assert(all[0] == '\\');
            assert(all.skip(2) =~= rest);
            assert(all[1] == e[1]);
        } else {
            assert(all[0] == c);
            assert(all.drop_first() =~= rest);
        }
        assert(seq![c] + s.drop_first() =~= s);
    } else {
        assert(escaped(s) =~= Seq::<char>::empty());
    }
}

/// An escaped text holds no line break, carriage return or tab, and every
/// quote in it follows a backslash.
pub proof fn lemma_escaped_is_one_line(s: Seq<char>)
    ensures
        forall|i: int|
            0 <= i < escaped(s).len() ==> #[trigger] escaped(s)[i] != '\n' && escaped(s)[i] != '\r' && escaped(
                s,
            )[i] != '\t',
    decreases s.len(),
{
    if s.len() > 0 {
        lemma_escaped_is_one_line(s.drop_last());
        let a = escaped(s.drop_last());
        let b = escape_char(s.last());
        assert forall|i: int| 0 <= i < escaped(s).len() implies #[trigger] escaped(s)[i] != '\n' && escaped(s)[i]
            != '\r' && escaped(s)[i] != '\t' by {
            if i < a.len() {
                assert(escaped(s)[i] == a[i]);
            } else {
                assert(escaped(s)[i] == b[i - a.len()]);
            }
        }
    }
}

/// The text of a boolean in JSON.
pub open spec fn bool_text(b: bool) -> Seq<char> {
    if b {
        "true"@
    } else {
        "false"@
    }
}

/// The JSON line of a progress message: its stage, then the fraction (already
/// written as text), the byte counts and the escaped log when there are any,
/// and whether it is a warning.
pub open spec fn progress_line(
    stage: Seq<char>,
    percent: Option<Seq<char>>,
    bytes: Option<(u64, u64)>,
    log: Option<Seq<char>>,
    warning: bool,
) -> Seq<char> {
    "{\"type\":\"progress\",\"stage\":\""@ + stage + "\""@ + match percent {
        Some(p) => ",\"percent\":"@ + p,
        None => seq![],
    } + match bytes {
        Some((cur, tot)) => ",\"bytes\":["@ + decimal(cur as nat) + ","@ + decimal(tot as nat) + "]"@,
        None => seq![],
    } + match log {
        Some(l) => ",\"log\":\""@ + escaped(l) + "\""@,
        None => seq![],
    } + ",\"warning\":"@ + bool_text(warning) + "}"@
}

fn percent_part(percent: Option<&str>) -> (r: String)
    ensures
        r@ == match percent {
            Some(p) => ",\"percent\":"@ + p@,
            None => Seq::<char>::empty(),
        },
{
    match percent {
        Some(p) => join2(",\"percent\":", p),
        None => String::new(),
    }
}

fn bytes_part(bytes: Option<(u64, u64)>) -> (r: String)
    ensures
        r@ == match bytes {
            Some((cur, tot)) => ",\"bytes\":["@ + decimal(cur as nat) + ","@ + decimal(tot as nat) + "]"@,
            None => Seq::<char>::empty(),
        },
{
    match bytes {
        Some((cur, tot)) => {
            let a = join3(",\"bytes\":[", u64_text(cur).as_str(), ",");
            join3(a.as_str(), u64_text(tot).as_str(), "]")
        },
        None => String::new(),
    }
}

fn log_part(log: Option<&str>) -> (r: String)
    ensures
        r@ == match log {
            Some(l) => ",\"log\":\""@ + escaped(l@) + "\""@,
            None => Seq::<char>::empty(),
        },
{
    match log {
        Some(l) => join3(",\"log\":\"", escape_json(l).as_str(), "\""),
        None => String::new(),
    }
}

fn warning_part(warning: bool) -> (r: String)
    ensures
        r@ == ",\"warning\":"@ + bool_text(warning) + "}"@,
{
    if warning {
        join3(",\"warning\":", "true", "}")
    } else {
        join3(",\"warning\":", "false", "}")
    }
}

/// The kinds of progress that libalpm reports during a transaction.
#[derive(Clone, Copy, Debug, PartialEq, Eq, Structural)]
pub enum AlpmProgress {
    AddStart,
    UpgradeStart,
    DowngradeStart,
    ReinstallStart,
    RemoveStart,
    ConflictsStart,
    DiskspaceStart,
    IntegrityStart,
    LoadStart,
    KeyringStart,
}

/// The stage name that the helper reports for a kind of libalpm progress.
pub open spec fn progress_stage(p: AlpmProgress) -> Seq<char> {
    match p {
        AlpmProgress::AddStart | AlpmProgress::UpgradeStart | AlpmProgress::DowngradeStart
        | AlpmProgress::ReinstallStart => "installing"@,
        AlpmProgress::RemoveStart => "removing"@,
        AlpmProgress::ConflictsStart => "resolving"@,
        AlpmProgress::DiskspaceStart | AlpmProgress::IntegrityStart => "verifying"@,
        AlpmProgress::LoadStart => "downloading"@,
        AlpmProgress::KeyringStart => "keyring"@,
    }
}

/// The stage name of a kind of libalpm progress.
pub fn progress_stage_name(p: AlpmProgress) -> (r: &'static str)
    ensures
        r@ == progress_stage(p),
{
    match p {
        AlpmProgress::AddStart | AlpmProgress::UpgradeStart | AlpmProgress::DowngradeStart
        | AlpmProgress::ReinstallStart => "installing",
        AlpmProgress::RemoveStart => "removing",
        AlpmProgress::ConflictsStart => "resolving",
        AlpmProgress::DiskspaceStart | AlpmProgress::IntegrityStart => "verifying",
        AlpmProgress::LoadStart => "downloading",
        AlpmProgress::KeyringStart => "keyring",
    }
}

/// Writes the JSON line of a progress message.
pub fn progress_json(
    stage: &str,
    percent: Option<&str>,
    bytes: Option<(u64, u64)>,
    log: Option<&str>,
    warning: bool,
) -> (r: String)
    ensures
        r@ == progress_line(
            stage@,
            match percent {
                Some(p) => Some(p@),
                None => None,
            },
            bytes,
            match log {
                Some(l) => Some(l@),
                None => None,
            },
            warning,
        ),
{
    let head = join3("{\"type\":\"progress\",\"stage\":\"", stage, "\"");
    let a = percent_part(percent);
    let b = bytes_part(bytes);
    let c = log_part(log);
    let d = warning_part(warning);
    let r = join3(join3(head.as_str(), a.as_str(), b.as_str()).as_str(), c.as_str(), d.as_str());
    proof {
        let pv = match percent {
            Some(p) => Some(p@),
            None => None,
        };
        let lv = match log {
            Some(l) => Some(l@),
            None => None,
        };
        assert(r@ =~= progress_line(stage@, pv, bytes, lv, warning));
    }
    r
}

/// The JSON line of the helper's result: code 0, or code 1 and the escaped message.
pub open spec fn result_line(r: Result<(), Seq<char>>) -> Seq<char> {
    match r {
        Ok(_) => "{\"type\":\"result\",\"code\":0}"@,
        Err(e) => "{\"type\":\"result\",\"code\":1,\"message\":\""@ + escaped(e) + "\"}"@,
    }
}

/// Writes the JSON line of the helper's result.
pub fn result_json(r: &Result<(), String>) -> (s: String)
    ensures
        s@ == result_line(
            match r {
                Ok(_) => Ok(()),
                Err(e) => Err(e@),
            },
        ),
{
    match r {
        Ok(_) => "{\"type\":\"result\",\"code\":0}".to_owned(),
        Err(e) => join3("{\"type\":\"result\",\"code\":1,\"message\":\"", escape_json(e.as_str()).as_str(), "\"}"),
    }
}

// ---------------------------------------------------------------------------
// The command line
// ---------------------------------------------------------------------------

pub open spec fn is_digit(c: char) -> bool {
    '0' <= c <= '9'
}

/// The value of a string of decimal digits.
pub open spec fn digits_value(s: Seq<char>) -> int
    decreases s.len(),
{
    if s.len() == 0 {
        0
    } else {
        digits_value(s.drop_last()) * 10 + (s.last() as int - '0' as int)
    }
}

/// The text after an optional leading `+`.
pub open spec fn unsigned_body(s: Seq<char>) -> Seq<char> {
    if s.len() > 0 && s[0] == '+' {
        s.drop_first()
    } else {
        s
    }
}

pub open spec fn all_digits(s: Seq<char>) -> bool {
    forall|i: int| 0 <= i < s.len() ==> is_digit(#[trigger] s[i])
}

/// `str::parse::<u32>`: an optional `+`, then at least one decimal digit,
/// with a value that fits.
pub open spec fn parsed_u32(s: Seq<char>) -> Option<u32> {
    let body = unsigned_body(s);
    if body.len() == 0 || !all_digits(body) {
        None
    } else if digits_value(body) > u32::MAX {
        None
    } else {
        Some(digits_value(body) as u32)
    }
}

/// Parses a count the way `str::parse::<u32>` does.
pub fn parse_u32(s: &str) -> (r: Option<u32>)
    ensures
        r == parsed_u32(s@),
{
    let v = chars_of(s);
    let start: usize = if v.len() > 0 && v[0] == '+' {
        1
    } else {
        0
    };
    let ghost body = unsigned_body(s@);
    assert(body =~= v@.skip(start as int));
    if start == v.len() {
        return None;
    }
    let cap: u64 = 0x1_0000_0000;
    let mut acc: u64 = 0;
    let mut i: usize = start;
    assert(body.take(0) =~= Seq::<char>::empty());
    while i < v.len()
        invariant
            start <= i <= v.len(),
            v@ == s@,
            body == unsigned_body(s@),
            body == v@.skip(start as int),
            cap == 0x1_0000_0000,
            forall|j: int| start <= j < i ==> is_digit(#[trigger] v@[j]),
            acc as int == if digits_value(body.take(i - start)) < cap {
                digits_value(body.take(i - start))
            } else {
                cap as int
            },
        decreases v.len() - i,
    {
        let c = v[i];
        if !('0' <= c && c <= '9') {
            proof {
                let j = i - start;
                assert(body[j] == c);
                assert(!is_digit(body[j]));
                assert(!all_digits(body));
            }
            return None;
        }
        let d: u64 = (c as u32 - '0' as u32) as u64;
        proof {
            assert(body.take(i + 1 - start).drop_last() =~= body.take(i - start));
            assert(body.take(i + 1 - start).last() == c);
        }
        let next = acc * 10 + d;
        acc = if next < cap {
            next
        } else {
            cap
        };
        i = i + 1;
    }
    proof {
        assert(body.take(v.len() - start) =~= body);
        assert forall|j: int| 0 <= j < body.len() implies is_digit(#[trigger] body[j]) by {
            assert(body[j] == v@[j + start]);
        }
    }
    if acc >= cap {
        None
    } else {
        Some(acc as u32)
    }
}

/// What the helper is asked to do.
#[derive(Debug)]
pub enum HelperCommand {
    Refresh,
    Install(String),
    Remove(String),
    Sysupgrade,
    /// Clean the package cache, keeping this many versions of each package.
    CacheClean(u32),
}

/// Reads the command from the helper's arguments (the program name first).
pub fn helper_command(args: &Vec<String>) -> (r: Result<HelperCommand, String>)
    requires
        args@.len() >= 2,
    ensures
        ({
            let c = args@[1]@;
            if c == "refresh"@ {
                r matches Ok(HelperCommand::Refresh)
            } else if c == "install"@ || c == "remove"@ {
                if args@.len() >= 3 {
                    if c == "install"@ {
                        r matches Ok(HelperCommand::Install(n)) && n == args@[2]
                    } else {
                        r matches Ok(HelperCommand::Remove(n)) && n == args@[2]
                    }
                } else {
                    r matches Err(m) && m@ == "missing package name"@
                }
            } else if c == "sysupgrade"@ {
                r matches Ok(HelperCommand::Sysupgrade)
            } else if c == "cache-clean"@ {
                r matches Ok(HelperCommand::CacheClean(k)) && k == if args@.len() >= 3 {
                    match parsed_u32(args@[2]@) {
                        Some(n) => n,
                        None => 3,
                    }
                } else {
                    3
                }
            } else {
                r matches Err(m) && m@ == "unknown command: "@ + c
            }
        }),
{
    let c = args[1].as_str();
    if str_eq(c, "refresh") {
        Ok(HelperCommand::Refresh)
    } else if str_eq(c, "install") || str_eq(c, "remove") {
        if args.len() >= 3 {
            let n = args[2].clone();
            if str_eq(c, "install") {
                Ok(HelperCommand::Install(n))
            } else {
                Ok(HelperCommand::Remove(n))
            }
        } else {
            Err("missing package name".to_owned())
        }
    } else if str_eq(c, "sysupgrade") {
        Ok(HelperCommand::Sysupgrade)
    } else if str_eq(c, "cache-clean") {
        let keep: u32 = if args.len() >= 3 {
            match parse_u32(args[2].as_str()) {
                Some(n) => n,
                None => 3,
            }
        } else {
            3
        };
        Ok(HelperCommand::CacheClean(keep))
    } else {
        Err(join2("unknown command: ", c))
    }
}

// ---------------------------------------------------------------------------
// Cleaning the package cache
// ---------------------------------------------------------------------------

/// A cached package file, by its name.
pub open spec fn is_package_file(f: Seq<char>) -> bool {
    ends_with(f, ".pkg.tar.zst"@)
}

/// The text before the last hyphen, if there is one.
pub open spec fn before_last_hyphen(f: Seq<char>) -> Option<Seq<char>> {
    let k = crate::executor::last_index_of(f, '-');
    if k < 0 {
        None
    } else {
        Some(f.take(k))
    }
}

/// The package a cached file `name-version-release-arch.pkg.tar.zst` belongs
/// to: its name, without the last three hyphen-separated parts (version,
/// release and architecture), or the whole file name when it has fewer hyphens.
pub open spec fn group_key(f: Seq<char>) -> Seq<char> {
    match before_last_hyphen(f) {
        None => f,
        Some(a) => match before_last_hyphen(a) {
            None => f,
            Some(b) => match before_last_hyphen(b) {
                None => f,
                Some(c) => c,
            },
        },
    }
}

proof fn lemma_cut_last_hyphen(s: Seq<char>, t: Seq<char>)
    requires
        !t.contains('-'),
    ensures
        before_last_hyphen(s + seq!['-'] + t) == Some(s),
{
    let f = s + seq!['-'] + t;
    let p = s.len() as int;
    crate::executor::lemma_last_index_of(f, '-');
    let k = crate::executor::last_index_of(f, '-');
    assert(f[p] == '-');
    if k < p {
        assert(f[p] != '-');
    } else if k > p {
        assert(f[k] == t[k - p - 1]);
        assert(t.contains(f[k]));
    }
    assert(f.take(k) =~= s);
}

/// The package of a cached file `name-version-release-arch.pkg.tar.zst` (the
/// version, release and architecture free of hyphens) is exactly `name`, also
/// when the name holds hyphens: files of different packages never share a
/// group.
pub proof fn lemma_group_key_is_name(n: Seq<char>, v: Seq<char>, r: Seq<char>, a: Seq<char>)
    requires
        !v.contains('-'),
        !r.contains('-'),
        !a.contains('-'),
    ensures
        group_key(n + seq!['-'] + v + seq!['-'] + r + seq!['-'] + a) == n,
{
    let nv = n + seq!['-'] + v;
    let nvr = nv + seq!['-'] + r;
    assert(n + seq!['-'] + v + seq!['-'] + r + seq!['-'] + a =~= nvr + seq!['-'] + a);
    lemma_cut_last_hyphen(nvr, a);
    lemma_cut_last_hyphen(nv, r);
    lemma_cut_last_hyphen(n, v);
}

/// File `j` of the same package comes before file `i` when the files of a
/// package are sorted by name, greatest first (equal names keep their order).
pub open spec fn sorts_before(files: Seq<String>, j: int, i: int) -> bool {
    &&& is_package_file(files[j]@)
    &&& group_key(files[j]@) == group_key(files[i]@)
    &&& (crate::sorting::text_lt(files[i]@, files[j]@) || (files[j]@ == files[i]@ && j < i))
}

/// How many of the first `upto` files sort before file `i`.
pub open spec fn rank_upto(files: Seq<String>, i: int, upto: int) -> nat
    decreases upto,
{
    if upto <= 0 {
        0
    } else {
        rank_upto(files, i, upto - 1) + if sorts_before(files, upto - 1, i) {
            1nat
        } else {
            0nat
        }
    }
}

/// File `i` goes: it is a package file and at least `keep` newer files of the same package remain.
pub open spec fn removed(files: Seq<String>, i: int, keep: nat) -> bool {
    is_package_file(files[i]@) && rank_upto(files, i, files.len() as int) >= keep
}

/// How many of the first `upto` files are cached package files of the package `key`.
pub open spec fn group_count(files: Seq<String>, key: Seq<char>, upto: int) -> nat
    decreases upto,
{
    if upto <= 0 {
        0
    } else {
        group_count(files, key, upto - 1) + if is_package_file(files[upto - 1]@) && group_key(files[upto - 1]@)
            == key {
            1nat
        } else {
            0nat
        }
    }
}

proof fn lemma_rank_below_count(files: Seq<String>, i: int, upto: int)
    requires
        0 <= i < files.len(),
        is_package_file(files[i]@),
        0 <= upto <= files.len(),
    ensures
        rank_upto(files, i, upto) + (if i < upto {
            1int
        } else {
            0int
        }) <= group_count(files, group_key(files[i]@), upto),
    decreases upto,
{
    if upto > 0 {
        lemma_rank_below_count(files, i, upto - 1);
        crate::sorting::lemma_text_lt_asym(files[i]@, files[i]@);
    }
}

/// Cleaning never removes a file of a package that has at most `keep` files
/// in the cache.
pub proof fn lemma_small_package_kept(files: Seq<String>, i: int, keep: nat)
    requires
        0 <= i < files.len(),
        group_count(files, group_key(files[i]@), files.len() as int) <= keep,
    ensures
        !removed(files, i, keep),
{
    if is_package_file(files[i]@) {
        lemma_rank_below_count(files, i, files.len() as int);
    }
}

/// The files to remove, in directory order.
pub open spec fn removals(files: Seq<String>, upto: int, keep: nat) -> Seq<Seq<char>>
    decreases upto,
{
    if upto <= 0 {
        seq![]
    } else {
        let rest = removals(files, upto - 1, keep);
        if removed(files, upto - 1, keep) {
            rest.push(files[upto - 1]@)
        } else {
            rest
        }
    }
}

fn before_last_hyphen_of(f: &Vec<char>) -> (r: Option<Vec<char>>)
    ensures
        match r {
            Some(a) => before_last_hyphen(f@) == Some(a@),
            None => before_last_hyphen(f@) is None,
        },
{
    match crate::executor::last_index_of_exec(f, '-') {
        None => None,
        Some(k) => {
            let a = sub_vec(f, 0, k);
            assert(a@ =~= f@.take(k as int));
            Some(a)
        },
    }
}

fn group_key_of(f: &Vec<char>) -> (r: Vec<char>)
    ensures
        r@ == group_key(f@),
{
    match before_last_hyphen_of(f) {
        None => f.clone(),
        Some(a) => match before_last_hyphen_of(&a) {
            None => f.clone(),
            Some(b) => match before_last_hyphen_of(&b) {
                None => f.clone(),
                Some(c) => c,
            },
        },
    }
}

/// The cached package files to remove so that at most `keep` files of each
/// package remain, the ones with the greatest names.
pub fn cache_files_to_remove(files: &Vec<String>, keep: u32) -> (r: Vec<String>)
    ensures
        crate::aur::views(r@) == removals(files@, files@.len() as int, keep as nat),
{
    let suffix = chars_of(".pkg.tar.zst");
    let mut names: Vec<Vec<char>> = Vec::new();
    let mut keys: Vec<Vec<char>> = Vec::new();
    let mut pkg: Vec<bool> = Vec::new();
    let mut i: usize = 0;
    while i < files.len()
        invariant
            i <= files.len(),
            suffix@ == ".pkg.tar.zst"@,
            names@.len() == i,
            keys@.len() == i,
            pkg@.len() == i,
            forall|j: int| 0 <= j < i ==> #[trigger] names@[j]@ == files@[j]@,
            forall|j: int| 0 <= j < i ==> #[trigger] keys@[j]@ == group_key(files@[j]@),
            forall|j: int| 0 <= j < i ==> #[trigger] pkg@[j] == is_package_file(files@[j]@),
        decreases files.len() - i,
    {
        let f = chars_of(files[i].as_str());
        pkg.push(ends_with_chars(&f, &suffix));
        keys.push(group_key_of(&f));
        names.push(f);
        i = i + 1;
    }
    let mut out: Vec<String> = Vec::new();
    let mut i: usize = 0;
    while i < files.len()
        invariant
            i <= files.len(),
            names@.len() == files@.len(),
            keys@.len() == files@.len(),
            pkg@.len() == files@.len(),
            forall|j: int| 0 <= j < files@.len() ==> #[trigger] names@[j]@ == files@[j]@,
            forall|j: int| 0 <= j < files@.len() ==> #[trigger] keys@[j]@ == group_key(files@[j]@),
            forall|j: int| 0 <= j < files@.len() ==> #[trigger] pkg@[j] == is_package_file(files@[j]@),
            crate::aur::views(out@) == removals(files@, i as int, keep as nat),
        decreases files.len() - i,
    {
        if pkg[i] {
            let mut rank: u64 = 0;
            let mut j: usize = 0;
            while j < files.len()
                invariant
                    j <= files.len(),
                    i < files.len(),
                    names@.len() == files@.len(),
                    keys@.len() == files@.len(),
                    pkg@.len() == files@.len(),
                    forall|m: int| 0 <= m < files@.len() ==> #[trigger] names@[m]@ == files@[m]@,
                    forall|m: int| 0 <= m < files@.len() ==> #[trigger] keys@[m]@ == group_key(files@[m]@),
                    forall|m: int| 0 <= m < files@.len() ==> #[trigger] pkg@[m] == is_package_file(files@[m]@),
                    rank == rank_upto(files@, i as int, j as int),
                    rank <= j,
                decreases files.len() - j,
            {
                let before = pkg[j] && crate::text::eq_chars(&keys[j], &keys[i]) && (
                crate::sorting::text_lt_chars(&names[i], &names[j]) || (crate::text::eq_chars(&names[j], &names[i])
                    && j < i));
                if before {
                    rank = rank + 1;
                }
                j = j + 1;
            }
            if rank >= keep as u64 {
                out.push(files[i].clone());
            }
        }
        proof {
            assert(crate::aur::views(out@) =~= removals(files@, i + 1, keep as nat));
        }
        i = i + 1;
    }
    out
}

/// The line that reports how many cached files were removed.
pub fn removed_files_log(n: u32) -> (r: String)
    ensures
        r@ == "removed "@ + decimal(n as nat) + " cached files"@,
{
    join3("removed ", u64_text(n as u64).as_str(), " cached files")
}

// ---------------------------------------------------------------------------
// pacman.conf
// ---------------------------------------------------------------------------

/// `str::replace` for a non-empty pattern: every occurrence, left to right.
pub open spec fn replace_all(s: Seq<char>, p: Seq<char>, w: Seq<char>) -> Seq<char>
    decreases s.len(),
{
    if s.len() == 0 || p.len() == 0 {
        s
    } else if occurs_at(s, p, 0) {
        w + replace_all(s.skip(p.len() as int), p, w)
    } else {
        seq![s[0]] + replace_all(s.drop_first(), p, w)
    }
}

/// Replaces every occurrence of a non-empty pattern.
pub fn replace_text(s: &Vec<char>, p: &Vec<char>, w: &Vec<char>) -> (r: Vec<char>)
    requires
        p@.len() > 0,
    ensures
        r@ == replace_all(s@, p@, w@),
{
    let mut out: Vec<char> = Vec::new();
    let mut i: usize = 0;
    assert(s@.skip(0) =~= s@);
    assert(out@ + replace_all(s@.skip(0), p@, w@) =~= replace_all(s@, p@, w@));
    while i < s.len()
        invariant
            i <= s.len(),
            p@.len() > 0,
            replace_all(s@, p@, w@) == out@ + replace_all(s@.skip(i as int), p@, w@),
        decreases s.len() - i,
    {
        let ghost t = s@.skip(i as int);
        if matches_at(s, i, p) {
            proof {
                assert(t.subrange(0, p@.len() as int) =~= s@.subrange(i as int, i + p@.len()));
                assert(t.skip(p@.len() as int) =~= s@.skip(i + p@.len()));
                assert(out@ + (w@ + replace_all(t.skip(p@.len() as int), p@, w@)) =~= concat_spec(out@, w@)
                    + replace_all(s@.skip(i + p@.len()), p@, w@));
            }
            out = concat(&out, w);
            i = i + p.len();
        } else {
            proof {
                if occurs_at(t, p@, 0) {
                    assert(t.subrange(0, p@.len() as int) =~= s@.subrange(i as int, i + p@.len()));
                }
                assert(t.drop_first() =~= s@.skip(i + 1));
                assert(out@ + (seq![t[0]] + replace_all(t.drop_first(), p@, w@)) =~= out@.push(s@[i as int])
                    + replace_all(s@.skip(i + 1), p@, w@));
            }
            out.push(s[i]);
            i = i + 1;
        }
    }
    proof {
        assert(s@.skip(i as int) =~= Seq::<char>::empty());
        assert(out@ + Seq::<char>::empty() =~= out@);
    }
    out
}

pub open spec fn concat_spec(a: Seq<char>, b: Seq<char>) -> Seq<char> {
    a + b
}

/// A server URL with `$repo` and `$arch` filled in.
pub open spec fn resolved(server: Seq<char>, repo: Seq<char>, arch: Seq<char>) -> Seq<char> {
    replace_all(replace_all(server, "$repo"@, repo), "$arch"@, arch)
}

/// The content of the first readable include file at `path`.
pub open spec fn include_content(includes: Seq<(String, String)>, path: Seq<char>) -> Option<Seq<char>>
    decreases includes.len(),
{
    if includes.len() == 0 {
        None
    } else if includes[0].0@ == path {
        Some(includes[0].1@)
    } else {
        include_content(includes.drop_first(), path)
    }
}

/// The servers that the lines of an included file add.
pub open spec fn included_servers(ls: Seq<Seq<char>>, repo: Seq<char>, arch: Seq<char>) -> Seq<Seq<char>>
    decreases ls.len(),
{
    if ls.len() == 0 {
        seq![]
    } else {
        let rest = included_servers(ls.drop_last(), repo, arch);
        let t = trim(ls.last());
        if starts_with(t, "Server = "@) {
            rest.push(resolved(t.skip(9), repo, arch))
        } else {
            rest
        }
    }
}

/// The reader's state between lines of `pacman.conf`.
pub struct ConfScan {
    pub current: Option<Seq<char>>,
    pub servers: Seq<Seq<char>>,
    pub repos: Map<Seq<char>, Seq<Seq<char>>>,
}

/// The repositories with the section that is open stored, unless it is `[options]`.
pub open spec fn closed(st: ConfScan) -> Map<Seq<char>, Seq<Seq<char>>> {
    match st.current {
        Some(n) => if n != "options"@ {
            st.repos.insert(n, st.servers)
        } else {
            st.repos
        },
        None => st.repos,
    }
}

pub open spec fn conf_step(st: ConfScan, line: Seq<char>, arch: Seq<char>, includes: Seq<(String, String)>) -> ConfScan {
    let t = trim(line);
    if t.len() == 0 || t[0] == '#' {
        st
    } else if t[0] == '[' && t.last() == ']' {
        ConfScan { current: Some(lowercase(t.subrange(1, t.len() - 1))), servers: seq![], repos: closed(st) }
    } else {
        match st.current {
            Some(n) => if starts_with(t, "Server = "@) {
                ConfScan { servers: st.servers.push(resolved(t.skip(9), n, arch)), ..st }
            } else if starts_with(t, "Include = "@) {
                match include_content(includes, t.skip(10)) {
                    Some(c) => ConfScan { servers: st.servers + included_servers(lines(c), n, arch), ..st },
                    None => st,
                }
            } else {
                st
            },
            None => st,
        }
    }
}

pub open spec fn conf_scan(ls: Seq<Seq<char>>, arch: Seq<char>, includes: Seq<(String, String)>) -> ConfScan
    decreases ls.len(),
{
    if ls.len() == 0 {
        ConfScan { current: None, servers: seq![], repos: Map::empty() }
    } else {
        conf_step(conf_scan(ls.drop_last(), arch, includes), ls.last(), arch, includes)
    }
}

/// The repositories of a `pacman.conf` text: each section but `[options]`,
/// by its lowercased name, with its servers; a later section of the same name
/// replaces an earlier one.
pub open spec fn conf_repos(content: Seq<char>, arch: Seq<char>, includes: Seq<(String, String)>) -> Map<
    Seq<char>,
    Seq<Seq<char>>,
> {
    closed(conf_scan(lines(content), arch, includes))
}

/// The map that a list of repositories with distinct names stands for.
pub open spec fn repo_map(e: Seq<(String, Vec<String>)>) -> Map<Seq<char>, Seq<Seq<char>>>
    decreases e.len(),
{
    if e.len() == 0 {
        Map::empty()
    } else {
        repo_map(e.drop_last()).insert(e.last().0@, crate::aur::views(e.last().1@))
    }
}

pub open spec fn distinct_repos(e: Seq<(String, Vec<String>)>) -> bool {
    forall|a: int, b: int| 0 <= a < b < e.len() ==> #[trigger] e[a].0@ != #[trigger] e[b].0@
}

proof fn lemma_repo_map_update(e: Seq<(String, Vec<String>)>, idx: int, entry: (String, Vec<String>))
    requires
        distinct_repos(e),
        0 <= idx < e.len(),
        e[idx].0@ == entry.0@,
    ensures
        repo_map(e.update(idx, entry)) == repo_map(e).insert(entry.0@, crate::aur::views(entry.1@)),
        distinct_repos(e.update(idx, entry)),
    decreases e.len(),
{
    let u = e.update(idx, entry);
    if idx == e.len() - 1 {
        assert(u.drop_last() =~= e.drop_last());
        assert(repo_map(u) =~= repo_map(e).insert(entry.0@, crate::aur::views(entry.1@)));
    } else {
        lemma_repo_map_update(e.drop_last(), idx, entry);
        assert(u.drop_last() =~= e.drop_last().update(idx, entry));
        assert(e.last().0@ != entry.0@);
        assert(repo_map(u) =~= repo_map(e).insert(entry.0@, crate::aur::views(entry.1@)));
    }
}

fn put_repo(entries: &mut Vec<(String, Vec<String>)>, name: String, servers: Vec<String>)
    requires
        distinct_repos(old(entries)@),
    ensures
        distinct_repos(final(entries)@),
        repo_map(final(entries)@) == repo_map(old(entries)@).insert(name@, crate::aur::views(servers@)),
{
    let mut k: usize = 0;
    while k < entries.len() && !str_eq(entries[k].0.as_str(), name.as_str())
        invariant
            k <= entries.len(),
            forall|j: int| 0 <= j < k ==> #[trigger] entries@[j].0@ != name@,
        decreases entries.len() - k,
    {
        k = k + 1;
    }
    let entry = (name, servers);
    if k < entries.len() {
        proof {
            lemma_repo_map_update(entries@, k as int, entry);
        }
        entries.set(k, entry);
    } else {
        proof {
            assert forall|a: int, b: int| 0 <= a < b < entries@.len() + 1 implies #[trigger] entries@.push(entry)[a].0@
                != #[trigger] entries@.push(entry)[b].0@ by {
                if b == entries@.len() {
                    assert(entries@[a].0@ != entry.0@);
                }
            }
            assert(entries@.push(entry).drop_last() =~= entries@);
        }
        entries.push(entry);
    }
}

fn include_of(includes: &Vec<(String, String)>, path: &Vec<char>) -> (r: Option<String>)
    ensures
        match include_content(includes@, path@) {
            Some(c) => r matches Some(x) && x@ == c,
            None => r is None,
        },
{
    let mut i: usize = 0;
    assert(includes@.skip(0) =~= includes@);
    while i < includes.len()
        invariant
            i <= includes.len(),
            include_content(includes@, path@) == include_content(includes@.skip(i as int), path@),
        decreases includes.len() - i,
    {
        assert(includes@.skip(i as int).drop_first() =~= includes@.skip(i + 1));
        if crate::text::eq_chars(&chars_of(includes[i].0.as_str()), path) {
            return Some(includes[i].1.clone());
        }
        i = i + 1;
    }
    None
}

fn resolve_server(server: &Vec<char>, repo: &Vec<char>, arch: &Vec<char>) -> (r: String)
    ensures
        r@ == resolved(server@, repo@, arch@),
{
    proof {
        reveal_strlit("$repo");
        reveal_strlit("$arch");
    }
    let a = replace_text(server, &chars_of("$repo"), repo);
    string_from_chars(&replace_text(&a, &chars_of("$arch"), arch))
}

/// The paths of the `Include = ` lines, in order.
pub open spec fn include_paths(ls: Seq<Seq<char>>) -> Seq<Seq<char>>
    decreases ls.len(),
{
    if ls.len() == 0 {
        seq![]
    } else {
        let rest = include_paths(ls.drop_last());
        let t = trim(ls.last());
        if starts_with(t, "Include = "@) {
            rest.push(t.skip(10))
        } else {
            rest
        }
    }
}

/// The paths that the `Include = ` lines of a `pacman.conf` text name, which
/// the reader will want to read.
pub fn conf_include_paths(content: &str) -> (r: Vec<String>)
    ensures
        crate::aur::views(r@) == include_paths(lines(content@)),
{
    let ls = lines_of(&chars_of(content));
    let ghost gl = lines(content@);
    let prefix = chars_of("Include = ");
    proof {
        reveal_strlit("Include = ");
    }
    let mut out: Vec<String> = Vec::new();
    let mut i: usize = 0;
    while i < ls.len()
        invariant
            i <= ls.len(),
            prefix@ == "Include = "@,
            ls@.len() == gl.len(),
            forall|j: int| 0 <= j < ls@.len() ==> #[trigger] ls@[j]@ == gl[j],
            crate::aur::views(out@) == include_paths(gl.take(i as int)),
        decreases ls.len() - i,
    {
        proof {
            assert(gl.take(i + 1).drop_last() =~= gl.take(i as int));
            assert(gl.take(i + 1).last() == gl[i as int]);
        }
        let t = trim_chars(&ls[i]);
        proof {
            reveal_strlit("Include = ");
        }
        if starts_with_chars(&t, &prefix) {
            let p = string_from_chars(&sub_vec(&t, 10, t.len()));
            let ghost o0 = out@;
            out.push(p);
            proof {
                assert(p@ =~= t@.skip(10));
                assert(crate::aur::views(out@) =~= crate::aur::views(o0).push(t@.skip(10)));
            }
        }
        i = i + 1;
    }
    assert(gl.take(gl.len() as int) =~= gl);
    out
}

/// Reads the repositories of a `pacman.conf` text for the machine's
/// architecture `arch`, with the contents of the included files that could be
/// read (`(path, content)`).
pub fn parse_pacman_conf(content: &str, arch: &str, includes: &Vec<(String, String)>) -> (r: Vec<(String, Vec<String>)>)
    ensures
        distinct_repos(r@),
        repo_map(r@) == conf_repos(content@, arch@, includes@),
{
    let ls = lines_of(&chars_of(content));
    let ghost gl = lines(content@);
    let archc = chars_of(arch);
    let server_prefix = chars_of("Server = ");
    let include_prefix = chars_of("Include = ");
    proof {
        reveal_strlit("Server = ");
        reveal_strlit("Include = ");
        reveal_strlit("options");
    }
    let mut entries: Vec<(String, Vec<String>)> = Vec::new();
    let mut current: Option<String> = None;
    let mut servers: Vec<String> = Vec::new();
    let mut i: usize = 0;
    assert(repo_map(entries@) =~= Map::<Seq<char>, Seq<Seq<char>>>::empty());
    assert(crate::aur::views(servers@) =~= Seq::<Seq<char>>::empty());
    while i < ls.len()
        invariant
            i <= ls.len(),
            ls@.len() == gl.len(),
            gl == lines(content@),
            forall|j: int| 0 <= j < ls@.len() ==> #[trigger] ls@[j]@ == gl[j],
            archc@ == arch@,
            server_prefix@ == "Server = "@,
            include_prefix@ == "Include = "@,
            distinct_repos(entries@),
            conf_scan(gl.take(i as int), arch@, includes@) == (ConfScan {
                current: match current {
                    Some(n) => Some(n@),
                    None => None,
                },
                servers: crate::aur::views(servers@),
                repos: repo_map(entries@),
            }),
        decreases ls.len() - i,
    {
        proof {
            assert(gl.take(i + 1).drop_last() =~= gl.take(i as int));
            assert(gl.take(i + 1).last() == gl[i as int]);
        }
        let t = trim_chars(&ls[i]);
        proof {
            reveal_strlit("Server = ");
            reveal_strlit("Include = ");
            reveal_strlit("options");
        }
        if t.len() == 0 || t[0] == '#' {
        } else if t[0] == '[' && t[t.len() - 1] == ']' {
            match current {
                Some(n) => {
                    if !str_eq(n.as_str(), "options") {
                        put_repo(&mut entries, n, servers);
                    }
                },
                None => {},
            }
            servers = Vec::new();
            let inner = string_from_chars(&sub_vec(&t, 1, t.len() - 1));
            current = Some(to_lowercase(inner.as_str()));
            proof {
                assert(crate::aur::views(servers@) =~= Seq::<Seq<char>>::empty());
            }
        } else {
            match &current {
                Some(n) => {
                    let nc = chars_of(n.as_str());
                    if starts_with_chars(&t, &server_prefix) {
                        let ghost s0 = servers@;
                        servers.push(resolve_server(&sub_vec(&t, 9, t.len()), &nc, &archc));
                        proof {
                            assert(sub_vec_view(t@, 9) =~= t@.skip(9));
                            assert(crate::aur::views(servers@) =~= crate::aur::views(s0).push(
                                resolved(t@.skip(9), n@, arch@),
                            ));
                        }
                    } else if starts_with_chars(&t, &include_prefix) {
                        let path = sub_vec(&t, 10, t.len());
                        assert(path@ =~= t@.skip(10));
                        match include_of(includes, &path) {
                            Some(c) => {
                                let ils = lines_of(&chars_of(c.as_str()));
                                let ghost gil = lines(c@);
                                let ghost s0 = crate::aur::views(servers@);
                                let mut k: usize = 0;
                                while k < ils.len()
                                    invariant
                                        k <= ils.len(),
                                        ils@.len() == gil.len(),
                                        forall|j: int| 0 <= j < ils@.len() ==> #[trigger] ils@[j]@ == gil[j],
                                        server_prefix@ == "Server = "@,
                                        nc@ == n@,
                                        archc@ == arch@,
                                        crate::aur::views(servers@) == s0 + included_servers(
                                            gil.take(k as int),
                                            n@,
                                            arch@,
                                        ),
                                    decreases ils.len() - k,
                                {
                                    proof {
                                        assert(gil.take(k + 1).drop_last() =~= gil.take(k as int));
                                        assert(gil.take(k + 1).last() == gil[k as int]);
                                    }
                                    let it = trim_chars(&ils[k]);
                                    proof {
                                        reveal_strlit("Server = ");
                                    }
                                    if starts_with_chars(&it, &server_prefix) {
                                        let ghost s1 = servers@;
                                        servers.push(resolve_server(&sub_vec(&it, 9, it.len()), &nc, &archc));
                                        proof {
                                            assert(sub_vec_view(it@, 9) =~= it@.skip(9));
                                            assert(crate::aur::views(servers@) =~= crate::aur::views(s1).push(
                                                resolved(it@.skip(9), n@, arch@),
                                            ));
                                        }
                                    }
                                    k = k + 1;
                                }
                                proof {
                                    assert(gil.take(gil.len() as int) =~= gil);
                                }
                            },
                            None => {},
                        }
                    }
                },
                None => {},
            }
        }
        i = i + 1;
    }
    proof {
        assert(gl.take(gl.len() as int) =~= gl);
    }
    match current {
        Some(n) => {
            if !str_eq(n.as_str(), "options") {
                put_repo(&mut entries, n, servers);
            }
        },
        None => {},
    }
    entries
}

pub open spec fn sub_vec_view(s: Seq<char>, from: int) -> Seq<char> {
    s.subrange(from, s.len() as int)
}

/// The error when the package to install is in no sync database.
pub fn not_in_repos(name: &str) -> (r: String)
    ensures
        r@ == "package not found in repos: "@ + name@,
{
    join2("package not found in repos: ", name)
}

/// The error when the package to remove is not installed.
pub fn not_installed(name: &str) -> (r: String)
    ensures
        r@ == "package not installed: "@ + name@,
{
    join2("package not installed: ", name)
}

/// The error of a failed step of a transaction: the step's name and the cause.
pub fn step_error(step: &str, cause: &str) -> (r: String)
    ensures
        r@ == step@ + ": "@ + cause@,
{
    join3(step, ": ", cause)
}

// ---------------------------------------------------------------------------
// Laws
// ---------------------------------------------------------------------------

proof fn lemma_digit_value(d: nat)
    requires
        d < 10,
    ensures
        is_digit(crate::text::digit(d)),
        crate::text::digit(d) as int - '0' as int == d,
{
}

proof fn lemma_decimal_digits(n: nat)
    ensures
        decimal(n).len() > 0,
        all_digits(decimal(n)),
        digits_value(decimal(n)) == n,
    decreases n,
{
    if n < 10 {
        lemma_digit_value(n);
        let t = decimal(n);
        assert(t == seq![crate::text::digit(n)]);
        assert(t.drop_last() =~= Seq::<char>::empty());
        assert(digits_value(t.drop_last()) == 0);
    }
    if n >= 10 {
        lemma_decimal_digits(n / 10);
        let s = decimal(n / 10);
        let t = s.push(crate::text::digit(n % 10));
        assert(t.drop_last() =~= s);
        lemma_digit_value(n % 10);
        assert(n == (n / 10) * 10 + n % 10) by (nonlinear_arith);
        assert(digits_value(t) == digits_value(s) * 10 + (crate::text::digit(n % 10) as int - '0' as int));
        assert forall|i: int| 0 <= i < t.len() implies is_digit(#[trigger] t[i]) by {
            if i < s.len() {
                assert(t[i] == s[i]);
            }
        }
    }
}

/// The count that the backend writes for the helper (`u32::to_string`) is
/// read back as the same count (`str::parse::<u32>`).
pub proof fn lemma_count_round_trip(n: u32)
    ensures
        parsed_u32(decimal(n as nat)) == Some(n),
{
    lemma_decimal_digits(n as nat);
    let d = decimal(n as nat);
    assert(is_digit(d[0]));
    assert(unsigned_body(d) == d);
}

/// No repository is ever named `options`: that section holds settings.
pub proof fn lemma_no_options_repo(content: Seq<char>, arch: Seq<char>, includes: Seq<(String, String)>)
    ensures
        !conf_repos(content, arch, includes).contains_key("options"@),
{
    lemma_scan_no_options(lines(content), arch, includes);
}

proof fn lemma_scan_no_options(ls: Seq<Seq<char>>, arch: Seq<char>, includes: Seq<(String, String)>)
    ensures
        !conf_scan(ls, arch, includes).repos.contains_key("options"@),
        !closed(conf_scan(ls, arch, includes)).contains_key("options"@),
    decreases ls.len(),
{
    if ls.len() > 0 {
        lemma_scan_no_options(ls.drop_last(), arch, includes);
    }
}

} // verus!
