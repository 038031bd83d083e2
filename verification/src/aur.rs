//! The Arch User Repository: what to ask its RPC interface, how to read its
//! answers, and the decisions around building and installing its packages.
//! The HTTP requests, `git`, `makepkg` and `pacman` runs happen outside.
use crate::model::{clone_opt_string, clone_strings, AurPkg, Error, PackageDetails, PackageId, PackageSummary, Source};
use crate::build_order::PreparedPkg;
use crate::srcinfo::{has_text, parse_conflicts, parse_srcinfo_deps};
use crate::text::{
    chars_of, contains, contains_chars, ends_with, ends_with_chars, i64_text, index_of, join2, join3,
    lines, lines_of, signed_decimal, decimal, split, split_chars, starts_with, starts_with_chars, str_eq,
    string_from_chars, trim, trim_chars, trim_str, u64_text, utf8_len_at_least_2, find_char_from,
    lemma_index_of, sub_vec,
};
use vstd::prelude::*;
use vstd::utf8::encode_utf8;

verus! {

// ---------------------------------------------------------------------------
// URL encoding
// ---------------------------------------------------------------------------

/// A byte that `urlencoding` leaves as it is: an ASCII letter or digit, or one of `-._~`.
pub open spec fn unreserved(b: u8) -> bool {
    ||| 0x30 <= b <= 0x39
    ||| 0x41 <= b <= 0x5A
    ||| 0x61 <= b <= 0x7A
    ||| b == 0x2D
    ||| b == 0x2E
    ||| b == 0x5F
    ||| b == 0x7E
}

/// Upper-case hexadecimal digit of `d < 16`.
pub open spec fn hex_digit(d: u8) -> char {
    if d < 10 {
        crate::text::digit(d as nat)
    } else if d == 10 {
        'A'
    } else if d == 11 {
        'B'
    } else if d == 12 {
        'C'
    } else if d == 13 {
        'D'
    } else if d == 14 {
        'E'
    } else {
        'F'
    }
}

/// Percent-encoding of a byte string: each unreserved byte stays, every
/// other byte becomes `%` and its two upper-case hex digits.
pub open spec fn url_encoded(b: Seq<u8>) -> Seq<char>
    decreases b.len(),
{
    if b.len() == 0 {
        seq![]
    } else {
        let x = b[0];
        let head = if unreserved(x) {
            seq![x as char]
        } else {
            seq!['%', hex_digit(x / 16), hex_digit(x % 16)]
        };
        head + url_encoded(b.drop_first())
    }
}

/// `urlencoding::encode`: percent-encodes the UTF-8 bytes of the text, all
/// but ASCII letters, digits and `-._~`, with upper-case hex digits.
#[verifier::external_body]
fn url_encode(s: &str) -> (r: String)
    ensures
        r@ == url_encoded(encode_utf8(s@)),
{
    urlencoding::encode(s).into_owned()
}

/// A char that may stand in a query string without changing its structure:
/// an unreserved ASCII char, `%`, or an upper-case hex digit.
pub open spec fn url_safe(c: char) -> bool {
    ||| ('0' <= c <= '9')
    ||| ('A' <= c <= 'Z')
    ||| ('a' <= c <= 'z')
    ||| c == '-'
    ||| c == '.'
    ||| c == '_'
    ||| c == '~'
    ||| c == '%'
}

/// An encoded text holds only unreserved chars and percent escapes, so a
/// search text can never add a parameter (`&`, `=`) or end the URL (`#`, space).
pub proof fn lemma_url_encoded_safe(b: Seq<u8>)
    ensures
        forall|i: int| 0 <= i < url_encoded(b).len() ==> url_safe(#[trigger] url_encoded(b)[i]),
    decreases b.len(),
{
    if b.len() > 0 {
        lemma_url_encoded_safe(b.drop_first());
        let x = b[0];
        let head = if unreserved(x) {
            seq![x as char]
        } else {
            seq!['%', hex_digit(x / 16), hex_digit(x % 16)]
        };
        let rest = url_encoded(b.drop_first());
        assert(url_encoded(b) == head + rest);
        assert forall|i: int| 0 <= i < url_encoded(b).len() implies url_safe(#[trigger] url_encoded(b)[i]) by {
            if i < head.len() {
                assert(url_encoded(b)[i] == head[i]);
                if unreserved(x) {
                    assert(head[i] == x as char);
                }
            } else {
                assert(url_encoded(b)[i] == rest[i - head.len()]);
            }
        }
    }
}

// ---------------------------------------------------------------------------
// Names
// ---------------------------------------------------------------------------

/// A package built from a version control checkout, by its name's suffix.
pub open spec fn spec_is_vcs(name: Seq<char>) -> bool {
    ||| ends_with(name, "-git"@)
    ||| ends_with(name, "-svn"@)
    ||| ends_with(name, "-hg"@)
    ||| ends_with(name, "-bzr"@)
    ||| ends_with(name, "-darcs"@)
    ||| ends_with(name, "-cvs"@)
}

/// Whether `name` ends with one of `-git`, `-svn`, `-hg`, `-bzr`, `-darcs`, `-cvs`.
pub fn is_vcs(name: &str) -> (r: bool)
    ensures
        r == spec_is_vcs(name@),
        r <==> (ends_with(name@, "-git"@) || ends_with(name@, "-svn"@) || ends_with(name@, "-hg"@) || ends_with(
            name@,
            "-bzr"@,
        ) || ends_with(name@, "-darcs"@) || ends_with(name@, "-cvs"@)),
{
    let n = chars_of(name);
    ends_with_chars(&n, &chars_of("-git")) || ends_with_chars(&n, &chars_of("-svn")) || ends_with_chars(
        &n,
        &chars_of("-hg"),
    ) || ends_with_chars(&n, &chars_of("-bzr")) || ends_with_chars(&n, &chars_of("-darcs"))
        || ends_with_chars(&n, &chars_of("-cvs"))
}

/// `t` is one of the texts in `v`.
pub fn has_name(v: &Vec<String>, t: &str) -> (r: bool)
    ensures
        r == has_text(v@, t@),
{
    let mut i: usize = 0;
    while i < v.len()
        invariant
            i <= v.len(),
            forall|j: int| 0 <= j < i ==> v@[j]@ != t@,
        decreases v.len() - i,
    {
        if str_eq(v[i].as_str(), t) {
            return true;
        }
        i = i + 1;
    }
    false
}

/// The texts joined with `sep` between them, as `[String]::join` does.
pub open spec fn joined(parts: Seq<Seq<char>>, sep: Seq<char>) -> Seq<char>
    decreases parts.len(),
{
    if parts.len() == 0 {
        seq![]
    } else if parts.len() == 1 {
        parts[0]
    } else {
        joined(parts.drop_last(), sep) + sep + parts.last()
    }
}

pub open spec fn views(v: Seq<String>) -> Seq<Seq<char>> {
    v.map_values(|s: String| s@)
}

/// `v.join(sep)`.
pub fn join_all(v: &Vec<String>, sep: &str) -> (r: String)
    ensures
        r@ == joined(views(v@), sep@),
{
    let mut out = String::new();
    let mut i: usize = 0;
    while i < v.len()
        invariant
            i <= v.len(),
            out@ == joined(views(v@.take(i as int)), sep@),
        decreases v.len() - i,
    {
        proof {
            assert(views(v@.take(i + 1)).drop_last() =~= views(v@.take(i as int)));
            assert(views(v@.take(i + 1)).last() == v@[i as int]@);
        }
        if i > 0 {
            out.append(sep);
        } else {
            assert(views(v@.take(1)) =~= seq![v@[0]@]);
        }
        out.append(v[i].as_str());
        i = i + 1;
    }
    assert(v@.take(v.len() as int) =~= v@);
    out
}

// ---------------------------------------------------------------------------
// Package summaries
// ---------------------------------------------------------------------------

/// `o` holds a string with the text `t`.
pub open spec fn is_text(o: Option<String>, t: Seq<char>) -> bool {
    match o {
        Some(s) => s@ == t,
        None => false,
    }
}

/// The text of an optional string, empty when there is none.
pub open spec fn opt_text(o: Option<String>) -> Seq<char> {
    match o {
        Some(s) => s@,
        None => seq![],
    }
}

fn text_or_empty(o: &Option<String>) -> (r: String)
    ensures
        r@ == opt_text(*o),
{
    match o {
        Some(s) => s.clone(),
        None => String::new(),
    }
}

/// `r` is the summary of the AUR package `p`, marked installed or not.
pub open spec fn summarizes(r: PackageSummary, p: AurPkg, installed: bool) -> bool {
    &&& r.id.name@ == p.name@
    &&& r.id.source == Source::Aur
    &&& r.id.repo is None
    &&& r.version@ == p.version@
    &&& r.description@ == opt_text(p.description)
    &&& r.installed == installed
    &&& r.popular == p.votes
    &&& r.last_updated == p.last_modified
}

fn summary_of(p: &AurPkg, installed: bool) -> (r: PackageSummary)
    ensures
        summarizes(r, *p, installed),
{
    PackageSummary {
        id: PackageId { name: p.name.clone(), source: Source::Aur, repo: None },
        version: p.version.clone(),
        description: text_or_empty(&p.description),
        installed,
        popular: p.votes,
        last_updated: p.last_modified,
    }
}

/// A list of summaries, one for each package in order, each marked installed
/// when its name is among `installed`.
pub open spec fn summaries_of(r: Seq<PackageSummary>, pkgs: Seq<AurPkg>, installed: Seq<String>) -> bool {
    &&& r.len() == pkgs.len()
    &&& forall|i: int| 0 <= i < r.len() ==> summarizes(#[trigger] r[i], pkgs[i], has_text(installed, pkgs[i].name@))
}

fn summaries(pkgs: &Vec<AurPkg>, installed: &Vec<String>) -> (r: Vec<PackageSummary>)
    ensures
        summaries_of(r@, pkgs@, installed@),
{
    let mut out: Vec<PackageSummary> = Vec::new();
    let mut i: usize = 0;
    while i < pkgs.len()
        invariant
            i <= pkgs.len(),
            out@.len() == i,
            forall|j: int| 0 <= j < i ==> summarizes(#[trigger] out@[j], pkgs@[j], has_text(installed@, pkgs@[j].name@)),
        decreases pkgs.len() - i,
    {
        let inst = has_name(installed, pkgs[i].name.as_str());
        out.push(summary_of(&pkgs[i], inst));
        i = i + 1;
    }
    out
}

// ---------------------------------------------------------------------------
// Requests and replies
// ---------------------------------------------------------------------------

/// What to do for a search: nothing (with a warning), or fetch a URL.
pub enum AurRequest {
    Skip { warning: String },
    Fetch { log: String, url: String },
}

/// How a request to the RPC interface ended.
pub enum AurReply {
    /// The request failed; the error's text.
    Failed(String),
    /// The answer could not be decoded; the decoder's error text.
    Unreadable(String),
    /// The decoded answer: its results, and its error message if it has one.
    Answer { results: Vec<AurPkg>, error: Option<String> },
}

pub open spec fn search_url(q: Seq<char>) -> Seq<char> {
    "https://aur.archlinux.org/rpc/?v=5&type=search&by=name-desc&arg="@ + url_encoded(encode_utf8(q))
}

pub open spec fn info_url(name: Seq<char>) -> Seq<char> {
    "https://aur.archlinux.org/rpc/?v=5&type=info&arg[]="@ + url_encoded(encode_utf8(name))
}

impl crate::model::AurBackend {
    /// What a search for `q` asks of the AUR: a search whose job is already
    /// cancelled stops at once; a text that is shorter than two bytes once
    /// trimmed is not searched.
    pub fn search_request(&self, q: &str, cancelled: bool) -> (r: Result<AurRequest, Error>)
        ensures
            ({
                let t = trim(q@);
                if cancelled {
                    r matches Err(Error::Cancelled)
                } else if crate::text::utf8_len(t) < 2 {
                    r matches Ok(AurRequest::Skip { warning }) && warning@ == "AUR: query too short (<2), ignoring"@
                } else {
                    r matches Ok(AurRequest::Fetch { log, url }) && log@ == "AUR search: "@ + t && url@
                        == search_url(t)
                }
            }),
    {
        if cancelled {
            return Err(Error::Cancelled);
        }
        let t = trim_str(q);
        if !utf8_len_at_least_2(&t) {
            return Ok(AurRequest::Skip { warning: "AUR: query too short (<2), ignoring".to_owned() });
        }
        let ts = string_from_chars(&t);
        let log = join2("AUR search: ", ts.as_str());
        let url = join2("https://aur.archlinux.org/rpc/?v=5&type=search&by=name-desc&arg=", url_encode(ts.as_str()).as_str());
        Ok(AurRequest::Fetch { log, url })
    }

    /// The packages and the warning that the answer to a search gives; a
    /// good answer to a job cancelled meanwhile (`cancelled`, read once the
    /// answer is in) gives the cancellation. The packages are marked installed
    /// by the names in `installed`.
    pub fn search_outcome(&self, reply: AurReply, cancelled: bool, installed: &Vec<String>) -> (r: (
        Result<Vec<PackageSummary>, Error>,
        Option<String>,
    ))
        ensures
            match reply {
                AurReply::Failed(e) => (r.0 matches Ok(v) && v@.len() == 0) && is_text(r.1, "AUR search failed: "@ + e@),
                AurReply::Unreadable(e) => (r.0 matches Ok(v) && v@.len() == 0) && is_text(
                    r.1,
                    "AUR search parse failed: "@ + e@,
                ),
                AurReply::Answer { results, error } => match error {
                    Some(e) => (r.0 matches Ok(v) && v@.len() == 0) && is_text(r.1, "AUR error: "@ + e@),
                    None => r.1 is None && if cancelled {
                        r.0 matches Err(Error::Cancelled)
                    } else {
                        r.0 matches Ok(v) && summaries_of(v@, results@, installed@)
                    },
                },
            },
    {
        match reply {
            AurReply::Failed(e) => (Ok(Vec::new()), Some(join2("AUR search failed: ", e.as_str()))),
            AurReply::Unreadable(e) => (Ok(Vec::new()), Some(join2("AUR search parse failed: ", e.as_str()))),
            AurReply::Answer { results, error } => match error {
                Some(e) => (Ok(Vec::new()), Some(join2("AUR error: ", e.as_str()))),
                None => if cancelled {
                    (Err(Error::Cancelled), None)
                } else {
                    (Ok(summaries(&results, installed)), None)
                },
            },
        }
    }

    /// The URL that asks for the full record of one package.
    pub fn details_url(&self, name: &str) -> (r: String)
        ensures
            r@ == info_url(name@),
    {
        join2("https://aur.archlinux.org/rpc/?v=5&type=info&arg[]=", url_encode(name).as_str())
    }
}

// ---------------------------------------------------------------------------
// Package details
// ---------------------------------------------------------------------------

/// The list in an optional list field, empty when the field is missing.
pub open spec fn opt_list(o: Option<Vec<String>>) -> Seq<String> {
    match o {
        Some(v) => v@,
        None => seq![],
    }
}

/// The package name of an optional dependency `name: reason`.
pub open spec fn opt_dep_name(s: Seq<char>) -> Seq<char> {
    trim(s.take(index_of(s, ':')))
}

/// The names of the optional dependencies, blank ones left out.
pub open spec fn opt_dep_names(v: Seq<String>) -> Seq<Seq<char>>
    decreases v.len(),
{
    if v.len() == 0 {
        seq![]
    } else {
        let rest = opt_dep_names(v.drop_last());
        let n = opt_dep_name(v.last()@);
        if n.len() > 0 {
            rest.push(n)
        } else {
            rest
        }
    }
}

/// `d` holds the details of the AUR package `p`.
pub open spec fn details_of(d: PackageDetails, p: AurPkg, installed: Seq<String>) -> bool {
    &&& summarizes(d.summary, p, has_text(installed, p.name@))
    &&& d.description is None
    &&& d.depends@ == opt_list(p.depends)
    &&& views(d.opt_depends@) == opt_dep_names(opt_list(p.optdepends))
    &&& d.homepage == p.url
    &&& match p.license {
        Some(v) => d.license matches Some(l) && l@ == joined(views(v@), ", "@),
        None => d.license is None,
    }
    &&& d.maintainer == p.maintainer
    &&& d.developer is None
    &&& d.size_install is None
    &&& d.size_download is None
}

fn list_or_empty(o: &Option<Vec<String>>) -> (r: Vec<String>)
    ensures
        r@ == opt_list(*o),
{
    match o {
        Some(v) => clone_strings(v),
        None => Vec::new(),
    }
}

fn opt_dep_names_of(v: &Vec<String>) -> (r: Vec<String>)
    ensures
        views(r@) == opt_dep_names(v@),
{
    let mut out: Vec<String> = Vec::new();
    let mut i: usize = 0;
    while i < v.len()
        invariant
            i <= v.len(),
            views(out@) == opt_dep_names(v@.take(i as int)),
        decreases v.len() - i,
    {
        proof {
            assert(v@.take(i + 1).drop_last() =~= v@.take(i as int));
        }
        let c = chars_of(v[i].as_str());
        let k = find_char_from(&c, 0, ':');
        assert(c@.skip(0) =~= c@);
        let n = trim_chars(&sub_vec(&c, 0, k));
        assert(c@.subrange(0, k as int) =~= c@.take(k as int));
        if n.len() > 0 {
            out.push(string_from_chars(&n));
            assert(views(out@) =~= opt_dep_names(v@.take(i as int)).push(n@));
        }
        i = i + 1;
    }
    assert(v@.take(v.len() as int) =~= v@);
    out
}

fn details_from(p: &AurPkg, installed: &Vec<String>) -> (d: PackageDetails)
    ensures
        details_of(d, *p, installed@),
{
    let inst = has_name(installed, p.name.as_str());
    let opt = list_or_empty(&p.optdepends);
    PackageDetails {
        summary: summary_of(p, inst),
        description: None,
        depends: list_or_empty(&p.depends),
        opt_depends: opt_dep_names_of(&opt),
        homepage: clone_opt_string(&p.url),
        license: match &p.license {
            Some(v) => Some(join_all(v, ", ")),
            None => None,
        },
        maintainer: clone_opt_string(&p.maintainer),
        developer: None,
        size_install: None,
        size_download: None,
    }
}

impl crate::model::AurBackend {
    /// The details that the answer to an info request gives, and the warning
    /// to log when the request itself failed.
    pub fn details_outcome(&self, reply: AurReply, installed: &Vec<String>) -> (r: (
        Result<PackageDetails, Error>,
        Option<String>,
    ))
        ensures
            match reply {
                AurReply::Failed(e) => r.0 matches Err(Error::Network(m)) && m == e && is_text(r.1, "AUR info failed: "@ + e@),
                AurReply::Unreadable(e) => r.0 matches Err(Error::Network(m)) && m == e && is_text(
                    r.1,
                    "AUR info parse failed: "@ + e@,
                ),
                AurReply::Answer { results, error } => r.1 is None && match error {
                    Some(e) => r.0 matches Err(Error::Aur(m)) && m == e,
                    None => if results@.len() == 0 {
                        r.0 matches Err(Error::Aur(m)) && m@ == "not found"@
                    } else {
                        r.0 matches Ok(d) && details_of(d, results@[0], installed@)
                    },
                },
            },
    {
        match reply {
            AurReply::Failed(e) => {
                let w = join2("AUR info failed: ", e.as_str());
                (Err(Error::Network(e)), Some(w))
            },
            AurReply::Unreadable(e) => {
                let w = join2("AUR info parse failed: ", e.as_str());
                (Err(Error::Network(e)), Some(w))
            },
            AurReply::Answer { results, error } => match error {
                Some(e) => (Err(Error::Aur(e)), None),
                None => {
                    if results.len() == 0 {
                        (Err(Error::Aur("not found".to_owned())), None)
                    } else {
                        (Ok(details_from(&results[0], installed)), None)
                    }
                },
            },
        }
    }
}

// ---------------------------------------------------------------------------
// Foreign packages and the info requests
// ---------------------------------------------------------------------------

/// The `(name, version)` pairs in the output of `pacman -Qm`: each trimmed
/// line, split at its first space; lines without a space are left out.
pub open spec fn foreign_of(ls: Seq<Seq<char>>) -> Seq<(Seq<char>, Seq<char>)>
    decreases ls.len(),
{
    if ls.len() == 0 {
        seq![]
    } else {
        let rest = foreign_of(ls.drop_last());
        let t = trim(ls.last());
        let k = index_of(t, ' ');
        if k < t.len() {
            rest.push((t.take(k), t.skip(k + 1)))
        } else {
            rest
        }
    }
}

pub open spec fn pair_views(v: Seq<(String, String)>) -> Seq<(Seq<char>, Seq<char>)> {
    v.map_values(|p: (String, String)| (p.0@, p.1@))
}

/// Reads the foreign packages from the output of `pacman -Qm`.
pub fn parse_foreign_packages(out: &str) -> (r: Vec<(String, String)>)
    ensures
        pair_views(r@) == foreign_of(lines(out@)),
{
    let ls = lines_of(&chars_of(out));
    let ghost gl = lines(out@);
    let mut res: Vec<(String, String)> = Vec::new();
    let mut i: usize = 0;
    while i < ls.len()
        invariant
            i <= ls.len(),
            ls@.len() == gl.len(),
            forall|j: int| 0 <= j < ls@.len() ==> #[trigger] ls@[j]@ == gl[j],
            pair_views(res@) == foreign_of(gl.take(i as int)),
        decreases ls.len() - i,
    {
        proof {
            assert(gl.take(i + 1).drop_last() =~= gl.take(i as int));
            assert(gl.take(i + 1).last() == ls@[i as int]@);
        }
        let t = trim_chars(&ls[i]);
        let k = find_char_from(&t, 0, ' ');
        assert(t@.skip(0) =~= t@);
        if k < t.len() {
            let name = string_from_chars(&sub_vec(&t, 0, k));
            let ver = string_from_chars(&sub_vec(&t, k + 1, t.len()));
            res.push((name, ver));
            proof {
                assert(t@.subrange(0, k as int) =~= t@.take(k as int));
                assert(t@.subrange(k + 1, t@.len() as int) =~= t@.skip(k + 1));
                assert(pair_views(res@) =~= foreign_of(gl.take(i as int)).push((t@.take(k as int), t@.skip(k + 1))));
            }
        }
        i = i + 1;
    }
    assert(gl.take(gl.len() as int) =~= gl);
    res
}

/// The installed version of the first foreign package named `name`.
pub open spec fn first_version(f: Seq<(String, String)>, name: Seq<char>) -> Option<Seq<char>>
    decreases f.len(),
{
    if f.len() == 0 {
        None
    } else if f[0].0@ == name {
        Some(f[0].1@)
    } else {
        first_version(f.drop_first(), name)
    }
}

/// The installed version of the foreign package `name`, if it is one.
pub fn installed_version(foreign: &Vec<(String, String)>, name: &str) -> (r: Option<String>)
    ensures
        match r {
            Some(v) => first_version(foreign@, name@) == Some(v@),
            None => first_version(foreign@, name@) is None,
        },
{
    let mut i: usize = 0;
    assert(foreign@.skip(0) =~= foreign@);
    while i < foreign.len()
        invariant
            i <= foreign.len(),
            first_version(foreign@, name@) == first_version(foreign@.skip(i as int), name@),
        decreases foreign.len() - i,
    {
        assert(foreign@.skip(i as int).drop_first() =~= foreign@.skip(i + 1));
        if str_eq(foreign[i].0.as_str(), name) {
            return Some(foreign[i].1.clone());
        }
        i = i + 1;
    }
    None
}

/// The names of the foreign packages.
pub fn foreign_names(foreign: &Vec<(String, String)>) -> (r: Vec<String>)
    ensures
        r@.len() == foreign@.len(),
        forall|i: int| 0 <= i < r@.len() ==> #[trigger] r@[i] == foreign@[i].0,
{
    let mut out: Vec<String> = Vec::new();
    let mut i: usize = 0;
    while i < foreign.len()
        invariant
            i <= foreign.len(),
            out@.len() == i,
            forall|j: int| 0 <= j < i ==> #[trigger] out@[j] == foreign@[j].0,
        decreases foreign.len() - i,
    {
        out.push(foreign[i].0.clone());
        i = i + 1;
    }
    out
}

/// The form of one info request: `v=5`, `type=info` and an `arg[]` per name.
pub open spec fn info_form(names: Seq<String>) -> Seq<(Seq<char>, Seq<char>)> {
    seq![("v"@, "5"@), ("type"@, "info"@)] + names.map_values(|n: String| ("arg[]"@, n@))
}

/// The info requests for `names`: one per hundred names, in order.
pub open spec fn info_forms(names: Seq<String>) -> Seq<Seq<(Seq<char>, Seq<char>)>>
    decreases names.len(),
{
    if names.len() == 0 {
        seq![]
    } else if names.len() <= 100 {
        seq![info_form(names)]
    } else {
        seq![info_form(names.take(100))] + info_forms(names.skip(100))
    }
}

pub open spec fn form_views(v: Seq<Vec<(String, String)>>) -> Seq<Seq<(Seq<char>, Seq<char>)>> {
    v.map_values(|f: Vec<(String, String)>| pair_views(f@))
}

/// The forms to post to the RPC interface to learn about `names`.
pub fn aur_info_forms(names: &Vec<String>) -> (r: Vec<Vec<(String, String)>>)
    ensures
        form_views(r@) == info_forms(names@),
{
    let mut out: Vec<Vec<(String, String)>> = Vec::new();
    let mut start: usize = 0;
    proof {
        assert(names@.skip(0) =~= names@);
        assert(form_views(out@) + info_forms(names@) =~= info_forms(names@));
    }
    while start < names.len()
        invariant
            start <= names.len(),
            info_forms(names@) == form_views(out@) + info_forms(names@.skip(start as int)),
        decreases names.len() - start,
    {
        let end: usize = if names.len() - start > 100 {
            start + 100
        } else {
            names.len()
        };
        let mut form: Vec<(String, String)> = Vec::new();
        form.push(("v".to_owned(), "5".to_owned()));
        form.push(("type".to_owned(), "info".to_owned()));
        proof {
            assert(names@.subrange(start as int, start as int) =~= Seq::<String>::empty());
            assert(pair_views(form@) =~= info_form(names@.subrange(start as int, start as int)));
        }
        let mut k: usize = start;
        while k < end
            invariant
                start <= k <= end <= names.len(),
                pair_views(form@) == info_form(names@.subrange(start as int, k as int)),
            decreases end - k,
        {
            let ghost f0 = form@;
            form.push(("arg[]".to_owned(), names[k].clone()));
            proof {
                let sub = names@.subrange(start as int, k as int);
                assert(names@.subrange(start as int, k + 1) =~= sub.push(names@[k as int]));
                assert(pair_views(form@) =~= pair_views(f0).push(("arg[]"@, names@[k as int]@)));
                assert(info_form(sub.push(names@[k as int])) =~= info_form(sub).push(("arg[]"@, names@[k as int]@)));
            }
            k = k + 1;
        }
        let ghost before = form_views(out@);
        out.push(form);
        proof {
            let rest = names@.skip(start as int);
            assert(form_views(out@) =~= before.push(pair_views(form@)));
            if rest.len() <= 100 {
                assert(names@.subrange(start as int, end as int) =~= rest);
                assert(names@.skip(end as int) =~= Seq::<String>::empty());
                assert(info_forms(rest) == seq![info_form(rest)]);
            } else {
                assert(names@.subrange(start as int, end as int) =~= rest.take(100));
                assert(names@.skip(end as int) =~= rest.skip(100));
            }
            assert(before + info_forms(rest) =~= before.push(pair_views(form@)) + info_forms(names@.skip(end as int)));
        }
        start = end;
    }
    proof {
        assert(names@.skip(start as int) =~= Seq::<String>::empty());
        assert(form_views(out@) + info_forms(names@.skip(start as int)) =~= form_views(out@));
    }
    out
}

/// What the info requests gave, in order, up to the first one that failed.
pub open spec fn replies_upto_failure(replies: Seq<Option<Vec<AurPkg>>>) -> Seq<AurPkg>
    decreases replies.len(),
{
    if replies.len() == 0 {
        seq![]
    } else {
        match replies[0] {
            Some(v) => v@ + replies_upto_failure(replies.drop_first()),
            None => seq![],
        }
    }
}

/// The packages that the info requests returned: the results of each reply in
/// order, stopping at the first request that failed (`None`).
pub fn aur_info(replies: Vec<Option<Vec<AurPkg>>>) -> (r: Vec<AurPkg>)
    ensures
        r@ == replies_upto_failure(replies@),
{
    let mut rest = replies;
    let mut out: Vec<AurPkg> = Vec::new();
    let ghost all = rest@;
    while rest.len() > 0
        invariant
            all == replies@,
            replies_upto_failure(all) == out@ + replies_upto_failure(rest@),
        decreases rest.len(),
    {
        let ghost r0 = rest@;
        let first = rest.remove(0);
        assert(rest@ =~= r0.drop_first());
        match first {
            Some(mut v) => {
                let ghost o0 = out@;
                let ghost v0 = v@;
                out.append(&mut v);
                assert(o0 + (v0 + replies_upto_failure(rest@)) =~= out@ + replies_upto_failure(rest@));
            },
            None => {
                assert(replies_upto_failure(r0) =~= Seq::<AurPkg>::empty());
                assert(out@ + replies_upto_failure(r0) =~= out@);
                return out;
            },
        }
    }
    assert(out@ + replies_upto_failure(rest@) =~= out@);
    out
}

/// The package base of `name`: the first info record's base when it is not
/// empty, else the name itself.
pub open spec fn spec_pkgbase(name: Seq<char>, info: Seq<AurPkg>) -> Seq<char> {
    if info.len() > 0 && (info[0].package_base matches Some(b) && b@.len() > 0) {
        info[0].package_base->0@
    } else {
        name
    }
}

/// The package base to clone for `name`, from the info records fetched for it.
pub fn pkgbase_for(name: &str, info: &Vec<AurPkg>) -> (r: String)
    ensures
        r@ == spec_pkgbase(name@, info@),
{
    if info.len() > 0 {
        match &info[0].package_base {
            Some(b) => {
                if !b.as_str().is_empty() {
                    return b.clone();
                }
            },
            None => {},
        }
    }
    name.to_owned()
}

// ---------------------------------------------------------------------------
// Updates
// ---------------------------------------------------------------------------

/// The info records of installed packages whose installed version is older
/// (`older[i]` compares the installed version with the one of `info[i]`).
pub open spec fn outdated(f: Seq<(String, String)>, info: Seq<AurPkg>, older: Seq<bool>) -> Seq<AurPkg>
    decreases info.len(),
{
    if info.len() == 0 {
        seq![]
    } else {
        let rest = outdated(f, info.drop_last(), older.drop_last());
        if first_version(f, info.last().name@) is Some && older.last() {
            rest.push(info.last())
        } else {
            rest
        }
    }
}

/// The updates among the foreign packages: a summary, marked installed, for
/// each info record whose package is installed in an older version.
/// `older[i]` is whether `vercmp` orders the installed version before the
/// version of `info[i]`.
pub fn aur_updates(foreign: &Vec<(String, String)>, info: &Vec<AurPkg>, older: &Vec<bool>) -> (r: Vec<
    PackageSummary,
>)
    requires
        older@.len() == info@.len(),
    ensures
        r@.len() == outdated(foreign@, info@, older@).len(),
        forall|i: int| 0 <= i < r@.len() ==> summarizes(#[trigger] r@[i], outdated(foreign@, info@, older@)[i], true),
{
    let mut out: Vec<PackageSummary> = Vec::new();
    let mut i: usize = 0;
    while i < info.len()
        invariant
            i <= info.len(),
            older@.len() == info@.len(),
            out@.len() == outdated(foreign@, info@.take(i as int), older@.take(i as int)).len(),
            forall|j: int|
                0 <= j < out@.len() ==> summarizes(
                    #[trigger] out@[j],
                    outdated(foreign@, info@.take(i as int), older@.take(i as int))[j],
                    true,
                ),
        decreases info.len() - i,
    {
        proof {
            assert(info@.take(i + 1).drop_last() =~= info@.take(i as int));
            assert(older@.take(i + 1).drop_last() =~= older@.take(i as int));
        }
        let has = installed_version(foreign, info[i].name.as_str());
        if has.is_some() && older[i] {
            out.push(summary_of(&info[i], true));
        }
        i = i + 1;
    }
    assert(info@.take(info.len() as int) =~= info@);
    assert(older@.take(older.len() as int) =~= older@);
    out
}

/// Some info record has the name `name`.
pub open spec fn has_record(info: Seq<AurPkg>, name: Seq<char>) -> bool {
    exists|i: int| 0 <= i < info.len() && #[trigger] info[i].name@ == name
}

/// The foreign packages to check through their sources: version control
/// packages that the info records did not cover, in order.
pub open spec fn vcs_unchecked(f: Seq<(String, String)>, info: Seq<AurPkg>) -> Seq<Seq<char>>
    decreases f.len(),
{
    if f.len() == 0 {
        seq![]
    } else {
        let rest = vcs_unchecked(f.drop_last(), info);
        let n = f.last().0@;
        if spec_is_vcs(n) && !has_record(info, n) {
            rest.push(n)
        } else {
            rest
        }
    }
}

/// The VCS packages to check are exactly the foreign packages whose name ends
/// with `-git`, `-svn`, `-hg`, `-bzr`, `-darcs` or `-cvs` and that no info
/// record names.
pub proof fn lemma_vcs_candidates(f: Seq<(String, String)>, info: Seq<AurPkg>)
    ensures
        forall|i: int|
            0 <= i < f.len() && (ends_with(f[i].0@, "-git"@) || ends_with(f[i].0@, "-svn"@) || ends_with(
                f[i].0@,
                "-hg"@,
            ) || ends_with(f[i].0@, "-bzr"@) || ends_with(f[i].0@, "-darcs"@) || ends_with(f[i].0@, "-cvs"@))
                && (forall|j: int| 0 <= j < info.len() ==> info[j].name@ != f[i].0@) ==> #[trigger] vcs_unchecked(
                f,
                info,
            ).contains(f[i].0@),
        forall|n: Seq<char>|
            #[trigger] vcs_unchecked(f, info).contains(n) ==> (ends_with(n, "-git"@) || ends_with(n, "-svn"@)
                || ends_with(n, "-hg"@) || ends_with(n, "-bzr"@) || ends_with(n, "-darcs"@) || ends_with(n, "-cvs"@))
                && (forall|j: int| 0 <= j < info.len() ==> info[j].name@ != n) && exists|i: int|
                0 <= i < f.len() && f[i].0@ == n,
    decreases f.len(),
{
    if f.len() > 0 {
        let rest = f.drop_last();
        lemma_vcs_candidates(rest, info);
        let u = vcs_unchecked(f, info);
        let ur = vcs_unchecked(rest, info);
        assert forall|i: int|
            0 <= i < f.len() && (ends_with(f[i].0@, "-git"@) || ends_with(f[i].0@, "-svn"@) || ends_with(
                f[i].0@,
                "-hg"@,
            ) || ends_with(f[i].0@, "-bzr"@) || ends_with(f[i].0@, "-darcs"@) || ends_with(f[i].0@, "-cvs"@))
                && (forall|j: int| 0 <= j < info.len() ==> info[j].name@ != f[i].0@) implies #[trigger] u.contains(
            f[i].0@,
        ) by {
            if i == f.len() - 1 {
                if has_record(info, f[i].0@) {
                    let j = choose|j: int| 0 <= j < info.len() && #[trigger] info[j].name@ == f[i].0@;
                }
                assert(u.last() == f[i].0@);
            } else {
                assert(rest[i] == f[i]);
                assert(ur.contains(rest[i].0@));
                let k = choose|k: int| 0 <= k < ur.len() && ur[k] == f[i].0@;
                assert(u[k] == ur[k]);
            }
        }
        assert forall|n: Seq<char>| #[trigger] u.contains(n) implies (ends_with(n, "-git"@) || ends_with(n, "-svn"@)
            || ends_with(n, "-hg"@) || ends_with(n, "-bzr"@) || ends_with(n, "-darcs"@) || ends_with(n, "-cvs"@))
            && (forall|j: int| 0 <= j < info.len() ==> info[j].name@ != n) && exists|i: int|
            0 <= i < f.len() && f[i].0@ == n by {
            let k = choose|k: int| 0 <= k < u.len() && u[k] == n;
            if k < ur.len() {
                assert(ur[k] == n);
                assert(ur.contains(n));
                let i = choose|i: int| 0 <= i < rest.len() && rest[i].0@ == n;
                assert(f[i] == rest[i]);
            } else {
                assert(n == f.last().0@);
                assert(f[f.len() - 1].0@ == n);
                assert forall|j: int| 0 <= j < info.len() implies info[j].name@ != n by {
                    if info[j].name@ == n {
                        assert(has_record(info, n));
                    }
                }
            }
        }
    }
}

fn has_record_exec(info: &Vec<AurPkg>, name: &str) -> (r: bool)
    ensures
        r == has_record(info@, name@),
{
    let mut i: usize = 0;
    while i < info.len()
        invariant
            i <= info.len(),
            forall|j: int| 0 <= j < i ==> info@[j].name@ != name@,
        decreases info.len() - i,
    {
        if str_eq(info[i].name.as_str(), name) {
            return true;
        }
        i = i + 1;
    }
    false
}

/// The version control packages whose sources have to be checked for new commits.
pub fn vcs_candidates(foreign: &Vec<(String, String)>, info: &Vec<AurPkg>) -> (r: Vec<String>)
    ensures
        views(r@) == vcs_unchecked(foreign@, info@),
{
    let mut out: Vec<String> = Vec::new();
    let mut i: usize = 0;
    while i < foreign.len()
        invariant
            i <= foreign.len(),
            views(out@) == vcs_unchecked(foreign@.take(i as int), info@),
        decreases foreign.len() - i,
    {
        proof {
            assert(foreign@.take(i + 1).drop_last() =~= foreign@.take(i as int));
        }
        let n = foreign[i].0.as_str();
        if is_vcs(n) && !has_record_exec(info, n) {
            out.push(foreign[i].0.clone());
            assert(views(out@) =~= vcs_unchecked(foreign@.take(i as int), info@).push(foreign@[i as int].0@));
        }
        i = i + 1;
    }
    assert(foreign@.take(foreign.len() as int) =~= foreign@);
    out
}

/// The last info record named `name` (later records replace earlier ones).
pub open spec fn last_record(info: Seq<AurPkg>, name: Seq<char>) -> Option<AurPkg>
    decreases info.len(),
{
    if info.len() == 0 {
        None
    } else if info.last().name@ == name {
        Some(info.last())
    } else {
        last_record(info.drop_last(), name)
    }
}

/// `r` is the summary of the installed foreign package `name` in `version`,
/// with what its info record `p` adds.
pub open spec fn installed_summary(r: PackageSummary, name: Seq<char>, version: Seq<char>, p: Option<AurPkg>) -> bool {
    &&& r.id.name@ == name
    &&& r.id.source == Source::Aur
    &&& r.id.repo is None
    &&& r.version@ == version
    &&& r.installed
    &&& match p {
        Some(q) => r.description@ == opt_text(q.description) && r.popular == q.votes && r.last_updated
            == q.last_modified,
        None => r.description@.len() == 0 && r.popular is None && r.last_updated is None,
    }
}

/// The installed foreign packages as summaries, in the order pacman lists them.
pub fn aur_installed(foreign: &Vec<(String, String)>, info: &Vec<AurPkg>) -> (r: Vec<PackageSummary>)
    ensures
        r@.len() == foreign@.len(),
        forall|i: int|
            0 <= i < r@.len() ==> installed_summary(
                #[trigger] r@[i],
                foreign@[i].0@,
                foreign@[i].1@,
                last_record(info@, foreign@[i].0@),
            ),
{
    let mut out: Vec<PackageSummary> = Vec::new();
    let mut i: usize = 0;
    while i < foreign.len()
        invariant
            i <= foreign.len(),
            out@.len() == i,
            forall|j: int|
                0 <= j < i ==> installed_summary(
                    #[trigger] out@[j],
                    foreign@[j].0@,
                    foreign@[j].1@,
                    last_record(info@, foreign@[j].0@),
                ),
        decreases foreign.len() - i,
    {
        let name = foreign[i].0.as_str();
        let mut k: usize = info.len();
        assert(info@.take(k as int) =~= info@);
        while k > 0 && !str_eq(info[k - 1].name.as_str(), name)
            invariant
                k <= info.len(),
                last_record(info@, name@) == last_record(info@.take(k as int), name@),
            decreases k,
        {
            assert(info@.take(k as int).drop_last() =~= info@.take(k - 1));
            k = k - 1;
        }
        proof {
            if k > 0 {
                assert(info@.take(k as int).last() == info@[k - 1]);
            }
        }
        let s = if k > 0 {
            let p = &info[k - 1];
            PackageSummary {
                id: PackageId { name: foreign[i].0.clone(), source: Source::Aur, repo: None },
                version: foreign[i].1.clone(),
                description: text_or_empty(&p.description),
                installed: true,
                popular: p.votes,
                last_updated: p.last_modified,
            }
        } else {
            PackageSummary {
                id: PackageId { name: foreign[i].0.clone(), source: Source::Aur, repo: None },
                version: foreign[i].1.clone(),
                description: String::new(),
                installed: true,
                popular: None,
                last_updated: None,
            }
        };
        out.push(s);
        i = i + 1;
    }
    out
}

// ---------------------------------------------------------------------------
// Version control packages
// ---------------------------------------------------------------------------

/// Where the commits last seen of version control packages are stored: under
/// the home folder, or `/tmp` when `$HOME` is not set.
pub fn vcs_store_path(home: Option<&str>) -> (r: String)
    ensures
        r@ == crate::model::home_path(
            match home {
                Some(h) => h@,
                None => "/tmp"@,
            },
            ".cache/soredowe/aur-vcs.json"@,
        ),
{
    match home {
        Some(h) => crate::model::join_home(h, ".cache/soredowe/aur-vcs.json"),
        None => crate::model::join_home("/tmp", ".cache/soredowe/aur-vcs.json"),
    }
}

/// The commit last seen for one source of a version control package.
pub struct VcsEntry {
    pub url: String,
    pub branch: String,
    pub commit: String,
}

/// The first stored entry for the source `url`.
pub open spec fn first_stored(stored: Seq<VcsEntry>, url: Seq<char>) -> Option<VcsEntry>
    decreases stored.len(),
{
    if stored.len() == 0 {
        None
    } else if stored[0].url@ == url {
        Some(stored[0])
    } else {
        first_stored(stored.drop_first(), url)
    }
}

/// A source whose remote head was read and differs from the stored commit.
pub open spec fn moved(stored: Seq<VcsEntry>, head: (String, String, Option<String>)) -> bool {
    match head.2 {
        Some(sha) => match first_stored(stored, head.0@) {
            Some(e) => e.commit@ != sha@,
            None => false,
        },
        None => false,
    }
}

/// The entries to store: one per source whose head was read, in order.
pub open spec fn fresh_entries(heads: Seq<(String, String, Option<String>)>) -> Seq<(Seq<char>, Seq<char>, Seq<char>)>
    decreases heads.len(),
{
    if heads.len() == 0 {
        seq![]
    } else {
        let rest = fresh_entries(heads.drop_last());
        match heads.last().2 {
            Some(sha) => rest.push((heads.last().0@, heads.last().1@, sha@)),
            None => rest,
        }
    }
}

pub open spec fn entry_views(v: Seq<VcsEntry>) -> Seq<(Seq<char>, Seq<char>, Seq<char>)> {
    v.map_values(|e: VcsEntry| (e.url@, e.branch@, e.commit@))
}

fn stored_commit(stored: &Vec<VcsEntry>, url: &str) -> (r: Option<String>)
    ensures
        match first_stored(stored@, url@) {
            Some(e) => r matches Some(c) && c@ == e.commit@,
            None => r is None,
        },
{
    let mut i: usize = 0;
    assert(stored@.skip(0) =~= stored@);
    while i < stored.len()
        invariant
            i <= stored.len(),
            first_stored(stored@, url@) == first_stored(stored@.skip(i as int), url@),
        decreases stored.len() - i,
    {
        assert(stored@.skip(i as int).drop_first() =~= stored@.skip(i + 1));
        if str_eq(stored[i].url.as_str(), url) {
            return Some(stored[i].commit.clone());
        }
        i = i + 1;
    }
    None
}

/// Compares the remote heads of a package's sources (`(url, branch, head)`,
/// the head `None` when it could not be read) with the stored commits: the
/// package needs an update when a read head differs from the commit stored
/// for its source, and the read heads are what to store next.
pub fn vcs_check(stored: &Vec<VcsEntry>, heads: &Vec<(String, String, Option<String>)>) -> (r: (bool, Vec<VcsEntry>))
    ensures
        r.0 == exists|i: int| 0 <= i < heads@.len() && moved(stored@, #[trigger] heads@[i]),
        entry_views(r.1@) == fresh_entries(heads@),
{
    let mut needs = false;
    let mut out: Vec<VcsEntry> = Vec::new();
    let mut i: usize = 0;
    while i < heads.len()
        invariant
            i <= heads.len(),
            needs == exists|j: int| 0 <= j < i && moved(stored@, #[trigger] heads@[j]),
            entry_views(out@) == fresh_entries(heads@.take(i as int)),
        decreases heads.len() - i,
    {
        proof {
            assert(heads@.take(i + 1).drop_last() =~= heads@.take(i as int));
        }
        match &heads[i].2 {
            Some(sha) => {
                match stored_commit(stored, heads[i].0.as_str()) {
                    Some(c) => {
                        if !str_eq(c.as_str(), sha.as_str()) {
                            needs = true;
                        }
                    },
                    None => {},
                }
                out.push(VcsEntry { url: heads[i].0.clone(), branch: heads[i].1.clone(), commit: sha.clone() });
                assert(entry_views(out@) =~= fresh_entries(heads@.take(i as int)).push(
                    (heads@[i as int].0@, heads@[i as int].1@, sha@),
                ));
            },
            None => {},
        }
        i = i + 1;
    }
    assert(heads@.take(heads.len() as int) =~= heads@);
    (needs, out)
}

/// The summary that lists a version control package with new commits.
pub fn vcs_update_summary(name: &str) -> (r: PackageSummary)
    ensures
        r.id.name@ == name@,
        r.id.source == Source::Aur,
        r.id.repo is None,
        r.version@ == "latest-commit"@,
        r.description@.len() == 0,
        r.installed,
        r.popular is None,
        r.last_updated is None,
{
    PackageSummary {
        id: PackageId { name: name.to_owned(), source: Source::Aur, repo: None },
        version: "latest-commit".to_owned(),
        description: String::new(),
        installed: true,
        popular: None,
        last_updated: None,
    }
}

/// The ref to ask `git ls-remote` for: `HEAD`, or the branch under `refs/heads/`.
pub fn ls_remote_refspec(branch: &str) -> (r: String)
    ensures
        r@ == if branch@ == "HEAD"@ {
            "HEAD"@
        } else {
            "refs/heads/"@ + branch@
        },
{
    if str_eq(branch, "HEAD") {
        "HEAD".to_owned()
    } else {
        join2("refs/heads/", branch)
    }
}

/// The commit in the output of `git ls-remote`: the trimmed text before the
/// first tab of the first line, when that is not empty.
pub open spec fn spec_ls_remote_head(out: Seq<char>) -> Option<Seq<char>> {
    let ls = lines(out);
    if ls.len() == 0 {
        None
    } else {
        let h = trim(ls[0].take(index_of(ls[0], '\t')));
        if h.len() > 0 {
            Some(h)
        } else {
            None
        }
    }
}

/// Reads the commit from the output of `git ls-remote`.
pub fn parse_ls_remote(out: &str) -> (r: Option<String>)
    ensures
        match r {
            Some(h) => spec_ls_remote_head(out@) == Some(h@),
            None => spec_ls_remote_head(out@) is None,
        },
{
    let ls = lines_of(&chars_of(out));
    if ls.len() == 0 {
        return None;
    }
    let first = &ls[0];
    let k = find_char_from(first, 0, '\t');
    assert(first@.skip(0) =~= first@);
    let h = trim_chars(&sub_vec(first, 0, k));
    assert(first@.subrange(0, k as int) =~= first@.take(k as int));
    if h.len() > 0 {
        Some(string_from_chars(&h))
    } else {
        None
    }
}

// ---------------------------------------------------------------------------
// Building and installing
// ---------------------------------------------------------------------------

/// Whether a package has to be built: always when no version is wanted;
/// otherwise unless `pacman -Q` ran (its output `Some`) and its trimmed output
/// mentions the version.
pub fn needs_build(version: &str, query_output: &Option<String>) -> (r: bool)
    ensures
        r == (version@.len() == 0 || match query_output {
            Some(o) => !contains(trim(o@), version@),
            None => true,
        }),
{
    if version.is_empty() {
        return true;
    }
    match query_output {
        Some(o) => !contains_chars(&trim_str(o.as_str()), &chars_of(version)),
        None => true,
    }
}

/// A file that `makepkg` built for `name`: its extension is `zst` and its
/// stem starts with the name and a hyphen.
pub open spec fn spec_is_built_package(name: Seq<char>, file_name: Seq<char>) -> bool {
    &&& crate::executor::name_extension(file_name) == Some("zst"@)
    &&& starts_with(crate::executor::name_stem(file_name), name + "-"@)
}

/// Whether the file `file_name` in the build directory is the package built for `name`.
pub fn is_built_package(name: &str, file_name: &str) -> (r: bool)
    ensures
        r == spec_is_built_package(name@, file_name@),
{
    let f = chars_of(file_name);
    let ext_ok = match crate::executor::name_extension_of(&f) {
        Some(e) => crate::text::eq_chars(&e, &chars_of("zst")),
        None => false,
    };
    if !ext_ok {
        return false;
    }
    let prefix = chars_of(join2(name, "-").as_str());
    starts_with_chars(&crate::executor::name_stem_of(&f), &prefix)
}

/// The URL of a package base's git repository.
pub fn clone_url(pkgbase: &str) -> (r: String)
    ensures
        r@ == "https://aur.archlinux.org/"@ + pkgbase@ + ".git"@,
{
    join3("https://aur.archlinux.org/", pkgbase, ".git")
}

/// The log line before cloning.
pub fn cloning_log(pkgbase: &str) -> (r: String)
    ensures
        r@ == "cloning "@ + pkgbase@ + ".git"@,
{
    join3("cloning ", pkgbase, ".git")
}

/// The log line before installing the missing dependencies.
pub fn missing_deps_log(missing: &Vec<String>) -> (r: String)
    ensures
        r@ == "installing deps: "@ + joined(views(missing@), ", "@),
{
    join2("installing deps: ", join_all(missing, ", ").as_str())
}

/// The warning when the dependency install exited unsuccessfully (`-1` when it had no exit code).
pub fn dep_exit_log(code: Option<i32>) -> (r: String)
    ensures
        r@ == "dep install exited with code "@ + signed_decimal(
            match code {
                Some(c) => c as int,
                None => -1,
            },
        ),
{
    let c: i32 = match code {
        Some(c) => c,
        None => -1,
    };
    join2("dep install exited with code ", i64_text(c as i64).as_str())
}

/// The log line before `makepkg` runs.
pub fn makepkg_log(name: &str) -> (r: String)
    ensures
        r@ == "running makepkg for "@ + name@,
{
    join2("running makepkg for ", name)
}

/// The log line before installing the built packages: their count and file names.
pub fn install_batch_log(count: usize, file_names: &Vec<String>) -> (r: String)
    ensures
        r@ == "installing "@ + decimal(count as nat) + " package(s): "@ + joined(views(file_names@), ", "@),
{
    let n = u64_text(count as u64);
    let names = join_all(file_names, ", ");
    join3(join2("installing ", n.as_str()).as_str(), " package(s): ", names.as_str())
}

/// The error when `pacman -U` failed, with its trimmed error output when there is some.
pub fn install_failure(stderr: &str) -> (e: Error)
    ensures
        e matches Error::Priv(m) && m@ == if trim(stderr@).len() == 0 {
            "pacman -U failed: see log"@
        } else {
            "pacman -U failed: "@ + trim(stderr@)
        },
{
    let t = trim_str(stderr);
    if t.len() == 0 {
        Error::Priv("pacman -U failed: see log".to_owned())
    } else {
        Error::Priv(join2("pacman -U failed: ", string_from_chars(&t).as_str()))
    }
}

/// The log line before removing.
pub fn remove_log(name: &str) -> (r: String)
    ensures
        r@ == "removing "@ + name@,
{
    join2("removing ", name)
}

/// The error when the removal failed, with the trimmed error output.
pub fn remove_failure(stderr: &str) -> (e: Error)
    ensures
        e matches Error::Priv(m) && m@ == "remove failed: "@ + trim(stderr@),
{
    Error::Priv(join2("remove failed: ", string_from_chars(&trim_str(stderr)).as_str()))
}

// ---------------------------------------------------------------------------
// A batch of packages to build
// ---------------------------------------------------------------------------

/// A package of the batch, with what its `.SRCINFO` says it needs and conflicts with.
pub fn prepared_package(id: PackageId, version: &str, srcinfo: &str) -> (p: PreparedPkg)
    ensures
        p.id == id,
        p.version@ == version@,
        crate::srcinfo::strictly_sorted(p.deps@),
        forall|t: Seq<char>|
            #[trigger] has_text(p.deps@, t) <==> crate::srcinfo::collect_deps(lines(srcinfo@)).contains(t),
        views(p.conflicts@) == crate::srcinfo::collect_conflicts(lines(srcinfo@)),
{
    let deps = parse_srcinfo_deps(srcinfo);
    let conflicts = parse_conflicts(srcinfo);
    proof {
        assert(views(conflicts@) =~= crate::srcinfo::collect_conflicts(lines(srcinfo@)));
    }
    PreparedPkg { id, version: version.to_owned(), deps, conflicts }
}

/// Some package of the batch has the name `name`.
pub open spec fn in_batch(pkgs: Seq<PreparedPkg>, name: Seq<char>) -> bool {
    exists|i: int| 0 <= i < pkgs.len() && #[trigger] pkgs[i].id.name@ == name
}

/// The conflicts of one package to report: `(package, conflict, whether the
/// conflicting package is in the batch)`, leaving out a package's conflict with itself.
pub open spec fn checks_of(pkgs: Seq<PreparedPkg>, p: PreparedPkg, cs: Seq<String>) -> Seq<(Seq<char>, Seq<char>, bool)>
    decreases cs.len(),
{
    if cs.len() == 0 {
        seq![]
    } else {
        let rest = checks_of(pkgs, p, cs.drop_last());
        let c = cs.last()@;
        if c == p.id.name@ {
            rest
        } else {
            rest.push((p.id.name@, c, in_batch(pkgs, c)))
        }
    }
}

/// The conflict checks of the first packages of the batch, package by package.
pub open spec fn all_checks(pkgs: Seq<PreparedPkg>, upto: Seq<PreparedPkg>) -> Seq<(Seq<char>, Seq<char>, bool)>
    decreases upto.len(),
{
    if upto.len() == 0 {
        seq![]
    } else {
        all_checks(pkgs, upto.drop_last()) + checks_of(pkgs, upto.last(), upto.last().conflicts@)
    }
}

/// One conflict to report, and whether it is within the batch; whether the
/// conflicting package is installed is asked of pacman.
pub struct ConflictCheck {
    pub package: String,
    pub conflict: String,
    pub in_batch: bool,
}

pub open spec fn check_views(v: Seq<ConflictCheck>) -> Seq<(Seq<char>, Seq<char>, bool)> {
    v.map_values(|c: ConflictCheck| (c.package@, c.conflict@, c.in_batch))
}

fn in_batch_exec(pkgs: &Vec<PreparedPkg>, name: &str) -> (r: bool)
    ensures
        r == in_batch(pkgs@, name@),
{
    let mut i: usize = 0;
    while i < pkgs.len()
        invariant
            i <= pkgs.len(),
            forall|j: int| 0 <= j < i ==> pkgs@[j].id.name@ != name@,
        decreases pkgs.len() - i,
    {
        if str_eq(pkgs[i].id.name.as_str(), name) {
            return true;
        }
        i = i + 1;
    }
    false
}

/// The conflicts that a batch of packages declares, in order, each with
/// whether the conflicting package is part of the batch.
pub fn conflict_checks(pkgs: &Vec<PreparedPkg>) -> (r: Vec<ConflictCheck>)
    ensures
        check_views(r@) == all_checks(pkgs@, pkgs@),
{
    let mut out: Vec<ConflictCheck> = Vec::new();
    let mut i: usize = 0;
    while i < pkgs.len()
        invariant
            i <= pkgs.len(),
            check_views(out@) == all_checks(pkgs@, pkgs@.take(i as int)),
        decreases pkgs.len() - i,
    {
        proof {
            assert(pkgs@.take(i + 1).drop_last() =~= pkgs@.take(i as int));
            assert(pkgs@.take(i + 1).last() == pkgs@[i as int]);
        }
        let p = &pkgs[i];
        let ghost base = check_views(out@);
        let mut k: usize = 0;
        while k < p.conflicts.len()
            invariant
                k <= p.conflicts.len(),
                p == pkgs@[i as int],
                check_views(out@) == base + checks_of(pkgs@, *p, p.conflicts@.take(k as int)),
            decreases p.conflicts.len() - k,
        {
            proof {
                assert(p.conflicts@.take(k + 1).drop_last() =~= p.conflicts@.take(k as int));
            }
            let c = p.conflicts[k].as_str();
            if !str_eq(c, p.id.name.as_str()) {
                let b = in_batch_exec(pkgs, c);
                let ghost o0 = out@;
                out.push(ConflictCheck { package: p.id.name.clone(), conflict: c.to_owned(), in_batch: b });
                assert(check_views(out@) =~= check_views(o0).push((p.id.name@, c@, b)));
            }
            k = k + 1;
        }
        proof {
            assert(p.conflicts@.take(p.conflicts@.len() as int) =~= p.conflicts@);
        }
        i = i + 1;
    }
    assert(pkgs@.take(pkgs.len() as int) =~= pkgs@);
    out
}

/// The warning for two packages of one batch that conflict.
pub fn batch_conflict_log(package: &str, conflict: &str) -> (r: String)
    ensures
        r@ == "conflict: "@ + package@ + " and "@ + conflict@ + " in same batch"@,
{
    join3(join3("conflict: ", package, " and ").as_str(), conflict, " in same batch")
}

/// The warning for a package that conflicts with an installed one.
pub fn installed_conflict_log(package: &str, conflict: &str) -> (r: String)
    ensures
        r@ == "conflict: "@ + package@ + " conflicts with installed "@ + conflict@,
{
    join3(join2("conflict: ", package).as_str(), " conflicts with installed ", conflict)
}

} // verus!
