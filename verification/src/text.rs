//! Character-level text handling shared by the parsers of this crate.
//!
//! Strings are modelled by their view, a `Seq<char>`. The executable helpers
//! work on `Vec<char>` and are proved against the spec functions below, which
//! follow the documented behaviour of the corresponding `str` methods.
use vstd::prelude::*;
use vstd::utf8::*;

verus! {

// ---------------------------------------------------------------------------
// Spec model
// ---------------------------------------------------------------------------

/// Unicode `White_Space` (what `char::is_whitespace` and `str::trim` use).
pub open spec fn is_ws(c: char) -> bool {
    let u = c as u32;
    ||| 0x09 <= u <= 0x0D
    ||| u == 0x20
    ||| u == 0x85
    ||| u == 0xA0
    ||| u == 0x1680
    ||| 0x2000 <= u <= 0x200A
    ||| u == 0x2028
    ||| u == 0x2029
    ||| u == 0x202F
    ||| u == 0x205F
    ||| u == 0x3000
}

pub open spec fn trim_start(s: Seq<char>) -> Seq<char>
    decreases s.len(),
{
    if s.len() > 0 && is_ws(s[0]) {
        trim_start(s.drop_first())
    } else {
        s
    }
}

pub open spec fn trim_end(s: Seq<char>) -> Seq<char>
    decreases s.len(),
{
    if s.len() > 0 && is_ws(s.last()) {
        trim_end(s.drop_last())
    } else {
        s
    }
}

/// `str::trim`: white space removed at both ends.
pub open spec fn trim(s: Seq<char>) -> Seq<char> {
    trim_end(trim_start(s))
}

pub open spec fn starts_with(s: Seq<char>, p: Seq<char>) -> bool {
    p.len() <= s.len() && s.subrange(0, p.len() as int) == p
}

pub open spec fn ends_with(s: Seq<char>, p: Seq<char>) -> bool {
    p.len() <= s.len() && s.subrange(s.len() - p.len(), s.len() as int) == p
}

/// `p` occurs in `s` at position `i`.
pub open spec fn occurs_at(s: Seq<char>, p: Seq<char>, i: int) -> bool {
    0 <= i && i + p.len() <= s.len() && s.subrange(i, i + p.len()) == p
}

pub open spec fn contains(s: Seq<char>, p: Seq<char>) -> bool {
    exists|i: int| occurs_at(s, p, i)
}

/// Position of the first occurrence of `c` in `s`, or `s.len()` when there is none.
pub open spec fn index_of(s: Seq<char>, c: char) -> int
    decreases s.len(),
{
    if s.len() == 0 {
        0
    } else if s[0] == c {
        0
    } else {
        1 + index_of(s.drop_first(), c)
    }
}

/// `str::split(c)`: the pieces between occurrences of `c` (always at least one piece).
pub open spec fn split(s: Seq<char>, c: char) -> Seq<Seq<char>>
    decreases s.len(),
{
    let k = index_of(s, c);
    if k >= s.len() {
        seq![s]
    } else {
        proof {
            lemma_index_of(s, c);
        }
        seq![s.take(k)].add(split(s.skip(k + 1), c))
    }
}

/// One line as `str::lines` yields it: the text before `\n`, without a
/// final `\r` when the line did end in `\n`.
pub open spec fn line_body(s: Seq<char>, k: int) -> Seq<char> {
    if k < s.len() && k > 0 && s[k - 1] == '\r' {
        s.take(k - 1)
    } else {
        s.take(k)
    }
}

/// `str::lines`.
pub open spec fn lines(s: Seq<char>) -> Seq<Seq<char>>
    decreases s.len(),
{
    if s.len() == 0 {
        seq![]
    } else {
        let k = index_of(s, '\n');
        if k >= s.len() {
            seq![s]
        } else {
            proof {
                lemma_index_of(s, '\n');
            }
            seq![line_body(s, k)].add(lines(s.skip(k + 1)))
        }
    }
}

pub open spec fn ascii_lower(c: char) -> int {
    let u = c as int;
    if 0x41 <= u <= 0x5A {
        u + 32
    } else {
        u
    }
}

/// `str::eq_ignore_ascii_case`.
pub open spec fn eq_ignore_ascii_case(a: Seq<char>, b: Seq<char>) -> bool {
    a.len() == b.len() && forall|i: int| 0 <= i < a.len() ==> ascii_lower(#[trigger] a[i]) == ascii_lower(b[i])
}

/// Number of bytes of the UTF-8 encoding of one char.
pub open spec fn char_utf8_len(c: char) -> nat {
    let u = c as u32;
    if has_width_1_encoding(u) {
        1
    } else if has_width_2_encoding(u) {
        2
    } else if has_width_3_encoding(u) {
        3
    } else {
        4
    }
}

/// Number of bytes of the UTF-8 encoding of a text (what `str::len` returns).
pub open spec fn utf8_len(s: Seq<char>) -> nat
    decreases s.len(),
{
    if s.len() == 0 {
        0
    } else {
        char_utf8_len(s[0]) + utf8_len(s.drop_first())
    }
}

// ---------------------------------------------------------------------------
// Lemmas
// ---------------------------------------------------------------------------

pub proof fn lemma_utf8_len(s: Seq<char>)
    ensures
        encode_utf8(s).len() == utf8_len(s),
    decreases s.len(),
{
    if s.len() > 0 {
        lemma_utf8_len(s.drop_first());
    }
}

/// The encoded length of two texts one after the other is the sum of theirs.
pub proof fn lemma_utf8_len_concat(a: Seq<char>, b: Seq<char>)
    ensures
        utf8_len(a + b) == utf8_len(a) + utf8_len(b),
    decreases a.len(),
{
    if a.len() > 0 {
        assert((a + b).drop_first() =~= a.drop_first() + b);
        lemma_utf8_len_concat(a.drop_first(), b);
    } else {
        assert(a + b =~= b);
    }
}

pub proof fn lemma_utf8_len_small(s: Seq<char>)
    ensures
        utf8_len(s) >= s.len(),
        s.len() == 1 && (s[0] as u32) < 0x80 ==> utf8_len(s) == 1,
        s.len() == 1 && (s[0] as u32) >= 0x80 ==> utf8_len(s) >= 2,
    decreases s.len(),
{
    if s.len() > 0 {
        lemma_utf8_len_small(s.drop_first());
    }
}

pub proof fn lemma_index_of(s: Seq<char>, c: char)
    ensures
        0 <= index_of(s, c) <= s.len(),
        forall|j: int| 0 <= j < index_of(s, c) ==> s[j] != c,
        index_of(s, c) < s.len() ==> s[index_of(s, c)] == c,
    decreases s.len(),
{
    if s.len() > 0 && s[0] != c {
        lemma_index_of(s.drop_first(), c);
        assert forall|j: int| 0 <= j < index_of(s, c) implies s[j] != c by {
            if j > 0 {
                assert(s[j] == s.drop_first()[j - 1]);
            }
        }
    }
}

/// `index_of` is determined by the two facts that characterise it.
pub proof fn lemma_index_of_unique(s: Seq<char>, c: char, k: int)
    requires
        0 <= k <= s.len(),
        forall|j: int| 0 <= j < k ==> s[j] != c,
        k < s.len() ==> s[k] == c,
    ensures
        index_of(s, c) == k,
{
    lemma_index_of(s, c);
    let m = index_of(s, c);
    if m < k {
        assert(s[m] == c);
    } else if k < m {
        assert(s[k] != c);
    }
}

pub proof fn lemma_trim_start_skip(s: Seq<char>, i: int)
    requires
        0 <= i <= s.len(),
        forall|j: int| 0 <= j < i ==> is_ws(#[trigger] s[j]),
    ensures
        trim_start(s) == trim_start(s.skip(i)),
    decreases i,
{
    if i > 0 {
        assert(is_ws(s[0]));
        let t = s.drop_first();
        assert forall|j: int| 0 <= j < i - 1 implies is_ws(#[trigger] t[j]) by {
            assert(t[j] == s[j + 1]);
        }
        lemma_trim_start_skip(t, i - 1);
        assert(t.skip(i - 1) =~= s.skip(i));
        assert(trim_start(s) == trim_start(t));
    } else {
        assert(s.skip(0) =~= s);
    }
}

pub proof fn lemma_trim_end_take(s: Seq<char>, j: int)
    requires
        0 <= j <= s.len(),
        forall|k: int| j <= k < s.len() ==> is_ws(#[trigger] s[k]),
    ensures
        trim_end(s) == trim_end(s.take(j)),
    decreases s.len() - j,
{
    if j < s.len() {
        assert(is_ws(s.last()));
        assert(s.drop_last().take(j) =~= s.take(j));
        lemma_trim_end_take(s.drop_last(), j);
    } else {
        assert(s.take(j) =~= s);
    }
}

// ---------------------------------------------------------------------------
// Executable helpers
// ---------------------------------------------------------------------------

/// The chars of a string.
pub fn chars_of(s: &str) -> (v: Vec<char>)
    ensures
        v@ == s@,
{
    let mut v: Vec<char> = Vec::new();
    for c in it: s.chars()
        invariant
            v@ == it.seq().take(it.index() as int),
            it.seq() == s@,
    {
        v.push(c);
        assert(it.seq().take(it.index() + 1) =~= v@);
    }
    v
}

/// Builds a `String` from its chars (`FromIterator<char>` for `String`).
#[verifier::external_body]
pub(crate) fn string_from_chars(v: &Vec<char>) -> (s: String)
    ensures
        s@ == v@,
{
    v.iter().collect()
}

/// A copy of `v[from..to]`.
pub fn sub_vec(v: &Vec<char>, from: usize, to: usize) -> (r: Vec<char>)
    requires
        from <= to <= v.len(),
    ensures
        r@ == v@.subrange(from as int, to as int),
{
    let mut r: Vec<char> = Vec::new();
    let mut i = from;
    while i < to
        invariant
            from <= i <= to <= v.len(),
            r@ == v@.subrange(from as int, i as int),
        decreases to - i,
    {
        r.push(v[i]);
        assert(r@ =~= v@.subrange(from as int, i + 1));
        i = i + 1;
    }
    r
}

/// `a` followed by `b`.
pub fn concat(a: &Vec<char>, b: &Vec<char>) -> (r: Vec<char>)
    ensures
        r@ == a@ + b@,
{
    let mut r = a.clone();
    let mut i: usize = 0;
    while i < b.len()
        invariant
            i <= b.len(),
            r@ == a@ + b@.take(i as int),
        decreases b.len() - i,
    {
        r.push(b[i]);
        assert(a@ + b@.take(i + 1) =~= r@);
        i = i + 1;
    }
    assert(b@.take(b.len() as int) =~= b@);
    r
}

pub fn is_ws_char(c: char) -> (b: bool)
    ensures
        b == is_ws(c),
{
    let u = c as u32;
    (0x09 <= u && u <= 0x0D) || u == 0x20 || u == 0x85 || u == 0xA0 || u == 0x1680 || (0x2000
        <= u && u <= 0x200A) || u == 0x2028 || u == 0x2029 || u == 0x202F || u == 0x205F || u
        == 0x3000
}

/// `str::trim` on chars.
pub fn trim_chars(v: &Vec<char>) -> (r: Vec<char>)
    ensures
        r@ == trim(v@),
{
    let n = v.len();
    let mut i: usize = 0;
    while i < n && is_ws_char(v[i])
        invariant
            i <= n == v.len(),
            forall|j: int| 0 <= j < i ==> is_ws(#[trigger] v@[j]),
        decreases n - i,
    {
        i = i + 1;
    }
    proof {
        lemma_trim_start_skip(v@, i as int);
        assert(trim_start(v@.skip(i as int)) == v@.skip(i as int));
    }
    let mut j: usize = n;
    while j > i && is_ws_char(v[j - 1])
        invariant
            i <= j <= n == v.len(),
            forall|k: int| j <= k < n ==> is_ws(#[trigger] v@[k]),
        decreases j,
    {
        j = j - 1;
    }
    proof {
        let t = v@.skip(i as int);
        assert forall|k: int| j - i <= k < t.len() implies is_ws(#[trigger] t[k]) by {
            assert(t[k] == v@[k + i]);
        }
        lemma_trim_end_take(t, j - i);
        let u = t.take(j - i);
        assert(u =~= v@.subrange(i as int, j as int));
        if u.len() > 0 {
            assert(u.last() == v@[j - 1]);
        }
    }
    sub_vec(v, i, j)
}

/// `str::trim` on a string.
pub fn trim_str(s: &str) -> (r: Vec<char>)
    ensures
        r@ == trim(s@),
{
    let v = chars_of(s);
    trim_chars(&v)
}

/// Whether `p` occurs in `v` at `pos`.
pub fn matches_at(v: &Vec<char>, pos: usize, p: &Vec<char>) -> (b: bool)
    ensures
        b == occurs_at(v@, p@, pos as int),
{
    if pos > v.len() || p.len() > v.len() - pos {
        return false;
    }
    let mut k: usize = 0;
    while k < p.len()
        invariant
            pos + p.len() <= v.len(),
            k <= p.len(),
            forall|m: int| 0 <= m < k ==> v@[pos + m] == p@[m],
        decreases p.len() - k,
    {
        if v[pos + k] != p[k] {
            assert(v@.subrange(pos as int, pos + p.len())[k as int] != p@[k as int]);
            return false;
        }
        k = k + 1;
    }
    assert(v@.subrange(pos as int, pos + p.len()) =~= p@);
    true
}

pub fn starts_with_chars(v: &Vec<char>, p: &Vec<char>) -> (b: bool)
    ensures
        b == starts_with(v@, p@),
{
    matches_at(v, 0, p)
}

pub fn ends_with_chars(v: &Vec<char>, p: &Vec<char>) -> (b: bool)
    ensures
        b == ends_with(v@, p@),
{
    if p.len() > v.len() {
        false
    } else {
        matches_at(v, v.len() - p.len(), p)
    }
}

/// First position at which `p` occurs in `v`.
pub fn find_sub(v: &Vec<char>, p: &Vec<char>) -> (r: Option<usize>)
    ensures
        match r {
            Some(i) => occurs_at(v@, p@, i as int) && forall|j: int|
                0 <= j < i ==> !occurs_at(v@, p@, j),
            None => !contains(v@, p@),
        },
{
    if p.len() > v.len() {
        return None;
    }
    let last = v.len() - p.len();
    let mut i: usize = 0;
    loop
        invariant_except_break
            i <= last,
            last + p.len() == v.len(),
            forall|j: int| 0 <= j < i ==> !occurs_at(v@, p@, j),
        ensures
            forall|j: int| 0 <= j <= last ==> !occurs_at(v@, p@, j),
        decreases last - i,
    {
        if matches_at(v, i, p) {
            return Some(i);
        }
        if i == last {
            break;
        }
        i = i + 1;
    }
    None
}

pub fn contains_chars(v: &Vec<char>, p: &Vec<char>) -> (b: bool)
    ensures
        b == contains(v@, p@),
{
    match find_sub(v, p) {
        Some(_) => true,
        None => false,
    }
}

/// Position of the first `c` in `v` at or after `from`, or `v.len()`.
pub fn find_char_from(v: &Vec<char>, from: usize, c: char) -> (k: usize)
    requires
        from <= v.len(),
    ensures
        from <= k <= v.len(),
        k - from == index_of(v@.skip(from as int), c),
        forall|j: int| from <= j < k ==> v@[j] != c,
        k < v.len() ==> v@[k as int] == c,
{
    let mut k = from;
    while k < v.len() && v[k] != c
        invariant
            from <= k <= v.len(),
            forall|j: int| from <= j < k ==> v@[j] != c,
        decreases v.len() - k,
    {
        k = k + 1;
    }
    proof {
        let t = v@.skip(from as int);
        lemma_index_of_unique(t, c, k - from);
    }
    k
}

pub proof fn lemma_split_step(s: Seq<char>, c: char, k: int)
    requires
        0 <= k < s.len(),
        index_of(s, c) == k,
    ensures
        split(s, c) == seq![s.take(k)] + split(s.skip(k + 1), c),
{
}

/// `str::split(c)` on chars.
pub fn split_chars(v: &Vec<char>, c: char) -> (r: Vec<Vec<char>>)
    ensures
        r@.len() == split(v@, c).len(),
        forall|i: int| 0 <= i < r@.len() ==> #[trigger] r@[i]@ == split(v@, c)[i],
{
    let mut out: Vec<Vec<char>> = Vec::new();
    let mut pos: usize = 0;
    assert(v@.skip(0) =~= v@);
    loop
        invariant_except_break
            pos <= v.len(),
            forall|i: int| 0 <= i < out@.len() ==> #[trigger] out@[i]@ == split(v@, c)[i],
            out@.len() + split(v@.skip(pos as int), c).len() == split(v@, c).len(),
            forall|i: int|
                0 <= i < split(v@.skip(pos as int), c).len() ==> #[trigger] split(
                    v@.skip(pos as int),
                    c,
                )[i] == split(v@, c)[out@.len() + i],
        ensures
            out@.len() == split(v@, c).len(),
            forall|i: int| 0 <= i < out@.len() ==> #[trigger] out@[i]@ == split(v@, c)[i],
        decreases v.len() - pos,
    {
        let k = find_char_from(v, pos, c);
        let piece = sub_vec(v, pos, k);
        let ghost rest = v@.skip(pos as int);
        if k >= v.len() {
            proof {
                lemma_index_of(rest, c);
                assert(split(rest, c) == seq![rest]);
                assert(piece@ =~= rest);
            }
            let ghost old_out = out@;
            out.push(piece);
            proof {
                assert forall|i: int| 0 <= i < out@.len() implies #[trigger] out@[i]@ == split(v@, c)[i] by {
                    if i < old_out.len() {
                        assert(out@[i] == old_out[i]);
                    } else {
                        assert(split(rest, c)[0] == split(v@, c)[old_out.len() as int]);
                    }
                }
            }
            break;
        }
        proof {
            let kk = k - pos;
            lemma_split_step(rest, c, kk);
            assert(rest.take(kk) =~= piece@);
            assert(rest.skip(kk + 1) =~= v@.skip(k + 1));
            assert(split(rest, c)[0] == piece@);
            assert forall|i: int|
                0 <= i < split(v@.skip(k + 1), c).len() implies #[trigger] split(
                v@.skip(k + 1),
                c,
            )[i] == split(v@, c)[out@.len() + 1 + i] by {
                assert(split(rest, c)[i + 1] == split(v@.skip(k + 1), c)[i]);
            }
        }
        let ghost old_out = out@;
        out.push(piece);
        proof {
            assert forall|i: int| 0 <= i < out@.len() implies #[trigger] out@[i]@ == split(v@, c)[i] by {
                if i < old_out.len() {
                    assert(out@[i] == old_out[i]);
                } else {
                    assert(split(rest, c)[0] == split(v@, c)[old_out.len() as int]);
                }
            }
        }
        pos = k + 1;
    }
    out
}

pub proof fn lemma_lines_step(s: Seq<char>, k: int)
    requires
        0 <= k < s.len(),
        index_of(s, '\n') == k,
    ensures
        lines(s) == seq![line_body(s, k)] + lines(s.skip(k + 1)),
{
}

/// `str::lines` on chars.
pub fn lines_of(v: &Vec<char>) -> (r: Vec<Vec<char>>)
    ensures
        r@.len() == lines(v@).len(),
        forall|i: int| 0 <= i < r@.len() ==> #[trigger] r@[i]@ == lines(v@)[i],
{
    let mut out: Vec<Vec<char>> = Vec::new();
    let mut pos: usize = 0;
    assert(v@.skip(0) =~= v@);
    while pos < v.len()
        invariant
            pos <= v.len(),
            forall|i: int| 0 <= i < out@.len() ==> #[trigger] out@[i]@ == lines(v@)[i],
            out@.len() + lines(v@.skip(pos as int)).len() == lines(v@).len(),
            forall|i: int|
                0 <= i < lines(v@.skip(pos as int)).len() ==> #[trigger] lines(
                    v@.skip(pos as int),
                )[i] == lines(v@)[out@.len() + i],
        decreases v.len() - pos,
    {
        let k = find_char_from(v, pos, '\n');
        let ghost rest = v@.skip(pos as int);
        let ghost kk = k - pos;
        if k >= v.len() {
            let piece = sub_vec(v, pos, k);
            proof {
                lemma_index_of(rest, '\n');
                assert(lines(rest) == seq![rest]);
                assert(piece@ =~= rest);
                assert(v@.skip(k as int) =~= Seq::<char>::empty());
            }
            let ghost old_out = out@;
            out.push(piece);
            proof {
                assert forall|i: int| 0 <= i < out@.len() implies #[trigger] out@[i]@ == lines(v@)[i] by {
                    if i < old_out.len() {
                        assert(out@[i] == old_out[i]);
                    } else {
                        assert(lines(rest)[0] == lines(v@)[old_out.len() as int]);
                    }
                }
            }
            pos = k;
        } else {
            let end = if k > pos && v[k - 1] == '\r' {
                k - 1
            } else {
                k
            };
            let piece = sub_vec(v, pos, end);
            proof {
                lemma_lines_step(rest, kk);
                assert(line_body(rest, kk) =~= piece@);
                assert(rest.skip(kk + 1) =~= v@.skip(k + 1));
                assert(lines(rest)[0] == piece@);
                assert forall|i: int|
                    0 <= i < lines(v@.skip(k + 1)).len() implies #[trigger] lines(
                    v@.skip(k + 1),
                )[i] == lines(v@)[out@.len() + 1 + i] by {
                    assert(lines(rest)[i + 1] == lines(v@.skip(k + 1))[i]);
                }
            }
            let ghost old_out = out@;
            out.push(piece);
            proof {
                assert forall|i: int| 0 <= i < out@.len() implies #[trigger] out@[i]@ == lines(v@)[i] by {
                    if i < old_out.len() {
                        assert(out@[i] == old_out[i]);
                    } else {
                        assert(lines(rest)[0] == lines(v@)[old_out.len() as int]);
                    }
                }
            }
            pos = k + 1;
        }
    }
    proof {
        assert(v@.skip(pos as int).len() == 0);
        assert(lines(v@.skip(pos as int)).len() == 0);
    }
    out
}

pub fn ascii_lower_char(c: char) -> (r: u32)
    ensures
        r == ascii_lower(c),
{
    let u = c as u32;
    if 0x41 <= u && u <= 0x5A {
        u + 32
    } else {
        u
    }
}

pub fn eq_ignore_ascii_case_chars(a: &Vec<char>, b: &Vec<char>) -> (r: bool)
    ensures
        r == eq_ignore_ascii_case(a@, b@),
{
    if a.len() != b.len() {
        return false;
    }
    let mut i: usize = 0;
    while i < a.len()
        invariant
            a.len() == b.len(),
            i <= a.len(),
            forall|j: int| 0 <= j < i ==> ascii_lower(#[trigger] a@[j]) == ascii_lower(b@[j]),
        decreases a.len() - i,
    {
        if ascii_lower_char(a[i]) != ascii_lower_char(b[i]) {
            return false;
        }
        i = i + 1;
    }
    true
}

} // verus!

verus! {

pub fn eq_chars(a: &Vec<char>, b: &Vec<char>) -> (r: bool)
    ensures
        r == (a@ == b@),
{
    if a.len() != b.len() {
        return false;
    }
    let r = matches_at(a, 0, b);
    proof {
        if r {
            assert(a@.subrange(0, b@.len() as int) =~= a@);
        } else {
            assert(a@.subrange(0, a@.len() as int) =~= a@);
        }
    }
    r
}

/// `a == b` for string slices.
pub fn str_eq(a: &str, b: &str) -> (r: bool)
    ensures
        r == (a@ == b@),
{
    let ca = chars_of(a);
    let cb = chars_of(b);
    eq_chars(&ca, &cb)
}

/// `a` followed by `b`, as a new `String`.
pub fn join2(a: &str, b: &str) -> (r: String)
    ensures
        r@ == a@ + b@,
{
    let mut s = a.to_owned();
    s.append(b);
    s
}

/// `a`, `b` and `c` one after the other.
pub fn join3(a: &str, b: &str, c: &str) -> (r: String)
    ensures
        r@ == a@ + b@ + c@,
{
    let mut s = a.to_owned();
    s.append(b);
    s.append(c);
    s
}

} // verus!

verus! {

/// Number of bytes of the UTF-8 encoding of `c` (`char::len_utf8`).
pub fn char_len_utf8(c: char) -> (n: usize)
    ensures
        n == char_utf8_len(c),
{
    proof {
        char_is_scalar(c);
    }
    let u = c as u32;
    if u < 0x80 {
        1
    } else if u < 0x800 {
        2
    } else if u < 0x10000 {
        3
    } else {
        4
    }
}

/// Whether the UTF-8 encoding of `v` has at least two bytes (`s.len() >= 2`).
pub fn utf8_len_at_least_2(v: &Vec<char>) -> (r: bool)
    ensures
        r == (utf8_len(v@) >= 2),
{
    proof {
        lemma_utf8_len_small(v@);
        if v@.len() == 1 {
            assert(v@.drop_first().len() == 0);
            assert(utf8_len(v@.drop_first()) == 0);
        }
    }
    v.len() >= 2 || (v.len() == 1 && (v[0] as u32) >= 0x80)
}

// ---------------------------------------------------------------------------
// Decimal numbers
// ---------------------------------------------------------------------------

/// The digit char for `d < 10`.
pub open spec fn digit(d: nat) -> char {
    if d == 0 {
        '0'
    } else if d == 1 {
        '1'
    } else if d == 2 {
        '2'
    } else if d == 3 {
        '3'
    } else if d == 4 {
        '4'
    } else if d == 5 {
        '5'
    } else if d == 6 {
        '6'
    } else if d == 7 {
        '7'
    } else if d == 8 {
        '8'
    } else {
        '9'
    }
}

/// The decimal text of `n`, as `Display` writes it.
pub open spec fn decimal(n: nat) -> Seq<char>
    decreases n,
{
    if n < 10 {
        seq![digit(n)]
    } else {
        decimal(n / 10).push(digit(n % 10))
    }
}

/// The decimal text of a signed number, with `-` before a negative one.
pub open spec fn signed_decimal(n: int) -> Seq<char> {
    if n < 0 {
        seq!['-'] + decimal((-n) as nat)
    } else {
        decimal(n as nat)
    }
}

fn digit_char(d: u64) -> (c: char)
    requires
        d < 10,
    ensures
        c == digit(d as nat),
{
    if d == 0 {
        '0'
    } else if d == 1 {
        '1'
    } else if d == 2 {
        '2'
    } else if d == 3 {
        '3'
    } else if d == 4 {
        '4'
    } else if d == 5 {
        '5'
    } else if d == 6 {
        '6'
    } else if d == 7 {
        '7'
    } else if d == 8 {
        '8'
    } else {
        '9'
    }
}

fn decimal_chars(n: u64) -> (v: Vec<char>)
    ensures
        v@ == decimal(n as nat),
    decreases n,
{
    if n < 10 {
        let mut v: Vec<char> = Vec::new();
        v.push(digit_char(n));
        assert(v@ =~= seq![digit(n as nat)]);
        v
    } else {
        let mut v = decimal_chars(n / 10);
        v.push(digit_char(n % 10));
        v
    }
}

/// `n.to_string()` for an unsigned number.
pub fn u64_text(n: u64) -> (s: String)
    ensures
        s@ == decimal(n as nat),
{
    string_from_chars(&decimal_chars(n))
}

/// `n.to_string()` for a signed number.
pub fn i64_text(n: i64) -> (s: String)
    ensures
        s@ == signed_decimal(n as int),
{
    if n < 0 {
        let m: u64 = (-(n as i128)) as u64;
        let mut v: Vec<char> = Vec::new();
        v.push('-');
        let d = decimal_chars(m);
        let r = concat(&v, &d);
        assert(v@ =~= seq!['-']);
        string_from_chars(&r)
    } else {
        string_from_chars(&decimal_chars(n as u64))
    }
}

/// What `str::to_lowercase` gives for a text.
pub uninterp spec fn lowercase(s: Seq<char>) -> Seq<char>;

/// `str::to_lowercase`; its result is named by `lowercase` of the text.
#[verifier::external_body]
pub(crate) fn to_lowercase(s: &str) -> (r: String)
    ensures
        r@ == lowercase(s@),
{
    s.to_lowercase()
}

} // verus!
