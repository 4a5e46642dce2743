//! Character-level text primitives: whitespace trimming, line splitting,
//! substring search, decimal formatting and integer parsing, together with
//! the few standard-library calls (lower-casing, alphanumeric test) that the
//! reply parsers rely on.

use vstd::prelude::*;

verus! {

// ---------------------------------------------------------------------------
// Standard-library calls whose behaviour is named rather than restated
// ---------------------------------------------------------------------------

/// What `str::to_lowercase` gives for a string (Unicode lower-case mapping).
pub uninterp spec fn lowercase_of(s: Seq<char>) -> Seq<char>;

/// ASCII lower-casing of one character.
pub open spec fn ascii_lower_char(c: char) -> char {
    if 'A' <= c && c <= 'Z' {
        ((c as int) + 32) as char
    } else {
        c
    }
}

pub open spec fn all_ascii(s: Seq<char>) -> bool {
    forall|i: int| 0 <= i < s.len() ==> (#[trigger] s[i] as u32) < 128
}

/// Lower-cases a string with `str::to_lowercase`.
///
/// Trusted: the result is named `lowercase_of` applied to the argument; for
/// text made only of ASCII characters it is the ASCII lower-casing (the
/// Unicode lower-case mapping of an ASCII character is its ASCII lower case,
/// and no context rule applies to ASCII).
#[verifier::external_body]
pub(crate) fn to_lowercase(s: &str) -> (r: String)
    ensures
        r@ == lowercase_of(s@),
        all_ascii(s@) ==> r@ == s@.map_values(|c: char| ascii_lower_char(c)),
{
    s.to_lowercase()
}

/// What `char::is_alphanumeric` gives for a character.
pub uninterp spec fn alphanumeric(c: char) -> bool;

/// Tests a character with `char::is_alphanumeric`.
///
/// Trusted: the result is named `alphanumeric(c)`; additionally, as the
/// documentation of `char::is_alphabetic`/`is_numeric` shows, ASCII letters
/// and digits are alphanumeric and every other ASCII character is not.
#[verifier::external_body]
pub(crate) fn is_alphanumeric(c: char) -> (r: bool)
    ensures
        r == alphanumeric(c),
        (c as u32) < 128 ==> (r <==> is_ascii_alnum(c)),
{
    c.is_alphanumeric()
}

/// The characters of a string slice, in order.
pub fn chars_of(s: &str) -> (r: Vec<char>)
    ensures
        r@ == s@,
{
    broadcast use vstd::string::group_string_axioms;

    let mut v: Vec<char> = Vec::new();
    for c in it: s.chars()
        invariant
            v@ == it.seq().subrange(0, it.index() as int),
    {
        v.push(c);
    }
    v
}

/// Builds a string from characters.
///
/// Trusted: collecting characters into a `String` keeps them in order.
#[verifier::external_body]
pub(crate) fn string_of(v: &[char]) -> (r: String)
    ensures
        r@ == v@,
{
    String::from_iter(v)
}

/// An owned copy of a string slice.
pub fn owned(s: &str) -> (r: String)
    ensures
        r@ == s@,
{
    s.to_owned()
}

/// Concatenation of two string slices.
pub fn concat_str(a: &str, b: &str) -> (r: String)
    ensures
        r@ == a@ + b@,
{
    let va = chars_of(a);
    let vb = chars_of(b);
    let mut v = va;
    let mut i: usize = 0;
    while i < vb.len()
        invariant
            0 <= i <= vb@.len(),
            v@ =~= a@ + vb@.subrange(0, i as int),
            vb@ == b@,
        decreases vb.len() - i,
    {
        v.push(vb[i]);
        i = i + 1;
    }
    assert(vb@.subrange(0, vb@.len() as int) =~= vb@);
    string_of(v.as_slice())
}

// ---------------------------------------------------------------------------
// Character classes
// ---------------------------------------------------------------------------

pub open spec fn is_ascii_alnum(c: char) -> bool {
    ('a' <= c && c <= 'z') || ('A' <= c && c <= 'Z') || ('0' <= c && c <= '9')
}

/// The Unicode `White_Space` property, as `char::is_whitespace` defines it.
pub open spec fn is_ws(c: char) -> bool {
    ||| ('\u{9}' <= c && c <= '\u{d}')
    ||| c == ' '
    ||| c == '\u{85}'
    ||| c == '\u{a0}'
    ||| c == '\u{1680}'
    ||| ('\u{2000}' <= c && c <= '\u{200a}')
    ||| c == '\u{2028}'
    ||| c == '\u{2029}'
    ||| c == '\u{202f}'
    ||| c == '\u{205f}'
    ||| c == '\u{3000}'
}

pub fn is_whitespace(c: char) -> (r: bool)
    ensures
        r == is_ws(c),
{
    ('\u{9}' <= c && c <= '\u{d}') || c == ' ' || c == '\u{85}' || c == '\u{a0}' || c == '\u{1680}'
        || ('\u{2000}' <= c && c <= '\u{200a}') || c == '\u{2028}' || c == '\u{2029}'
        || c == '\u{202f}' || c == '\u{205f}' || c == '\u{3000}'
}

pub open spec fn is_ascii_digit_char(c: char) -> bool {
    '0' <= c && c <= '9'
}

pub open spec fn digit_value(c: char) -> int {
    (c as int) - ('0' as int)
}

// ---------------------------------------------------------------------------
// Trimming
// ---------------------------------------------------------------------------

pub open spec fn trim_start(s: Seq<char>) -> Seq<char>
    decreases s.len(),
{
    if s.len() > 0 && is_ws(s[0]) {
        trim_start(s.drop_first())
    } else {
        s
    }
}

pub open spec fn trim_end(s: Seq<char>) -> Seq<char>
    decreases s.len(),
{
    if s.len() > 0 && is_ws(s.last()) {
        trim_end(s.drop_last())
    } else {
        s
    }
}

/// `str::trim`: leading and trailing whitespace removed.
pub open spec fn trim(s: Seq<char>) -> Seq<char> {
    trim_end(trim_start(s))
}

proof fn lemma_trim_start_skip(s: Seq<char>, i: int)
    requires
        0 <= i <= s.len(),
        forall|k: int| 0 <= k < i ==> is_ws(#[trigger] s[k]),
    ensures
        trim_start(s) == trim_start(s.subrange(i, s.len() as int)),
    decreases i,
{
    if i > 0 {
        assert(s.drop_first() =~= s.subrange(1, s.len() as int));
        let t = s.drop_first();
        assert forall|k: int| 0 <= k < i - 1 implies is_ws(#[trigger] t[k]) by {
            assert(t[k] == s[k + 1]);
        }
        lemma_trim_start_skip(t, i - 1);
        assert(t.subrange(i - 1, t.len() as int) =~= s.subrange(i, s.len() as int));
    } else {
        assert(s.subrange(0, s.len() as int) =~= s);
    }
}

proof fn lemma_trim_end_skip(s: Seq<char>, j: int)
    requires
        0 <= j <= s.len(),
        forall|k: int| j <= k < s.len() ==> is_ws(#[trigger] s[k]),
    ensures
        trim_end(s) == trim_end(s.subrange(0, j)),
    decreases s.len() - j,
{
    if j < s.len() {
        let t = s.drop_last();
        assert forall|k: int| j <= k < t.len() implies is_ws(#[trigger] t[k]) by {
            assert(t[k] == s[k]);
        }
        assert(is_ws(s[s.len() - 1]));
        lemma_trim_end_skip(t, j);
        assert(t.subrange(0, j) =~= s.subrange(0, j));
    } else {
        assert(s.subrange(0, j) =~= s);
    }
}

/// Removes leading and trailing whitespace, as `str::trim` does.
pub fn trim_chars(s: &[char]) -> (r: Vec<char>)
    ensures
        r@ == trim(s@),
{
    let n = s.len();
    let mut i: usize = 0;
    while i < n && is_whitespace(s[i])
        invariant
            0 <= i <= n,
            n == s@.len(),
            forall|k: int| 0 <= k < i ==> is_ws(#[trigger] s@[k]),
        decreases n - i,
    {
        i = i + 1;
    }
    proof {
        lemma_trim_start_skip(s@, i as int);
    }
    let ghost mid = s@.subrange(i as int, n as int);
    assert(trim_start(mid) == mid) by {
        if mid.len() > 0 {
            assert(mid[0] == s@[i as int]);
        }
    }
    let mut j: usize = n;
    while j > i && is_whitespace(s[j - 1])
        invariant
            i <= j <= n,
            n == s@.len(),
            forall|k: int| j <= k < n ==> is_ws(#[trigger] s@[k]),
        decreases j,
    {
        j = j - 1;
    }
    proof {
        let m = mid;
        assert forall|k: int| j - i <= k < m.len() implies is_ws(#[trigger] m[k]) by {
            assert(m[k] == s@[k + i]);
        }
        lemma_trim_end_skip(m, (j - i) as int);
        let m2 = m.subrange(0, (j - i) as int);
        if m2.len() > 0 {
            assert(m2.last() == s@[j - 1]);
        }
        assert(trim_end(m2) == m2);
        assert(m2 =~= s@.subrange(i as int, j as int));
    }
    let mut r: Vec<char> = Vec::new();
    let mut k: usize = i;
    while k < j
        invariant
            i <= k <= j <= n,
            n == s@.len(),
            r@ =~= s@.subrange(i as int, k as int),
        decreases j - k,
    {
        r.push(s[k]);
        k = k + 1;
    }
    r
}

/// Removes leading whitespace, as `str::trim_start` does.
pub fn trim_start_chars(s: &[char]) -> (r: Vec<char>)
    ensures
        r@ == trim_start(s@),
{
    let n = s.len();
    let mut i: usize = 0;
    while i < n && is_whitespace(s[i])
        invariant
            0 <= i <= n,
            n == s@.len(),
            forall|k: int| 0 <= k < i ==> is_ws(#[trigger] s@[k]),
        decreases n - i,
    {
        i = i + 1;
    }
    proof {
        lemma_trim_start_skip(s@, i as int);
    }
    let ghost mid = s@.subrange(i as int, n as int);
    assert(trim_start(mid) == mid) by {
        if mid.len() > 0 {
            assert(mid[0] == s@[i as int]);
        }
    }
    sub_chars(s, i, n)
}

/// Appends characters to a character vector.
pub fn append_chars(v: &mut Vec<char>, w: &[char])
    ensures
        final(v)@ == old(v)@ + w@,
{
    let mut i: usize = 0;
    while i < w.len()
        invariant
            0 <= i <= w@.len(),
            v@ =~= old(v)@ + w@.subrange(0, i as int),
        decreases w.len() - i,
    {
        v.push(w[i]);
        i = i + 1;
    }
    assert(w@.subrange(0, w@.len() as int) =~= w@);
}

/// `trim` on a string slice, giving an owned string.
pub fn trim_str(s: &str) -> (r: String)
    ensures
        r@ == trim(s@),
{
    let v = chars_of(s);
    let t = trim_chars(v.as_slice());
    string_of(t.as_slice())
}

// ---------------------------------------------------------------------------
// Substring search
// ---------------------------------------------------------------------------

pub open spec fn occurs_at<A>(s: Seq<A>, i: int, pat: Seq<A>) -> bool {
    0 <= i && i + pat.len() <= s.len() && s.subrange(i, i + pat.len()) == pat
}

/// Position of the first occurrence of `pat` in `s` at or after `i`.
pub open spec fn find_from<A>(s: Seq<A>, pat: Seq<A>, i: int) -> Option<int>
    decreases s.len() + 1 - i,
{
    if i < 0 || i > s.len() || i + pat.len() > s.len() {
        None
    } else if occurs_at(s, i, pat) {
        Some(i)
    } else {
        find_from(s, pat, i + 1)
    }
}

/// Position of the last occurrence of `pat` in `s` starting at or before `i`.
pub open spec fn rfind_upto<A>(s: Seq<A>, pat: Seq<A>, i: int) -> Option<int>
    decreases i + 1,
{
    if i < 0 {
        None
    } else if occurs_at(s, i, pat) {
        Some(i)
    } else {
        rfind_upto(s, pat, i - 1)
    }
}

/// `str::rfind`: the last occurrence.
pub open spec fn rfind<A>(s: Seq<A>, pat: Seq<A>) -> Option<int> {
    rfind_upto(s, pat, s.len() - pat.len())
}

pub open spec fn contains_seq<A>(s: Seq<A>, pat: Seq<A>) -> bool {
    find_from(s, pat, 0) is Some
}

pub open spec fn starts_with<A>(s: Seq<A>, pat: Seq<A>) -> bool {
    pat.len() <= s.len() && s.subrange(0, pat.len() as int) == pat
}

pub proof fn lemma_find_from_props<A>(s: Seq<A>, pat: Seq<A>, i: int)
    requires
        0 <= i,
    ensures
        find_from(s, pat, i) matches Some(p) ==> i <= p && occurs_at(s, p, pat) && forall|k: int|
            i <= k < p ==> !occurs_at(s, k, pat),
        find_from(s, pat, i) is None ==> forall|k: int| i <= k ==> !occurs_at(s, k, pat),
    decreases s.len() + 1 - i,
{
    if i > s.len() || i + pat.len() > s.len() {
    } else if occurs_at(s, i, pat) {
    } else {
        lemma_find_from_props(s, pat, i + 1);
    }
}

pub proof fn lemma_rfind_upto_props<A>(s: Seq<A>, pat: Seq<A>, i: int)
    ensures
        rfind_upto(s, pat, i) matches Some(p) ==> p <= i && occurs_at(s, p, pat) && forall|k: int|
            p < k <= i ==> !occurs_at(s, k, pat),
        rfind_upto(s, pat, i) is None ==> forall|k: int| k <= i ==> !occurs_at(s, k, pat),
    decreases i + 1,
{
    if i < 0 {
    } else if occurs_at(s, i, pat) {
    } else {
        lemma_rfind_upto_props(s, pat, i - 1);
    }
}

/// Searching a suffix finds the same occurrences, shifted.
pub proof fn lemma_find_from_suffix<A>(s: Seq<A>, pat: Seq<A>, a: int, i: int)
    requires
        0 <= a <= s.len(),
        0 <= i,
    ensures
        find_from(s.subrange(a, s.len() as int), pat, i) == (match find_from(s, pat, a + i) {
            Some(p) => Some(p - a),
            None => None,
        }),
    decreases s.len() - a + 1 - i,
{
    let t = s.subrange(a, s.len() as int);
    if i > t.len() || i + pat.len() > t.len() {
    } else {
        assert(t.subrange(i, i + pat.len()) =~= s.subrange(a + i, a + i + pat.len()));
        assert(occurs_at(t, i, pat) == occurs_at(s, a + i, pat));
        if !occurs_at(t, i, pat) {
            lemma_find_from_suffix(s, pat, a, i + 1);
        }
    }
}

/// Does `pat` occur in `s` at position `i`?
pub fn chars_occur_at(s: &[char], i: usize, pat: &[char]) -> (r: bool)
    ensures
        r == occurs_at(s@, i as int, pat@),
{
    if i > s.len() || pat.len() > s.len() - i {
        return false;
    }
    let mut k: usize = 0;
    while k < pat.len()
        invariant
            i + pat@.len() <= s@.len(),
            i + pat.len() <= s.len(),
            0 <= k <= pat@.len(),
            forall|m: int| 0 <= m < k ==> s@[i + m] == pat@[m],
        decreases pat.len() - k,
    {
        if s[i + k] != pat[k] {
            assert(s@.subrange(i as int, i + pat@.len())[k as int] != pat@[k as int]);
            return false;
        }
        k = k + 1;
    }
    assert(s@.subrange(i as int, i + pat@.len()) =~= pat@);
    true
}

/// First occurrence of `pat` in `s` at or after `from`.
pub fn find_chars(s: &[char], pat: &[char], from: usize) -> (r: Option<usize>)
    ensures
        r matches Some(p) ==> find_from(s@, pat@, from as int) == Some(p as int),
        r is None ==> find_from(s@, pat@, from as int) is None,
{
    let mut i = from;
    loop
        invariant
            from <= i,
            find_from(s@, pat@, from as int) == find_from(s@, pat@, i as int),
        decreases s.len() + 1 - i,
    {
        if i > s.len() || pat.len() > s.len() - i {
            return None;
        }
        if chars_occur_at(s, i, pat) {
            return Some(i);
        }
        if i == s.len() {
            assert(find_from(s@, pat@, i + 1) is None);
            return None;
        }
        i = i + 1;
    }
}

/// Last occurrence of `pat` in `s`.
pub fn rfind_chars(s: &[char], pat: &[char]) -> (r: Option<usize>)
    ensures
        r matches Some(p) ==> rfind(s@, pat@) == Some(p as int),
        r is None ==> rfind(s@, pat@) is None,
{
    if pat.len() > s.len() {
        return None;
    }
    let mut i: usize = s.len() - pat.len();
    loop
        invariant
            i + pat@.len() <= s@.len(),
            rfind(s@, pat@) == rfind_upto(s@, pat@, i as int),
        decreases i,
    {
        if chars_occur_at(s, i, pat) {
            return Some(i);
        }
        if i == 0 {
            assert(rfind_upto(s@, pat@, -1) is None);
            return None;
        }
        i = i - 1;
    }
}

/// Whether two character sequences are equal.
pub fn chars_eq(a: &[char], b: &[char]) -> (r: bool)
    ensures
        r == (a@ == b@),
{
    if a.len() != b.len() {
        return false;
    }
    let mut i: usize = 0;
    while i < a.len()
        invariant
            a@.len() == b@.len(),
            0 <= i <= a@.len(),
            forall|k: int| 0 <= k < i ==> a@[k] == b@[k],
        decreases a.len() - i,
    {
        if a[i] != b[i] {
            return false;
        }
        i = i + 1;
    }
    assert(a@ =~= b@);
    true
}

/// Whether two strings hold the same text.
pub fn same_text(a: &str, b: &str) -> (r: bool)
    ensures
        r == (a@ == b@),
{
    let va = chars_of(a);
    let vb = chars_of(b);
    chars_eq(va.as_slice(), vb.as_slice())
}

/// Whether `pat` occurs anywhere in `s`.
pub fn contains_chars(s: &[char], pat: &[char]) -> (r: bool)
    ensures
        r == contains_seq(s@, pat@),
{
    find_chars(s, pat, 0).is_some()
}

/// Whether `s` begins with `pat`.
pub fn starts_with_chars(s: &[char], pat: &[char]) -> (r: bool)
    ensures
        r == starts_with(s@, pat@),
{
    let ok = chars_occur_at(s, 0, pat);
    proof {
        if ok {
            assert(starts_with(s@, pat@));
        }
    }
    ok
}

// ---------------------------------------------------------------------------
// Lines
// ---------------------------------------------------------------------------

/// A line that ended in `'\n'`, as `str::lines` yields it: a carriage return
/// just before the `'\n'` is dropped.
pub open spec fn strip_cr(l: Seq<char>) -> Seq<char> {
    if l.len() > 0 && l.last() == '\r' {
        l.drop_last()
    } else {
        l
    }
}

/// `str::lines`: the text split at `'\n'`, with a final empty piece omitted;
/// a `'\r'` just before a `'\n'` is removed with it (a last line without
/// `'\n'` keeps a trailing `'\r'`).
pub open spec fn lines_of(s: Seq<char>) -> Seq<Seq<char>>
    decreases s.len(),
{
    if s.len() == 0 {
        seq![]
    } else {
        match find_from(s, seq!['\n'], 0) {
            None => seq![s],
            Some(p) => {
                if 0 <= p < s.len() {
                    seq![strip_cr(s.subrange(0, p))] + lines_of(s.subrange(p + 1, s.len() as int))
                } else {
                    seq![]
                }
            },
        }
    }
}

fn strip_cr_chars(v: Vec<char>) -> (r: Vec<char>)
    ensures
        r@ == strip_cr(v@),
{
    let mut v = v;
    if v.len() > 0 && v[v.len() - 1] == '\r' {
        v.pop();
    }
    v
}

fn sub_chars(s: &[char], a: usize, b: usize) -> (r: Vec<char>)
    requires
        a <= b <= s@.len(),
    ensures
        r@ == s@.subrange(a as int, b as int),
{
    let mut r: Vec<char> = Vec::new();
    let mut k = a;
    while k < b
        invariant
            a <= k <= b <= s@.len(),
            r@ =~= s@.subrange(a as int, k as int),
        decreases b - k,
    {
        r.push(s[k]);
        k = k + 1;
    }
    r
}

/// A copy of the characters `s[a..b]`.
pub fn slice_chars(s: &[char], a: usize, b: usize) -> (r: Vec<char>)
    requires
        a <= b <= s@.len(),
    ensures
        r@ == s@.subrange(a as int, b as int),
{
    sub_chars(s, a, b)
}

/// Splits text into lines as `str::lines` does.
pub fn split_lines(s: &[char]) -> (r: Vec<Vec<char>>)
    ensures
        r@.len() == lines_of(s@).len(),
        forall|i: int| 0 <= i < r@.len() ==> #[trigger] r@[i]@ == lines_of(s@)[i],
{
    let mut out: Vec<Vec<char>> = Vec::new();
    let mut start: usize = 0;
    let nl = ['\n'];
    let n = s.len();
    assert(s@.subrange(0, n as int) =~= s@);
    while start < n
        invariant
            start <= n,
            n == s@.len(),
            nl@ == seq!['\n'],
            lines_of(s@) =~= Seq::new(out@.len() as nat, |i: int| out@[i]@) + lines_of(
                s@.subrange(start as int, n as int),
            ),
        decreases n - start,
    {
        let ghost rest = s@.subrange(start as int, n as int);
        let f = find_chars(s, nl.as_slice(), start);
        proof {
            lemma_find_from_props(s@, seq!['\n'], start as int);
            lemma_find_from_props(rest, seq!['\n'], 0);
        }
        let ghost old_out = out@;
        match f {
            None => {
                proof {
                    if find_from(rest, seq!['\n'], 0) is Some {
                        let p = find_from(rest, seq!['\n'], 0)->0;
                        assert(rest.subrange(p, p + 1) =~= s@.subrange(start + p, start + p + 1));
                        assert(occurs_at(s@, start + p, seq!['\n']));
                    }
                    assert(lines_of(rest) =~= seq![rest]);
                }
                let piece = sub_chars(s, start, n);
                out.push(piece);
                assert(Seq::new(out@.len() as nat, |i: int| out@[i]@) =~= Seq::new(
                    old_out.len() as nat,
                    |i: int| old_out[i]@,
                ).push(piece@));
                start = n;
                assert(lines_of(s@.subrange(start as int, n as int)) =~= seq![]);
            },
            Some(p) => {
                let ghost q = p - start;
                proof {
                    assert(rest.subrange(q, q + 1) =~= s@.subrange(p as int, p + 1));
                    assert(occurs_at(rest, q, seq!['\n']));
                    assert forall|k: int| 0 <= k < q implies !occurs_at(rest, k, seq!['\n']) by {
                        assert(rest.subrange(k, k + 1) =~= s@.subrange(start + k, start + k + 1));
                        if occurs_at(rest, k, seq!['\n']) {
                            assert(occurs_at(s@, start + k, seq!['\n']));
                        }
                    }
                    let p2 = find_from(rest, seq!['\n'], 0);
                    assert(p2 == Some(q));
                    assert(rest.subrange(0, q) =~= s@.subrange(start as int, p as int));
                    assert(rest.subrange(q + 1, rest.len() as int) =~= s@.subrange(
                        p + 1,
                        n as int,
                    ));
                }
                let piece = strip_cr_chars(sub_chars(s, start, p));
                out.push(piece);
                assert(Seq::new(out@.len() as nat, |i: int| out@[i]@) =~= Seq::new(
                    old_out.len() as nat,
                    |i: int| old_out[i]@,
                ).push(piece@));
                start = p + 1;
            },
        }
    }
    assert(lines_of(s@.subrange(start as int, n as int)) =~= seq![]);
    out
}

/// `str::split(sep)`: the pieces between separators (at least one piece).
pub open spec fn split_on(s: Seq<char>, sep: char) -> Seq<Seq<char>>
    decreases s.len(),
{
    match find_from(s, seq![sep], 0) {
        None => seq![s],
        Some(p) => {
            if 0 <= p < s.len() {
                seq![s.subrange(0, p)] + split_on(s.subrange(p + 1, s.len() as int), sep)
            } else {
                seq![s]
            }
        },
    }
}

/// Splits text at every `sep`, as `str::split` does.
pub fn split_chars(s: &[char], sep: char) -> (r: Vec<Vec<char>>)
    ensures
        views_of(r@) == split_on(s@, sep),
{
    let mut out: Vec<Vec<char>> = Vec::new();
    let mut start: usize = 0;
    let pat = [sep];
    let n = s.len();
    assert(s@.subrange(0, n as int) =~= s@);
    loop
        invariant
            start <= n,
            n == s@.len(),
            pat@ == seq![sep],
            split_on(s@, sep) =~= views_of(out@) + split_on(s@.subrange(start as int, n as int), sep),
        decreases n - start,
    {
        let ghost rest = s@.subrange(start as int, n as int);
        let f = find_chars(s, pat.as_slice(), start);
        proof {
            lemma_find_from_props(s@, seq![sep], start as int);
            lemma_find_from_props(rest, seq![sep], 0);
        }
        let ghost old_out = out@;
        match f {
            None => {
                proof {
                    if find_from(rest, seq![sep], 0) is Some {
                        let p = find_from(rest, seq![sep], 0)->0;
                        assert(rest.subrange(p, p + 1) =~= s@.subrange(start + p, start + p + 1));
                        assert(occurs_at(s@, start + p, seq![sep]));
                    }
                    assert(split_on(rest, sep) =~= seq![rest]);
                }
                let piece = sub_chars(s, start, n);
                out.push(piece);
                assert(views_of(out@) =~= views_of(old_out).push(rest));
                return out;
            },
            Some(p) => {
                let ghost q = p - start;
                proof {
                    assert(rest.subrange(q, q + 1) =~= s@.subrange(p as int, p + 1));
                    assert(occurs_at(rest, q, seq![sep]));
                    assert forall|k: int| 0 <= k < q implies !occurs_at(rest, k, seq![sep]) by {
                        assert(rest.subrange(k, k + 1) =~= s@.subrange(start + k, start + k + 1));
                        if occurs_at(rest, k, seq![sep]) {
                            assert(occurs_at(s@, start + k, seq![sep]));
                        }
                    }
                    assert(find_from(rest, seq![sep], 0) == Some(q));
                    assert(rest.subrange(0, q) =~= s@.subrange(start as int, p as int));
                    assert(rest.subrange(q + 1, rest.len() as int) =~= s@.subrange(
                        p + 1,
                        n as int,
                    ));
                }
                let piece = sub_chars(s, start, p);
                out.push(piece);
                assert(views_of(out@) =~= views_of(old_out).push(s@.subrange(start as int, p as int)));
                start = p + 1;
            },
        }
    }
}

// ---------------------------------------------------------------------------
// Removing every occurrence of a pattern (`str::replace(pat, "")`)
// ---------------------------------------------------------------------------

/// `str::replace(pat, "")` for a non-empty pattern: occurrences are found left
/// to right without overlap and removed.
pub open spec fn remove_all(s: Seq<char>, pat: Seq<char>) -> Seq<char>
    recommends
        pat.len() > 0,
    decreases s.len(),
{
    if pat.len() == 0 || s.len() == 0 {
        s
    } else if starts_with(s, pat) {
        remove_all(s.subrange(pat.len() as int, s.len() as int), pat)
    } else {
        seq![s[0]] + remove_all(s.drop_first(), pat)
    }
}

pub fn remove_all_chars(s: &[char], pat: &[char]) -> (r: Vec<char>)
    requires
        pat@.len() > 0,
    ensures
        r@ == remove_all(s@, pat@),
{
    let mut out: Vec<char> = Vec::new();
    let mut i: usize = 0;
    let n = s.len();
    assert(s@.subrange(0, n as int) =~= s@);
    while i < n
        invariant
            i <= n,
            n == s@.len(),
            pat@.len() > 0,
            remove_all(s@, pat@) =~= out@ + remove_all(s@.subrange(i as int, n as int), pat@),
        decreases n - i,
    {
        let ghost rest = s@.subrange(i as int, n as int);
        if chars_occur_at(s, i, pat) {
            assert(starts_with(rest, pat@)) by {
                assert(rest.subrange(0, pat@.len() as int) =~= s@.subrange(
                    i as int,
                    i + pat@.len(),
                ));
            }
            assert(rest.subrange(pat@.len() as int, rest.len() as int) =~= s@.subrange(
                i + pat@.len(),
                n as int,
            ));
            i = i + pat.len();
        } else {
            assert(!starts_with(rest, pat@)) by {
                if pat@.len() <= rest.len() {
                    assert(rest.subrange(0, pat@.len() as int) =~= s@.subrange(
                        i as int,
                        i + pat@.len(),
                    ));
                }
            }
            assert(rest.drop_first() =~= s@.subrange(i + 1, n as int));
            let ghost old_out = out@;
            out.push(s[i]);
            assert(out@ + remove_all(s@.subrange(i + 1, n as int), pat@) =~= old_out + (seq![
                s@[i as int],
            ] + remove_all(rest.drop_first(), pat@)));
            i = i + 1;
        }
    }
    assert(remove_all(s@.subrange(n as int, n as int), pat@) =~= seq![]);
    out
}

// ---------------------------------------------------------------------------
// Decimal formatting of unsigned integers
// ---------------------------------------------------------------------------

pub open spec fn digit_char(d: nat) -> char {
    (('0' as nat) + d) as char
}

/// Decimal representation of `n`, as `{}` formats an unsigned integer.
pub open spec fn decimal(n: nat) -> Seq<char>
    decreases n,
{
    if n < 10 {
        seq![digit_char(n)]
    } else {
        decimal(n / 10).push(digit_char(n % 10))
    }
}

/// The decimal representation of `n`.
pub fn u64_to_decimal(n: u64) -> (r: Vec<char>)
    ensures
        r@ == decimal(n as nat),
    decreases n,
{
    let d = (n % 10) as u32;
    let c = char_from_digit(d);
    if n < 10 {
        let mut v: Vec<char> = Vec::new();
        v.push(c);
        v
    } else {
        let mut v = u64_to_decimal(n / 10);
        v.push(c);
        v
    }
}

fn char_from_digit(d: u32) -> (c: char)
    requires
        d < 10,
    ensures
        c == digit_char(d as nat),
{
    if d == 0 {
        '0'
    } else if d == 1 {
        '1'
    } else if d == 2 {
        '2'
    } else if d == 3 {
        '3'
    } else if d == 4 {
        '4'
    } else if d == 5 {
        '5'
    } else if d == 6 {
        '6'
    } else if d == 7 {
        '7'
    } else if d == 8 {
        '8'
    } else {
        '9'
    }
}

// ---------------------------------------------------------------------------
// Parsing an `i32` as `str::parse::<i32>` does
// ---------------------------------------------------------------------------

pub open spec fn all_digits(s: Seq<char>) -> bool {
    forall|i: int| 0 <= i < s.len() ==> is_ascii_digit_char(#[trigger] s[i])
}

pub open spec fn digits_value(s: Seq<char>) -> int
    decreases s.len(),
{
    if s.len() == 0 {
        0
    } else {
        digits_value(s.drop_last()) * 10 + digit_value(s.last())
    }
}

/// `str::parse::<i32>`: an optional `+` or `-`, then at least one ASCII digit,
/// and a value in range.
pub open spec fn unsigned_part(s: Seq<char>) -> Seq<char> {
    if s.len() > 0 && (s[0] == '-' || s[0] == '+') {
        s.drop_first()
    } else {
        s
    }
}

pub open spec fn parse_i32(s: Seq<char>) -> Option<i32> {
    if s.len() == 0 {
        None
    } else {
        let neg = s[0] == '-';
        let body = unsigned_part(s);
        if body.len() == 0 || !all_digits(body) {
            None
        } else {
            let v = if neg {
                -digits_value(body)
            } else {
                digits_value(body)
            };
            if i32::MIN <= v <= i32::MAX {
                Some(v as i32)
            } else {
                None
            }
        }
    }
}

proof fn lemma_digits_value_nonneg(s: Seq<char>)
    requires
        all_digits(s),
    ensures
        digits_value(s) >= 0,
    decreases s.len(),
{
    if s.len() > 0 {
        assert(all_digits(s.drop_last())) by {
            assert forall|i: int| 0 <= i < s.drop_last().len() implies is_ascii_digit_char(
                #[trigger] s.drop_last()[i],
            ) by {
                assert(s.drop_last()[i] == s[i]);
            }
        }
        lemma_digits_value_nonneg(s.drop_last());
    }
}

/// Parses a whole character sequence as `str::parse::<i32>` does.
pub fn parse_i32_chars(s: &[char]) -> (r: Option<i32>)
    ensures
        r == parse_i32(s@),
{
    let n = s.len();
    if n == 0 {
        return None;
    }
    let neg = s[0] == '-';
    let start: usize = if s[0] == '-' || s[0] == '+' {
        1
    } else {
        0
    };
    let ghost body = unsigned_part(s@);
    assert(body =~= s@.subrange(start as int, n as int));
    if start == n {
        assert(body.len() == 0);
        return None;
    }
    let mut k: usize = start;
    let mut acc: i64 = 0;
    let mut overflow = false;
    while k < n
        invariant
            start <= k <= n,
            n == s@.len(),
            start < n,
            body =~= s@.subrange(start as int, n as int),
            body == unsigned_part(s@),
            neg == (s@[0] == '-'),
            forall|i: int| start <= i < k ==> is_ascii_digit_char(#[trigger] s@[i]),
            !overflow ==> acc as int == digits_value(s@.subrange(start as int, k as int)),
            !overflow ==> 0 <= acc <= 2147483648,
            overflow ==> digits_value(s@.subrange(start as int, k as int)) > 2147483648,
        decreases n - k,
    {
        let c = s[k];
        if !('0' <= c && c <= '9') {
            assert(!is_ascii_digit_char(body[k - start]));
            return None;
        }
        let ghost pre = s@.subrange(start as int, k as int);
        let ghost nxt = s@.subrange(start as int, k + 1);
        assert(nxt.drop_last() =~= pre);
        assert(nxt.last() == c);
        assert(all_digits(pre)) by {
            assert forall|i: int| 0 <= i < pre.len() implies is_ascii_digit_char(
                #[trigger] pre[i],
            ) by {
                assert(pre[i] == s@[start + i]);
            }
        }
        proof {
            lemma_digits_value_nonneg(pre);
        }
        if !overflow {
            let d = (c as u32 - '0' as u32) as i64;
            assert(d == digit_value(c));
            acc = acc * 10 + d;
            if acc > 2147483648 {
                overflow = true;
            }
        } else {
            assert(digits_value(nxt) >= digits_value(pre));
        }
        k = k + 1;
    }
    assert(s@.subrange(start as int, n as int) =~= body);
    assert(all_digits(body)) by {
        assert forall|i: int| 0 <= i < body.len() implies is_ascii_digit_char(#[trigger] body[i]) by {
            assert(body[i] == s@[start + i]);
        }
    }
    if overflow {
        return None;
    }
    if neg {
        let v = -acc;
        if v < -2147483648 {
            None
        } else {
            Some(v as i32)
        }
    } else {
        if acc > 2147483647 {
            None
        } else {
            Some(acc as i32)
        }
    }
}

// ---------------------------------------------------------------------------
// Ordering strings and keeping a sorted list without repeats
// ---------------------------------------------------------------------------

/// Lexicographic order on characters by code point; for strings this is the
/// order `String`'s `Ord` gives (UTF-8 preserves code-point order).
pub open spec fn lex_lt(a: Seq<char>, b: Seq<char>) -> bool
    decreases a.len(),
{
    if b.len() == 0 {
        false
    } else if a.len() == 0 {
        true
    } else if a[0] != b[0] {
        a[0] < b[0]
    } else {
        lex_lt(a.drop_first(), b.drop_first())
    }
}

pub proof fn lemma_lex_irreflexive(a: Seq<char>)
    ensures
        !lex_lt(a, a),
    decreases a.len(),
{
    if a.len() > 0 {
        lemma_lex_irreflexive(a.drop_first());
    }
}

pub proof fn lemma_lex_transitive(a: Seq<char>, b: Seq<char>, c: Seq<char>)
    requires
        lex_lt(a, b),
        lex_lt(b, c),
    ensures
        lex_lt(a, c),
    decreases a.len(),
{
    if a.len() > 0 && b.len() > 0 && c.len() > 0 {
        if a[0] == b[0] && b[0] == c[0] {
            lemma_lex_transitive(a.drop_first(), b.drop_first(), c.drop_first());
        }
    }
}

pub proof fn lemma_lex_total(a: Seq<char>, b: Seq<char>)
    requires
        a != b,
    ensures
        lex_lt(a, b) || lex_lt(b, a),
    decreases a.len(),
{
    if a.len() > 0 && b.len() > 0 && a[0] == b[0] {
        if a.drop_first() == b.drop_first() {
            assert(a =~= seq![a[0]] + a.drop_first());
            assert(b =~= seq![b[0]] + b.drop_first());
        }
        lemma_lex_total(a.drop_first(), b.drop_first());
    } else if a.len() == 0 && b.len() == 0 {
        assert(a =~= b);
    }
}

pub proof fn lemma_lex_asymmetric(a: Seq<char>, b: Seq<char>)
    requires
        lex_lt(a, b),
    ensures
        !lex_lt(b, a),
{
    if lex_lt(b, a) {
        lemma_lex_transitive(a, b, a);
        lemma_lex_irreflexive(a);
    }
}

/// Compares two character sequences in `lex_lt` order.
pub fn lex_less(a: &[char], b: &[char]) -> (r: bool)
    ensures
        r == lex_lt(a@, b@),
{
    let mut i: usize = 0;
    assert(a@.subrange(0, a@.len() as int) =~= a@);
    assert(b@.subrange(0, b@.len() as int) =~= b@);
    loop
        invariant
            0 <= i <= a@.len(),
            i <= b@.len(),
            lex_lt(a@, b@) == lex_lt(a@.subrange(i as int, a@.len() as int), b@.subrange(i as int, b@.len() as int)),
        decreases a.len() - i,
    {
        let ghost sa = a@.subrange(i as int, a@.len() as int);
        let ghost sb = b@.subrange(i as int, b@.len() as int);
        if i == b.len() {
            return false;
        }
        if i == a.len() {
            return true;
        }
        assert(sa[0] == a@[i as int] && sb[0] == b@[i as int]);
        if a[i] != b[i] {
            return a[i] < b[i];
        }
        assert(sa.drop_first() =~= a@.subrange(i + 1, a@.len() as int));
        assert(sb.drop_first() =~= b@.subrange(i + 1, b@.len() as int));
        i = i + 1;
    }
}

/// Strictly increasing in `lex_lt` order: sorted and without repeats.
pub open spec fn strictly_sorted(s: Seq<Seq<char>>) -> bool {
    forall|i: int, j: int| 0 <= i < j < s.len() ==> lex_lt(#[trigger] s[i], #[trigger] s[j])
}

/// A strictly sorted list is determined by the set of its items.
pub proof fn lemma_sorted_unique(a: Seq<Seq<char>>, b: Seq<Seq<char>>)
    requires
        strictly_sorted(a),
        strictly_sorted(b),
        a.to_set() == b.to_set(),
    ensures
        a == b,
    decreases a.len(),
{
    if a.len() == 0 {
        if b.len() > 0 {
            assert(b.to_set().contains(b[0]));
        }
        assert(a =~= b);
    } else {
        assert(a.to_set().contains(a[0]));
        assert(b.len() > 0);
        assert(b.to_set().contains(b[0]));
        let j = choose|j: int| 0 <= j < b.len() && b[j] == a[0];
        let i = choose|i: int| 0 <= i < a.len() && a[i] == b[0];
        if j > 0 {
            assert(lex_lt(b[0], b[j]));
            if i > 0 {
                assert(lex_lt(a[0], a[i]));
                lemma_lex_asymmetric(b[0], a[0]);
            } else {
                lemma_lex_irreflexive(b[0]);
            }
        }
        assert(a[0] == b[0]);
        let a1 = a.drop_first();
        let b1 = b.drop_first();
        assert forall|x| a1.to_set().contains(x) implies b1.to_set().contains(x) by {
            let k = choose|k: int| 0 <= k < a1.len() && a1[k] == x;
            assert(a[k + 1] == x);
            assert(lex_lt(a[0], a[k + 1]));
            lemma_lex_irreflexive(a[0]);
            assert(a.to_set().contains(x));
            let m = choose|m: int| 0 <= m < b.len() && b[m] == x;
            assert(m != 0);
            assert(b1[m - 1] == x);
        }
        assert forall|x| b1.to_set().contains(x) implies a1.to_set().contains(x) by {
            let k = choose|k: int| 0 <= k < b1.len() && b1[k] == x;
            assert(b[k + 1] == x);
            assert(lex_lt(b[0], b[k + 1]));
            lemma_lex_irreflexive(b[0]);
            assert(b.to_set().contains(x));
            let m = choose|m: int| 0 <= m < a.len() && a[m] == x;
            assert(m != 0);
            assert(a1[m - 1] == x);
        }
        assert(a1.to_set() =~= b1.to_set());
        assert(strictly_sorted(a1)) by {
            assert forall|p: int, q: int| 0 <= p < q < a1.len() implies lex_lt(
                #[trigger] a1[p],
                #[trigger] a1[q],
            ) by {
                assert(a1[p] == a[p + 1] && a1[q] == a[q + 1]);
            }
        }
        assert(strictly_sorted(b1)) by {
            assert forall|p: int, q: int| 0 <= p < q < b1.len() implies lex_lt(
                #[trigger] b1[p],
                #[trigger] b1[q],
            ) by {
                assert(b1[p] == b[p + 1] && b1[q] == b[q + 1]);
            }
        }
        lemma_sorted_unique(a1, b1);
        assert(a =~= seq![a[0]] + a1);
        assert(b =~= seq![b[0]] + b1);
    }
}

/// The strictly sorted list of the items of a finite set.
pub open spec fn sorted_list(s: Set<Seq<char>>) -> Seq<Seq<char>> {
    choose|l: Seq<Seq<char>>| strictly_sorted(l) && l.to_set() == s
}

/// A strictly sorted list is the sorted list of its items.
pub proof fn lemma_is_sorted_list(l: Seq<Seq<char>>)
    requires
        strictly_sorted(l),
    ensures
        sorted_list(l.to_set()) == l,
{
    let m = sorted_list(l.to_set());
    assert(strictly_sorted(l) && l.to_set() == l.to_set());
    lemma_sorted_unique(m, l);
}

/// The character sequences held by a list of character vectors.
pub open spec fn views_of(v: Seq<Vec<char>>) -> Seq<Seq<char>> {
    Seq::new(v.len(), |i: int| v[i]@)
}

/// The strings held by a list of strings.
pub open spec fn string_views(v: Seq<String>) -> Seq<Seq<char>> {
    Seq::new(v.len(), |i: int| v[i]@)
}

/// Adds an item to a strictly sorted list, keeping it strictly sorted; an
/// item already present is not added again.
pub fn insert_sorted_unique(v: &mut Vec<Vec<char>>, x: Vec<char>)
    requires
        strictly_sorted(views_of(old(v)@)),
    ensures
        strictly_sorted(views_of(final(v)@)),
        views_of(final(v)@).to_set() == views_of(old(v)@).to_set().insert(x@),
{
    let ghost old_views = views_of(v@);
    let mut i: usize = 0;
    while i < v.len() && lex_less(v[i].as_slice(), x.as_slice())
        invariant
            0 <= i <= v@.len(),
            views_of(v@) == old_views,
            strictly_sorted(old_views),
            forall|k: int| 0 <= k < i ==> lex_lt(#[trigger] old_views[k], x@),
        decreases v.len() - i,
    {
        i = i + 1;
    }
    if i < v.len() {
        let same = !lex_less(x.as_slice(), v[i].as_slice());
        if same {
            proof {
                assert(!lex_lt(old_views[i as int], x@));
                assert(!lex_lt(x@, old_views[i as int]));
                if old_views[i as int] != x@ {
                    lemma_lex_total(old_views[i as int], x@);
                }
                assert(old_views.to_set().insert(x@) =~= old_views.to_set()) by {
                    assert(old_views.contains(x@)) by {
                        assert(old_views[i as int] == x@);
                    }
                }
            }
            return;
        }
    }
    let ghost xv = x@;
    v.insert(i, x);
    proof {
        let nv = views_of(v@);
        assert(nv =~= old_views.insert(i as int, xv));
        if i < old_views.len() {
            assert(lex_lt(xv, old_views[i as int])) by {
                assert(!lex_lt(old_views[i as int], xv));
            }
        }
        assert forall|a: int, b: int| 0 <= a < b < nv.len() implies lex_lt(
            #[trigger] nv[a],
            #[trigger] nv[b],
        ) by {
            if b < i {
            } else if b == i {
            } else if a < i {
                // nv[a] = old[a] < x < old[i] <= old[b-1] = nv[b]
                if b - 1 > i {
                    lemma_lex_transitive(xv, old_views[i as int], old_views[b - 1]);
                }
                lemma_lex_transitive(old_views[a], xv, nv[b]);
            } else if a == i {
                if b - 1 > i {
                    lemma_lex_transitive(xv, old_views[i as int], old_views[b - 1]);
                }
            } else {
            }
        }
        assert(nv.to_set() =~= old_views.to_set().insert(xv)) by {
            assert forall|e| nv.to_set().contains(e) implies old_views.to_set().insert(xv).contains(e) by {
                let k = choose|k: int| 0 <= k < nv.len() && nv[k] == e;
                if k < i {
                    assert(old_views[k] == e);
                } else if k > i {
                    assert(old_views[k - 1] == e);
                }
            }
            assert forall|e| old_views.to_set().insert(xv).contains(e) implies nv.to_set().contains(e) by {
                if e == xv {
                    assert(nv[i as int] == xv);
                } else {
                    let k = choose|k: int| 0 <= k < old_views.len() && old_views[k] == e;
                    if k < i {
                        assert(nv[k] == e);
                    } else {
                        assert(nv[k + 1] == e);
                    }
                }
            }
        }
    }
}

// ---------------------------------------------------------------------------
// Character boundaries of a suffix
// ---------------------------------------------------------------------------

/// Cutting valid UTF-8 at a character boundary `a` keeps the boundaries that
/// lie after it: `q` is a boundary of the whole exactly when `q - a` is one of
/// the part from `a` on.
pub proof fn lemma_char_boundary_in_suffix(b: Seq<u8>, a: int, q: int)
    requires
        vstd::utf8::valid_utf8(b),
        vstd::utf8::is_char_boundary(b, a),
        a <= q,
    ensures
        vstd::utf8::valid_utf8(b.subrange(a, b.len() as int)),
        vstd::utf8::is_char_boundary(b.subrange(a, b.len() as int), q - a)
            == vstd::utf8::is_char_boundary(b, q),
{
    broadcast use vstd::utf8::is_char_boundary_start_end_of_seq;

    vstd::utf8::valid_utf8_split(b, a);
    let t = b.subrange(a, b.len() as int);
    if q == a {
    } else if q == b.len() {
        vstd::utf8::is_char_boundary_start_end_of_seq(t);
        vstd::utf8::is_char_boundary_start_end_of_seq(b);
    } else if q > b.len() {
    } else {
        assert(t[q - a] == b[q]);
        vstd::utf8::is_char_boundary_iff_not_is_continuation_byte(t, q - a);
        vstd::utf8::is_char_boundary_iff_not_is_continuation_byte(b, q);
    }
}

/// Encoding a concatenation encodes the parts one after the other.
pub proof fn lemma_encode_concat(a: Seq<char>, b: Seq<char>)
    ensures
        vstd::utf8::encode_utf8(a + b) == vstd::utf8::encode_utf8(a) + vstd::utf8::encode_utf8(b),
    decreases a.len(),
{
    if a.len() == 0 {
        assert(a + b =~= b);
        assert(vstd::utf8::encode_utf8(a) =~= Seq::<u8>::empty());
        assert(Seq::<u8>::empty() + vstd::utf8::encode_utf8(b) =~= vstd::utf8::encode_utf8(b));
    } else {
        assert((a + b).drop_first() =~= a.drop_first() + b);
        assert((a + b)[0] == a[0]);
        lemma_encode_concat(a.drop_first(), b);
        let e0 = vstd::utf8::encode_scalar(a[0] as u32);
        assert(e0 + (vstd::utf8::encode_utf8(a.drop_first()) + vstd::utf8::encode_utf8(b)) =~= (e0
            + vstd::utf8::encode_utf8(a.drop_first())) + vstd::utf8::encode_utf8(b));
    }
}

/// The encoding of a character with a code below 0x80 is that one byte;
/// every other character's encoding ends with a byte of 0x80 or more.
proof fn lemma_encode_scalar_last(c: char)
    ensures
        vstd::utf8::encode_scalar(c as u32).len() >= 1,
        (c as u32) < 0x80 ==> vstd::utf8::encode_scalar(c as u32) == seq![c as u8],
        (c as u32) >= 0x80 ==> vstd::utf8::encode_scalar(c as u32).last() >= 0x80,
{
    let v = c as u32;
    if v < 0x80 {
        assert(v as u8 == vstd::utf8::leading_byte_width_1(v)) by (bit_vector)
            requires
                v < 0x80,
        ;
        assert(c as u8 == v as u8);
    } else {
        let b = vstd::utf8::last_continuation_byte(v);
        assert(0x80 | (v & 0x3F) as u8 >= 0x80) by (bit_vector);
        assert(b >= 0x80);
    }
}

/// Text whose UTF-8 encoding ends with the bytes of an ASCII text `u` ends
/// with `u`, and conversely.
pub proof fn lemma_ends_with_ascii(cs: Seq<char>, u: Seq<char>)
    requires
        vstd::utf8::is_ascii_chars(u),
    ensures
        ({
            let e = vstd::utf8::encode_utf8(cs);
            (u.len() <= e.len() && e.subrange(e.len() - u.len(), e.len() as int)
                == vstd::utf8::encode_utf8(u)) <==> (u.len() <= cs.len() && cs.subrange(
                cs.len() - u.len(),
                cs.len() as int,
            ) == u)
        }),
    decreases u.len(),
{
    let e = vstd::utf8::encode_utf8(cs);
    vstd::utf8::is_ascii_chars_encode_utf8(u);
    if u.len() == 0 {
        assert(e.subrange(e.len() as int, e.len() as int) =~= Seq::<u8>::empty());
        assert(cs.subrange(cs.len() as int, cs.len() as int) =~= u);
        assert(vstd::utf8::encode_utf8(u) =~= Seq::<u8>::empty());
    } else if cs.len() == 0 {
        assert(e =~= Seq::<u8>::empty());
    } else {
        let p = cs.drop_last();
        let c = cs.last();
        assert(cs =~= p.push(c));
        assert(p.push(c) =~= p + seq![c]);
        lemma_encode_concat(p, seq![c]);
        assert(vstd::utf8::encode_utf8(seq![c]) =~= vstd::utf8::encode_scalar(c as u32)) by {
            assert(seq![c].drop_first() =~= Seq::<char>::empty());
            assert(seq![c][0] == c);
            assert(vstd::utf8::encode_utf8(Seq::<char>::empty()) =~= Seq::<u8>::empty());
            assert(vstd::utf8::encode_utf8(seq![c]) == vstd::utf8::encode_scalar(c as u32)
                + vstd::utf8::encode_utf8(seq![c].drop_first()));
        }
        lemma_encode_scalar_last(c);
        let ep = vstd::utf8::encode_utf8(p);
        let ec = vstd::utf8::encode_scalar(c as u32);
        assert(e =~= ep + ec);
        let w = u.drop_last();
        let x = u.last();
        assert(u =~= w.push(x));
        assert(vstd::utf8::is_ascii_chars(w)) by {
            assert forall|i: int| 0 <= i < w.len() implies '\0' <= #[trigger] w[i] <= '\u{7f}' by {
                assert(w[i] == u[i]);
            }
        }
        assert((x as u32) < 0x80) by {
            assert(u[u.len() - 1] == x);
        }
        lemma_ends_with_ascii(p, w);
        vstd::utf8::is_ascii_chars_encode_utf8(w);
        let eu = vstd::utf8::encode_utf8(u);
        let ew = vstd::utf8::encode_utf8(w);
        assert(eu.len() == u.len() && ew.len() == w.len());
        assert(eu.last() == x as u8) by {
            assert(eu[u.len() - 1] == u[u.len() - 1] as u8);
        }
        assert(eu.drop_last() =~= ew) by {
            assert forall|i: int| 0 <= i < w.len() implies eu.drop_last()[i] == ew[i] by {
                assert(eu[i] == u[i] as u8);
                assert(ew[i] == w[i] as u8);
                assert(w[i] == u[i]);
            }
        }
        if u.len() <= e.len() && e.subrange(e.len() - u.len(), e.len() as int) == eu {
            // The last byte is below 0x80, so the last character is that byte.
            assert(e.last() == eu.last());
            if (c as u32) >= 0x80 {
                assert(e.last() == ec.last());
            }
            assert(ec == seq![c as u8]);
            assert(c as u8 == x as u8);
            assert(c == x) by {
                assert((c as u32) < 0x80 && (x as u32) < 0x80);
                vstd::utf8::char_u32_cast(c, c as u32);
            }
            assert(ep.subrange(ep.len() - w.len(), ep.len() as int) =~= e.subrange(
                e.len() - u.len(),
                e.len() as int,
            ).drop_last());
            assert(w.len() <= ep.len());
            assert(p.subrange(p.len() - w.len(), p.len() as int) == w);
            assert(cs.subrange(cs.len() - u.len(), cs.len() as int) =~= p.subrange(
                p.len() - w.len(),
                p.len() as int,
            ).push(c));
        }
        if u.len() <= cs.len() && cs.subrange(cs.len() - u.len(), cs.len() as int) == u {
            assert(c == x) by {
                assert(cs.subrange(cs.len() - u.len(), cs.len() as int)[u.len() - 1] == u[u.len() - 1]);
            }
            assert(p.subrange(p.len() - w.len(), p.len() as int) =~= w) by {
                assert forall|i: int| 0 <= i < w.len() implies p.subrange(
                    p.len() - w.len(),
                    p.len() as int,
                )[i] == w[i] by {
                    assert(cs.subrange(cs.len() - u.len(), cs.len() as int)[i] == u[i]);
                }
            }
            assert(ec == seq![x as u8]);
            assert(e.subrange(e.len() - u.len(), e.len() as int) =~= ep.subrange(
                ep.len() - w.len(),
                ep.len() as int,
            ).push(x as u8));
            assert(eu =~= ew.push(x as u8));
        }
    }
}

} // verus!
