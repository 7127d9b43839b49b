//! Character-sequence helpers shared by every parser in the crate.
//!
//! Text is held as `String` in the library's types; the functions here work on
//! `Vec<char>` copies and state their results over `Seq<char>`.

use vstd::prelude::*;
use vstd::std_specs::iter::IteratorSpec;

verus! {

/// Unicode `White_Space`, the set `char::is_whitespace` and `str::trim` use.
pub open spec fn is_ws(c: char) -> bool {
    ||| c == '\t' || c == '\n' || c == '\x0B' || c == '\x0C' || c == '\r' || c == ' '
    ||| c == '\u{85}' || c == '\u{A0}' || c == '\u{1680}'
    ||| ('\u{2000}' <= c && c <= '\u{200A}')
    ||| c == '\u{2028}' || c == '\u{2029}' || c == '\u{202F}' || c == '\u{205F}' || c == '\u{3000}'
}

pub fn is_whitespace(c: char) -> (b: bool)
    ensures
        b == is_ws(c),
{
    c == '\t' || c == '\n' || c == '\x0B' || c == '\x0C' || c == '\r' || c == ' ' || c == '\u{85}'
        || c == '\u{A0}' || c == '\u{1680}' || ('\u{2000}' <= c && c <= '\u{200A}') || c
        == '\u{2028}' || c == '\u{2029}' || c == '\u{202F}' || c == '\u{205F}' || c == '\u{3000}'
}

/// The characters of a string slice, in order.
pub fn chars_of(s: &str) -> (v: Vec<char>)
    ensures
        v@ == s@,
{
    broadcast use vstd::string::group_string_axioms;
    let mut it = s.chars();
    let mut v: Vec<char> = Vec::new();
    loop
        invariant
            it.obeys_prophetic_iter_laws(),
            it.decrease() is Some,
            v@ + it.remaining() == s@,
        ensures
            v@ == s@,
        decreases it.decrease()->0,
    {
        match it.next() {
            Some(c) => {
                proof {
                    assert(v@.push(c) + it.remaining() =~= v@ + seq![c] + it.remaining());
                }
                v.push(c);
            },
            None => {
                proof {
                    assert(v@ + it.remaining() =~= v@);
                }
                break;
            },
        }
    }
    v
}

/// A `String` holding exactly the given characters.
#[verifier::external_body]
pub(crate) fn string_of(v: &[char]) -> (s: String)
    ensures
        s@ == v@,
{
    String::from_iter(v)
}


/// A class of characters a scan stops at.
#[derive(Clone, Copy, PartialEq, Eq, Debug)]
pub enum Delim {
    /// Exactly this character.
    One(char),
    /// Anything `char::is_whitespace` accepts.
    Space,
    /// The separators of a dotted version: `.`, `-` and `+`.
    VersionSep,
}

pub open spec fn hits(d: Delim, c: char) -> bool {
    match d {
        Delim::One(x) => c == x,
        Delim::Space => is_ws(c),
        Delim::VersionSep => c == '.' || c == '-' || c == '+',
    }
}

pub fn hit(d: Delim, c: char) -> (b: bool)
    ensures
        b == hits(d, c),
{
    match d {
        Delim::One(x) => c == x,
        Delim::Space => is_whitespace(c),
        Delim::VersionSep => c == '.' || c == '-' || c == '+',
    }
}

/// Index of the first character at or after `i` that `d` hits.
pub open spec fn first_hit_from(s: Seq<char>, d: Delim, i: int) -> Option<int>
    decreases s.len() - i,
{
    if i < 0 || i >= s.len() {
        None
    } else if hits(d, s[i]) {
        Some(i)
    } else {
        first_hit_from(s, d, i + 1)
    }
}

pub open spec fn first_hit(s: Seq<char>, d: Delim) -> Option<int> {
    first_hit_from(s, d, 0)
}

/// Index of the last character before `k` that `d` hits.
pub open spec fn last_hit_to(s: Seq<char>, d: Delim, k: int) -> Option<int>
    decreases k,
{
    if k <= 0 || k > s.len() {
        None
    } else if hits(d, s[k - 1]) {
        Some(k - 1)
    } else {
        last_hit_to(s, d, k - 1)
    }
}

pub open spec fn last_hit(s: Seq<char>, d: Delim) -> Option<int> {
    last_hit_to(s, d, s.len() as int)
}

/// Where the leading run of characters `d` hits ends, scanning from `i`.
pub open spec fn lead_end(s: Seq<char>, d: Delim, i: int) -> int
    decreases s.len() - i,
{
    if 0 <= i < s.len() && hits(d, s[i]) {
        lead_end(s, d, i + 1)
    } else {
        i
    }
}

/// Where the trailing run of characters `d` hits starts, scanning down from `k`.
pub open spec fn trail_start(s: Seq<char>, d: Delim, k: int) -> int
    decreases k,
{
    if 0 < k <= s.len() && hits(d, s[k - 1]) {
        trail_start(s, d, k - 1)
    } else {
        k
    }
}

/// `str::trim_start_matches` for a class of characters.
pub open spec fn strip_start(s: Seq<char>, d: Delim) -> Seq<char> {
    s.skip(lead_end(s, d, 0))
}

/// `str::trim_end_matches` for a class of characters.
pub open spec fn strip_end(s: Seq<char>, d: Delim) -> Seq<char> {
    s.take(trail_start(s, d, s.len() as int))
}

/// `str::trim`.
pub open spec fn trim(s: Seq<char>) -> Seq<char> {
    strip_end(strip_start(s, Delim::Space), Delim::Space)
}

/// `v[a..b]` as a new vector.
pub fn slice(v: &Vec<char>, a: usize, b: usize) -> (r: Vec<char>)
    requires
        a <= b <= v.len(),
    ensures
        r@ == v@.subrange(a as int, b as int),
{
    let mut r: Vec<char> = Vec::new();
    let mut i = a;
    while i < b
        invariant
            a <= i <= b <= v.len(),
            r@ == v@.subrange(a as int, i as int),
        decreases b - i,
    {
        r.push(v[i]);
        i += 1;
    }
    r
}

/// Where the leading run of characters `d` hits ends.
pub fn lead_of(v: &Vec<char>, d: Delim) -> (i: usize)
    ensures
        i == lead_end(v@, d, 0),
        i <= v.len(),
{
    let mut i: usize = 0;
    while i < v.len() && hit(d, v[i])
        invariant
            0 <= i <= v.len(),
            lead_end(v@, d, 0) == lead_end(v@, d, i as int),
        decreases v.len() - i,
    {
        i += 1;
    }
    i
}

/// Where the trailing run of characters `d` hits starts.
pub fn trail_of(v: &Vec<char>, d: Delim) -> (k: usize)
    ensures
        k == trail_start(v@, d, v@.len() as int),
        k <= v.len(),
{
    let mut k: usize = v.len();
    while k > 0 && hit(d, v[k - 1])
        invariant
            0 <= k <= v.len(),
            trail_start(v@, d, v.len() as int) == trail_start(v@, d, k as int),
        decreases k,
    {
        k -= 1;
    }
    k
}

/// Bounds `(a, b)` with `trim(v) == v[a..b]`.
pub fn trim_bounds(v: &Vec<char>) -> (r: (usize, usize))
    ensures
        r.0 <= r.1 <= v.len(),
        trim(v@) == v@.subrange(r.0 as int, r.1 as int),
{
    let a = lead_of(v, Delim::Space);
    let t = slice(v, a, v.len());
    let k = trail_of(&t, Delim::Space);
    proof {
        assert(strip_start(v@, Delim::Space) =~= t@);
        assert(t@.take(k as int) =~= v@.subrange(a as int, a + k));
    }
    (a, a + k)
}

pub fn strip_start_of(v: &Vec<char>, d: Delim) -> (r: Vec<char>)
    ensures
        r@ == strip_start(v@, d),
{
    let mut i: usize = 0;
    while i < v.len() && hit(d, v[i])
        invariant
            0 <= i <= v.len(),
            lead_end(v@, d, 0) == lead_end(v@, d, i as int),
        decreases v.len() - i,
    {
        i += 1;
    }
    slice(v, i, v.len())
}

pub fn strip_end_of(v: &Vec<char>, d: Delim) -> (r: Vec<char>)
    ensures
        r@ == strip_end(v@, d),
{
    let mut k: usize = v.len();
    while k > 0 && hit(d, v[k - 1])
        invariant
            0 <= k <= v.len(),
            trail_start(v@, d, v.len() as int) == trail_start(v@, d, k as int),
        decreases k,
    {
        k -= 1;
    }
    slice(v, 0, k)
}

pub fn trim_of(v: &Vec<char>) -> (r: Vec<char>)
    ensures
        r@ == trim(v@),
{
    let a = strip_start_of(v, Delim::Space);
    strip_end_of(&a, Delim::Space)
}

pub fn first_hit_of(v: &Vec<char>, d: Delim) -> (r: Option<usize>)
    ensures
        r matches Some(i) ==> first_hit(v@, d) == Some(i as int) && i < v.len(),
        r is None ==> first_hit(v@, d) is None,
{
    let mut i: usize = 0;
    while i < v.len()
        invariant
            0 <= i <= v.len(),
            first_hit(v@, d) == first_hit_from(v@, d, i as int),
        decreases v.len() - i,
    {
        if hit(d, v[i]) {
            return Some(i);
        }
        i += 1;
    }
    None
}

pub fn last_hit_of(v: &Vec<char>, d: Delim) -> (r: Option<usize>)
    ensures
        r matches Some(i) ==> last_hit(v@, d) == Some(i as int) && i < v.len(),
        r is None ==> last_hit(v@, d) is None,
{
    let mut k: usize = v.len();
    while k > 0
        invariant
            0 <= k <= v.len(),
            last_hit(v@, d) == last_hit_to(v@, d, k as int),
        decreases k,
    {
        if hit(d, v[k - 1]) {
            return Some(k - 1);
        }
        k -= 1;
    }
    None
}

/// `str::split_once` on a character class.
pub open spec fn split_once(s: Seq<char>, d: Delim) -> Option<(Seq<char>, Seq<char>)> {
    match first_hit(s, d) {
        Some(i) => Some((s.take(i), s.skip(i + 1))),
        None => None,
    }
}

/// `str::rsplit_once` on a character class.
pub open spec fn rsplit_once(s: Seq<char>, d: Delim) -> Option<(Seq<char>, Seq<char>)> {
    match last_hit(s, d) {
        Some(i) => Some((s.take(i), s.skip(i + 1))),
        None => None,
    }
}

pub fn split_once_of(v: &Vec<char>, d: Delim) -> (r: Option<(Vec<char>, Vec<char>)>)
    ensures
        r matches Some(p) ==> split_once(v@, d) == Some((p.0@, p.1@)),
        r is None ==> split_once(v@, d) is None,
{
    match first_hit_of(v, d) {
        Some(i) => Some((slice(v, 0, i), slice(v, i + 1, v.len()))),
        None => None,
    }
}

pub fn rsplit_once_of(v: &Vec<char>, d: Delim) -> (r: Option<(Vec<char>, Vec<char>)>)
    ensures
        r matches Some(p) ==> rsplit_once(v@, d) == Some((p.0@, p.1@)),
        r is None ==> rsplit_once(v@, d) is None,
{
    match last_hit_of(v, d) {
        Some(i) => Some((slice(v, 0, i), slice(v, i + 1, v.len()))),
        None => None,
    }
}

/// `str::split` on a character class, from index `start` on.
pub open spec fn split_from(s: Seq<char>, d: Delim, start: int) -> Seq<Seq<char>>
    decreases s.len() - start,
{
    if start < 0 || start > s.len() {
        seq![]
    } else {
        match first_hit_from(s, d, start) {
            Some(i) => if start <= i < s.len() {
                seq![s.subrange(start, i)] + split_from(s, d, i + 1)
            } else {
                seq![s.subrange(start, s.len() as int)]
            },
            None => seq![s.subrange(start, s.len() as int)],
        }
    }
}

/// `str::split`: always at least one piece.
pub open spec fn split(s: Seq<char>, d: Delim) -> Seq<Seq<char>> {
    split_from(s, d, 0)
}

proof fn lemma_first_hit_from_skip(s: Seq<char>, d: Delim, start: int, j: int)
    requires
        0 <= start <= j <= s.len(),
        forall|k: int| start <= k < j ==> !hits(d, #[trigger] s[k]),
    ensures
        first_hit_from(s, d, start) == first_hit_from(s, d, j),
    decreases j - start,
{
    if start < j {
        lemma_first_hit_from_skip(s, d, start + 1, j);
    }
}

/// The views of a vector of character vectors.
pub open spec fn views(v: Seq<Vec<char>>) -> Seq<Seq<char>> {
    v.map_values(|x: Vec<char>| x@)
}

pub fn split_of(v: &Vec<char>, d: Delim) -> (r: Vec<Vec<char>>)
    ensures
        views(r@) == split(v@, d),
{
    let mut out: Vec<Vec<char>> = Vec::new();
    let mut start: usize = 0;
    let mut j: usize = 0;
    while j < v.len()
        invariant
            0 <= start <= j <= v.len(),
            forall|k: int| start <= k < j ==> !hits(d, #[trigger] v@[k]),
            views(out@) + split_from(v@, d, start as int) == split(v@, d),
        decreases v.len() - j,
    {
        if hit(d, v[j]) {
            proof {
                lemma_first_hit_from_skip(v@, d, start as int, j as int);
            }
            let piece = slice(v, start, j);
            let ghost before = views(out@);
            out.push(piece);
            proof {
                assert(views(out@) =~= before.push(v@.subrange(start as int, j as int)));
                assert(split_from(v@, d, start as int) == seq![v@.subrange(start as int, j as int)]
                    + split_from(v@, d, j + 1));
                assert(before + split_from(v@, d, start as int) =~= views(out@)
                    + split_from(v@, d, j + 1));
            }
            start = j + 1;
        }
        j += 1;
    }
    proof {
        lemma_first_hit_from_skip(v@, d, start as int, j as int);
    }
    let last = slice(v, start, v.len());
    let ghost before = views(out@);
    out.push(last);
    proof {
        assert(views(out@) =~= before.push(v@.subrange(start as int, v.len() as int)));
        assert(before + split_from(v@, d, start as int) =~= views(out@));
    }
    out
}

/// `s[i..]` begins with `pat`.
pub open spec fn matches_at(s: Seq<char>, pat: Seq<char>, i: int) -> bool {
    0 <= i && i + pat.len() <= s.len() && s.subrange(i, i + pat.len()) == pat
}

/// The first index at or after `i` where `pat` occurs.
pub open spec fn find_from(s: Seq<char>, pat: Seq<char>, i: int) -> Option<int>
    decreases s.len() + 1 - i,
{
    if i < 0 || i + pat.len() > s.len() {
        None
    } else if matches_at(s, pat, i) {
        Some(i)
    } else {
        find_from(s, pat, i + 1)
    }
}

/// `str::find` with a string pattern.
pub open spec fn find(s: Seq<char>, pat: Seq<char>) -> Option<int> {
    find_from(s, pat, 0)
}

pub open spec fn contains(s: Seq<char>, pat: Seq<char>) -> bool {
    find(s, pat) is Some
}

pub open spec fn starts_with(s: Seq<char>, pat: Seq<char>) -> bool {
    matches_at(s, pat, 0)
}

pub open spec fn ends_with(s: Seq<char>, pat: Seq<char>) -> bool {
    pat.len() <= s.len() && matches_at(s, pat, s.len() - pat.len())
}

pub fn matches_at_of(v: &Vec<char>, pat: &Vec<char>, i: usize) -> (b: bool)
    ensures
        b == matches_at(v@, pat@, i as int),
{
    if i > v.len() || pat.len() > v.len() - i {
        return false;
    }
    let mut k: usize = 0;
    while k < pat.len()
        invariant
            i + pat.len() <= v.len(),
            0 <= k <= pat.len(),
            forall|m: int| 0 <= m < k ==> v@[i + m] == pat@[m],
        decreases pat.len() - k,
    {
        if v[i + k] != pat[k] {
            proof {
                assert(v@.subrange(i as int, i + pat.len())[k as int] != pat@[k as int]);
            }
            return false;
        }
        k += 1;
    }
    proof {
        assert(v@.subrange(i as int, i + pat.len()) =~= pat@);
    }
    true
}

pub fn find_of(v: &Vec<char>, pat: &Vec<char>) -> (r: Option<usize>)
    ensures
        r matches Some(i) ==> find(v@, pat@) == Some(i as int) && i + pat.len() <= v.len(),
        r is None ==> find(v@, pat@) is None,
{
    if pat.len() > v.len() {
        return None;
    }
    let last = v.len() - pat.len();
    let mut i: usize = 0;
    loop
        invariant
            pat.len() <= v.len(),
            last == v.len() - pat.len(),
            0 <= i <= last,
            find(v@, pat@) == find_from(v@, pat@, i as int),
        decreases last - i,
    {
        if matches_at_of(v, pat, i) {
            return Some(i);
        }
        if i == last {
            proof {
                assert(find_from(v@, pat@, i + 1) is None);
            }
            return None;
        }
        i += 1;
    }
}

pub fn starts_with_of(v: &Vec<char>, pat: &Vec<char>) -> (b: bool)
    ensures
        b == starts_with(v@, pat@),
{
    matches_at_of(v, pat, 0)
}

pub fn ends_with_of(v: &Vec<char>, pat: &Vec<char>) -> (b: bool)
    ensures
        b == ends_with(v@, pat@),
{
    if pat.len() > v.len() {
        false
    } else {
        matches_at_of(v, pat, v.len() - pat.len())
    }
}

pub fn contains_of(v: &Vec<char>, pat: &Vec<char>) -> (b: bool)
    ensures
        b == contains(v@, pat@),
{
    find_of(v, pat).is_some()
}

pub fn eq_of(a: &Vec<char>, b: &Vec<char>) -> (r: bool)
    ensures
        r == (a@ == b@),
{
    if a.len() != b.len() {
        return false;
    }
    let r = matches_at_of(a, b, 0);
    proof {
        assert(a@.subrange(0, b@.len() as int) =~= a@);
    }
    r
}

pub fn str_eq(a: &str, b: &str) -> (r: bool)
    ensures
        r == (a@ == b@),
{
    eq_of(&chars_of(a), &chars_of(b))
}

/// A line, with a trailing carriage return removed.
pub open spec fn strip_cr(t: Seq<char>) -> Seq<char> {
    if t.len() > 0 && t.last() == '\r' {
        t.drop_last()
    } else {
        t
    }
}

/// `str::lines` from index `start` on: split at `\n`, each line loses one
/// trailing `\r`, and text after the last `\n` is a line only when non-empty.
pub open spec fn lines_from(s: Seq<char>, start: int) -> Seq<Seq<char>>
    decreases s.len() - start,
{
    if start < 0 || start >= s.len() {
        seq![]
    } else {
        match first_hit_from(s, Delim::One('\n'), start) {
            Some(i) => if start <= i < s.len() {
                seq![strip_cr(s.subrange(start, i))] + lines_from(s, i + 1)
            } else {
                seq![s.subrange(start, s.len() as int)]
            },
            None => seq![s.subrange(start, s.len() as int)],
        }
    }
}

pub open spec fn lines(s: Seq<char>) -> Seq<Seq<char>> {
    lines_from(s, 0)
}

pub fn strip_cr_of(t: Vec<char>) -> (r: Vec<char>)
    ensures
        r@ == strip_cr(t@),
{
    let mut t = t;
    if t.len() > 0 && t[t.len() - 1] == '\r' {
        t.pop();
    }
    t
}

pub fn lines_of(v: &Vec<char>) -> (r: Vec<Vec<char>>)
    ensures
        views(r@) == lines(v@),
{
    let mut out: Vec<Vec<char>> = Vec::new();
    let mut start: usize = 0;
    let mut j: usize = 0;
    while j < v.len()
        invariant
            0 <= start <= j <= v.len(),
            forall|k: int| start <= k < j ==> !hits(Delim::One('\n'), #[trigger] v@[k]),
            views(out@) + lines_from(v@, start as int) == lines(v@),
        decreases v.len() - j,
    {
        if v[j] == '\n' {
            proof {
                lemma_first_hit_from_skip(v@, Delim::One('\n'), start as int, j as int);
            }
            let piece = strip_cr_of(slice(v, start, j));
            let ghost before = views(out@);
            out.push(piece);
            proof {
                assert(views(out@) =~= before.push(strip_cr(v@.subrange(start as int, j as int))));
                assert(before + lines_from(v@, start as int) =~= views(out@) + lines_from(
                    v@,
                    j + 1,
                ));
            }
            start = j + 1;
        }
        j += 1;
    }
    if start < v.len() {
        proof {
            lemma_first_hit_from_skip(v@, Delim::One('\n'), start as int, j as int);
        }
        let last = slice(v, start, v.len());
        let ghost before = views(out@);
        out.push(last);
        proof {
            assert(views(out@) =~= before.push(v@.subrange(start as int, v.len() as int)));
            assert(before + lines_from(v@, start as int) =~= views(out@));
        }
    } else {
        proof {
            assert(views(out@) + lines_from(v@, start as int) =~= views(out@));
        }
    }
    out
}

pub open spec fn is_ascii_alnum(c: char) -> bool {
    ('0' <= c && c <= '9') || ('a' <= c && c <= 'z') || ('A' <= c && c <= 'Z')
}

pub open spec fn ascii_lower(c: char) -> char {
    if 'A' <= c && c <= 'Z' {
        ((c as u32) + 32) as char
    } else {
        c
    }
}

pub fn is_ascii_alnum_char(c: char) -> (b: bool)
    ensures
        b == is_ascii_alnum(c),
{
    ('0' <= c && c <= '9') || ('a' <= c && c <= 'z') || ('A' <= c && c <= 'Z')
}

pub fn ascii_lower_char(c: char) -> (r: char)
    ensures
        r == ascii_lower(c),
{
    if 'A' <= c && c <= 'Z' {
        let b = c as u8;
        assert(b as u32 == c as u32);
        (b + 32) as char
    } else {
        c
    }
}

/// `str::to_ascii_lowercase`.
pub open spec fn lower_ascii(s: Seq<char>) -> Seq<char> {
    s.map_values(|c: char| ascii_lower(c))
}

pub fn lower_ascii_of(v: &Vec<char>) -> (r: Vec<char>)
    ensures
        r@ == lower_ascii(v@),
{
    let mut r: Vec<char> = Vec::new();
    let mut i: usize = 0;
    while i < v.len()
        invariant
            0 <= i <= v.len(),
            r@ == lower_ascii(v@.take(i as int)),
        decreases v.len() - i,
    {
        r.push(ascii_lower_char(v[i]));
        proof {
            assert(v@.take(i + 1) =~= v@.take(i as int).push(v@[i as int]));
        }
        i += 1;
    }
    proof {
        assert(v@.take(v.len() as int) =~= v@);
    }
    r
}

/// `str::eq_ignore_ascii_case`.
pub open spec fn eq_ignore_ascii_case(a: Seq<char>, b: Seq<char>) -> bool {
    lower_ascii(a) == lower_ascii(b)
}

pub fn eq_ignore_ascii_case_of(a: &Vec<char>, b: &Vec<char>) -> (r: bool)
    ensures
        r == eq_ignore_ascii_case(a@, b@),
{
    eq_of(&lower_ascii_of(a), &lower_ascii_of(b))
}

/// `a` followed by `b`, in place.
pub fn push_all(a: &mut Vec<char>, b: &Vec<char>)
    ensures
        final(a)@ == old(a)@ + b@,
{
    let mut i: usize = 0;
    let ghost a0 = a@;
    while i < b.len()
        invariant
            0 <= i <= b.len(),
            a@ == a0 + b@.take(i as int),
        decreases b.len() - i,
    {
        a.push(b[i]);
        proof {
            assert(b@.take(i + 1) =~= b@.take(i as int).push(b@[i as int]));
            assert(a0 + b@.take(i + 1) =~= (a0 + b@.take(i as int)).push(b@[i as int]));
        }
        i += 1;
    }
    proof {
        assert(b@.take(b.len() as int) =~= b@);
    }
}

pub open spec fn digit(n: nat) -> char {
    if n == 0 { '0' }
    else if n == 1 { '1' }
    else if n == 2 { '2' }
    else if n == 3 { '3' }
    else if n == 4 { '4' }
    else if n == 5 { '5' }
    else if n == 6 { '6' }
    else if n == 7 { '7' }
    else if n == 8 { '8' }
    else { '9' }
}

/// The decimal digits of `n`, without leading zeros.
pub open spec fn dec(n: nat) -> Seq<char>
    decreases n,
{
    if n < 10 {
        seq![digit(n)]
    } else {
        dec(n / 10).push(digit(n % 10))
    }
}

fn digit_char(n: u128) -> (c: char)
    requires
        n < 10,
    ensures
        c == digit(n as nat),
{
    if n == 0 { '0' }
    else if n == 1 { '1' }
    else if n == 2 { '2' }
    else if n == 3 { '3' }
    else if n == 4 { '4' }
    else if n == 5 { '5' }
    else if n == 6 { '6' }
    else if n == 7 { '7' }
    else if n == 8 { '8' }
    else { '9' }
}

/// `n.to_string()` for an unsigned integer.
pub fn dec_of(n: u128) -> (r: Vec<char>)
    ensures
        r@ == dec(n as nat),
    decreases n,
{
    if n < 10 {
        let mut r = Vec::new();
        r.push(digit_char(n));
        r
    } else {
        let mut r = dec_of(n / 10);
        r.push(digit_char(n % 10));
        r
    }
}

/// `n.to_string()` for a signed integer.
pub open spec fn dec_signed(n: int) -> Seq<char> {
    if n < 0 {
        seq!['-'] + dec((-n) as nat)
    } else {
        dec(n as nat)
    }
}

pub fn dec_signed_of(n: i64) -> (r: Vec<char>)
    ensures
        r@ == dec_signed(n as int),
{
    if n < 0 {
        let m: u128 = if n == i64::MIN {
            9223372036854775808u128
        } else {
            (-n) as u128
        };
        let mut r = Vec::new();
        r.push('-');
        let d = dec_of(m);
        push_all(&mut r, &d);
        r
    } else {
        dec_of(n as u128)
    }
}

/// A string literal's characters.
pub fn lit(s: &str) -> (v: Vec<char>)
    ensures
        v@ == s@,
{
    chars_of(s)
}

pub open spec fn is_digit(c: char) -> bool {
    '0' <= c && c <= '9'
}

pub open spec fn all_digits(s: Seq<char>) -> bool {
    forall|i: int| 0 <= i < s.len() ==> is_digit(#[trigger] s[i])
}

/// The value of a run of decimal digits.
pub open spec fn digits_value(s: Seq<char>) -> nat
    decreases s.len(),
{
    if s.len() == 0 {
        0
    } else {
        digits_value(s.drop_last()) * 10 + ((s.last() as int - '0' as int) as nat)
    }
}

/// `u64::from_str`: an optional `+`, then one or more decimal digits whose
/// value fits.
pub open spec fn parse_u64(s: Seq<char>) -> Option<u64> {
    let body = if s.len() > 0 && s[0] == '+' {
        s.drop_first()
    } else {
        s
    };
    if body.len() > 0 && all_digits(body) && digits_value(body) <= u64::MAX {
        Some(digits_value(body) as u64)
    } else {
        None
    }
}

proof fn lemma_digits_value_mono(s: Seq<char>, k: int)
    requires
        all_digits(s),
        0 <= k <= s.len(),
    ensures
        digits_value(s.take(k)) <= digits_value(s),
    decreases s.len() - k,
{
    if k < s.len() {
        lemma_digits_value_mono(s, k + 1);
        assert(s.take(k + 1).drop_last() =~= s.take(k));
        assert(s.take(k + 1).last() == s[k]);
        assert(is_digit(s[k]));
    } else {
        assert(s.take(k) =~= s);
    }
}

/// `part.parse::<u64>().unwrap_or(0)`.
pub fn parse_u64_or_zero(v: &Vec<char>) -> (r: u64)
    ensures
        r == (match parse_u64(v@) {
            Some(n) => n,
            None => 0,
        }),
{
    let start: usize = if v.len() > 0 && v[0] == '+' { 1 } else { 0 };
    let body = slice(v, start, v.len());
    proof {
        if v@.len() > 0 && v@[0] == '+' {
            assert(body@ =~= v@.drop_first());
        } else {
            assert(body@ =~= v@);
        }
    }
    if body.len() == 0 {
        return 0;
    }
    let mut val: u64 = 0;
    let mut i: usize = 0;
    while i < body.len()
        invariant
            0 <= i <= body.len(),
            body@ == (if v@.len() > 0 && v@[0] == '+' {
                v@.drop_first()
            } else {
                v@
            }),
            all_digits(body@.take(i as int)),
            val as nat == digits_value(body@.take(i as int)),
        decreases body.len() - i,
    {
        let c = body[i];
        proof {
            assert(body@.take(i + 1).drop_last() =~= body@.take(i as int));
            assert(body@.take(i + 1).last() == c);
        }
        if !('0' <= c && c <= '9') {
            proof {
                assert(!is_digit(body@[i as int]));
            }
            return 0;
        }
        let d: u64 = (c as u32 - '0' as u32) as u64;
        match val.checked_mul(10) {
            Some(m) => match m.checked_add(d) {
                Some(n) => {
                    val = n;
                },
                None => {
                    proof {
                        if all_digits(body@) {
                            lemma_digits_value_mono(body@, i + 1);
                        }
                    }
                    return 0;
                },
            },
            None => {
                proof {
                    if all_digits(body@) {
                        lemma_digits_value_mono(body@, i + 1);
                    }
                }
                return 0;
            },
        }
        proof {
            assert forall|k: int| 0 <= k < i + 1 implies is_digit(#[trigger] body@.take(i + 1)[k]) by {
                if k < i {
                    assert(body@.take(i + 1)[k] == body@.take(i as int)[k]);
                }
            }
        }
        i += 1;
    }
    proof {
        assert(body@.take(body.len() as int) =~= body@);
    }
    val
}

/// `i64::from_str`: an optional `+` or `-`, then one or more decimal digits
/// whose signed value fits.
pub open spec fn parse_i64(s: Seq<char>) -> Option<i64> {
    let neg = s.len() > 0 && s[0] == '-';
    let body = if s.len() > 0 && (s[0] == '+' || s[0] == '-') {
        s.drop_first()
    } else {
        s
    };
    if body.len() > 0 && all_digits(body) {
        if neg && digits_value(body) <= 0x8000_0000_0000_0000 {
            Some((-(digits_value(body) as int)) as i64)
        } else if !neg && digits_value(body) <= i64::MAX {
            Some(digits_value(body) as i64)
        } else {
            None
        }
    } else {
        None
    }
}

/// The value of a non-empty run of digits when it is at most `cap`.
fn digits_up_to(body: &Vec<char>, cap: u128) -> (r: Option<u128>)
    requires
        cap <= 0x1_0000_0000_0000_0000,
    ensures
        match r {
            Some(n) => body@.len() > 0 && all_digits(body@) && n == digits_value(body@) && n <= cap,
            None => !(body@.len() > 0 && all_digits(body@) && digits_value(body@) <= cap),
        },
{
    if body.len() == 0 {
        return None;
    }
    let mut val: u128 = 0;
    let mut i: usize = 0;
    while i < body.len()
        invariant
            0 <= i <= body.len(),
            cap <= 0x1_0000_0000_0000_0000,
            all_digits(body@.take(i as int)),
            val as nat == digits_value(body@.take(i as int)),
            val <= cap,
        decreases body.len() - i,
    {
        let c = body[i];
        proof {
            assert(body@.take(i + 1).drop_last() =~= body@.take(i as int));
            assert(body@.take(i + 1).last() == c);
        }
        if !('0' <= c && c <= '9') {
            proof {
                assert(!is_digit(body@[i as int]));
            }
            return None;
        }
        let d: u128 = (c as u32 - '0' as u32) as u128;
        let next: u128 = val * 10 + d;
        if next > cap {
            proof {
                if all_digits(body@) {
                    lemma_digits_value_mono(body@, i + 1);
                }
            }
            return None;
        }
        val = next;
        proof {
            assert forall|k: int| 0 <= k < i + 1 implies is_digit(#[trigger] body@.take(i + 1)[k]) by {
                if k < i {
                    assert(body@.take(i + 1)[k] == body@.take(i as int)[k]);
                }
            }
        }
        i += 1;
    }
    proof {
        assert(body@.take(body.len() as int) =~= body@);
    }
    Some(val)
}

pub fn parse_i64_of(v: &Vec<char>) -> (r: Option<i64>)
    ensures
        r == parse_i64(v@),
{
    let neg = v.len() > 0 && v[0] == '-';
    let start: usize = if v.len() > 0 && (v[0] == '+' || v[0] == '-') { 1 } else { 0 };
    let body = slice(v, start, v.len());
    proof {
        if v@.len() > 0 && (v@[0] == '+' || v@[0] == '-') {
            assert(body@ =~= v@.drop_first());
        } else {
            assert(body@ =~= v@);
        }
    }
    if neg {
        match digits_up_to(&body, 0x8000_0000_0000_0000) {
            Some(n) => if n == 0x8000_0000_0000_0000 {
                Some(i64::MIN)
            } else {
                Some(-(n as i64))
            },
            None => None,
        }
    } else {
        match digits_up_to(&body, 0x7fff_ffff_ffff_ffff) {
            Some(n) => Some(n as i64),
            None => None,
        }
    }
}

/// What `str::to_lowercase` returns: Unicode's full lowercase mapping.
pub uninterp spec fn unicode_lower(s: Seq<char>) -> Seq<char>;

/// What `str::to_uppercase` returns: Unicode's full uppercase mapping.
pub uninterp spec fn unicode_upper(s: Seq<char>) -> Seq<char>;

/// `str::to_lowercase`: the result depends on the text alone.
#[verifier::external_body]
pub(crate) fn to_lowercase(s: &str) -> (r: String)
    ensures
        r@ == unicode_lower(s@),
{
    s.to_lowercase()
}

/// `str::to_uppercase`: the result depends on the text alone.
#[verifier::external_body]
pub(crate) fn to_uppercase(s: &str) -> (r: String)
    ensures
        r@ == unicode_upper(s@),
{
    s.to_uppercase()
}

/// The text after the last `/`, or all of it when there is none.
pub open spec fn after_last_slash(s: Seq<char>) -> Seq<char> {
    match last_hit(s, Delim::One('/')) {
        Some(i) => s.skip(i + 1),
        None => s,
    }
}

/// Index where the text after the last `/` starts.
pub fn after_last_slash_start(v: &Vec<char>) -> (i: usize)
    ensures
        i <= v.len(),
        v@.skip(i as int) == after_last_slash(v@),
{
    match last_hit_of(v, Delim::One('/')) {
        Some(k) => k + 1,
        None => {
            proof {
                assert(v@.skip(0) =~= v@);
            }
            0
        },
    }
}


/// Lexicographic order by character, the order `String`'s `Ord` gives.
pub open spec fn lex_lt(a: Seq<char>, b: Seq<char>) -> bool
    decreases a.len(),
{
    if a.len() == 0 {
        b.len() > 0
    } else if b.len() == 0 {
        false
    } else if a[0] != b[0] {
        a[0] < b[0]
    } else {
        lex_lt(a.drop_first(), b.drop_first())
    }
}

pub proof fn lemma_lex_lt_transitive(a: Seq<char>, b: Seq<char>, c: Seq<char>)
    requires
        lex_lt(a, b),
        lex_lt(b, c),
    ensures
        lex_lt(a, c),
    decreases a.len(),
{
    if a.len() > 0 && b.len() > 0 && c.len() > 0 && a[0] == b[0] && b[0] == c[0] {
        lemma_lex_lt_transitive(a.drop_first(), b.drop_first(), c.drop_first());
    }
}

pub proof fn lemma_lex_lt_asymmetric(a: Seq<char>, b: Seq<char>)
    requires
        lex_lt(a, b),
    ensures
        !lex_lt(b, a),
    decreases a.len(),
{
    if a.len() > 0 && b.len() > 0 && a[0] == b[0] {
        lemma_lex_lt_asymmetric(a.drop_first(), b.drop_first());
    }
}

pub fn lex_lt_of(a: &Vec<char>, b: &Vec<char>) -> (r: bool)
    ensures
        r == lex_lt(a@, b@),
{
    let mut i: usize = 0;
    proof {
        assert(a@.skip(0) =~= a@);
        assert(b@.skip(0) =~= b@);
    }
    while i < a.len() && i < b.len() && a[i] == b[i]
        invariant
            0 <= i <= a@.len(),
            i <= b@.len(),
            lex_lt(a@, b@) == lex_lt(a@.skip(i as int), b@.skip(i as int)),
        decreases a.len() - i,
    {
        proof {
            assert(a@.skip(i as int).drop_first() =~= a@.skip(i + 1));
            assert(b@.skip(i as int).drop_first() =~= b@.skip(i + 1));
        }
        i += 1;
    }
    if i == a.len() {
        i < b.len()
    } else if i == b.len() {
        false
    } else {
        a[i] < b[i]
    }
}


pub proof fn lemma_lex_lt_irreflexive(a: Seq<char>)
    ensures
        !lex_lt(a, a),
    decreases a.len(),
{
    if a.len() > 0 {
        lemma_lex_lt_irreflexive(a.drop_first());
    }
}

pub proof fn lemma_lex_lt_total(a: Seq<char>, b: Seq<char>)
    requires
        a != b,
    ensures
        lex_lt(a, b) || lex_lt(b, a),
    decreases a.len(),
{
    if a.len() > 0 && b.len() > 0 && a[0] == b[0] {
        if a.drop_first() == b.drop_first() {
            assert(a =~= seq![a[0]] + a.drop_first());
            assert(b =~= seq![b[0]] + b.drop_first());
        }
        lemma_lex_lt_total(a.drop_first(), b.drop_first());
    } else if a.len() > 0 && b.len() > 0 {
    } else if a.len() == 0 && b.len() == 0 {
        assert(a =~= b);
    }
}

} // verus!
