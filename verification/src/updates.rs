//! Deciding whether a published release is newer, and which of its assets
//! this platform can install.

use vstd::prelude::*;
use crate::text::{
    chars_of, dec, dec_of, ends_with, ends_with_of, lit, lower_ascii, lower_ascii_of, parse_u64,
    parse_u64_or_zero, push_all, split, split_of, strip_start, strip_start_of, string_of, views,
    Delim,
};

verus! {

/// One file attached to a release, as the releases API lists it.
#[derive(Clone, PartialEq, Eq, Debug)]
pub struct ApiAsset {
    pub name: String,
    pub browser_download_url: String,
    pub size: u64,
}

/// The installer for this platform, when the release carries one.
#[derive(Clone, PartialEq, Eq, Debug)]
pub struct Installer {
    pub name: String,
    pub url: String,
    /// Declared by the API, and compared against the bytes received.
    pub size: u64,
}

/// A release newer than the running binary.
#[derive(Clone, PartialEq, Eq, Debug)]
pub struct Update {
    /// Without the leading `v`.
    pub version: String,
    /// The release page: the fallback when there is no installer to fetch.
    pub url: String,
    pub installer: Option<Installer>,
}

/// The version this library was built as.
pub open spec fn current_version_spec() -> Seq<char> {
    "0.2.0"@
}

pub fn current_version() -> (r: &'static str)
    ensures
        r@ == current_version_spec(),
{
    "0.2.0"
}

pub open spec fn part_value(p: Seq<char>) -> u64 {
    match parse_u64(p) {
        Some(n) => n,
        None => 0,
    }
}

/// The numeric segments of a version: leading `v`s dropped, split at `.`,
/// `-` and `+`, each segment read as a number or as 0.
pub open spec fn version_parts(v: Seq<char>) -> Seq<u64> {
    split(strip_start(v, Delim::One('v')), Delim::VersionSep).map_values(|p: Seq<char>| part_value(p))
}

/// Segment `i`, with missing segments read as 0.
pub open spec fn part_at(ps: Seq<u64>, i: int) -> u64 {
    if 0 <= i < ps.len() {
        ps[i]
    } else {
        0
    }
}

pub open spec fn max_len(a: Seq<u64>, b: Seq<u64>) -> int {
    if a.len() >= b.len() {
        a.len() as int
    } else {
        b.len() as int
    }
}

/// The first differing segment from `i` on decides; none differing is not newer.
pub open spec fn newer_from(a: Seq<u64>, b: Seq<u64>, i: int) -> bool
    decreases max_len(a, b) - i,
{
    if i < 0 || i >= max_len(a, b) {
        false
    } else if part_at(a, i) != part_at(b, i) {
        part_at(a, i) > part_at(b, i)
    } else {
        newer_from(a, b, i + 1)
    }
}

pub open spec fn is_newer_spec(candidate: Seq<char>, current: Seq<char>) -> bool {
    newer_from(version_parts(candidate), version_parts(current), 0)
}

fn version_parts_of(v: &str) -> (r: Vec<u64>)
    ensures
        r@ == version_parts(v@),
{
    let stripped = strip_start_of(&chars_of(v), Delim::One('v'));
    let pieces = split_of(&stripped, Delim::VersionSep);
    let ghost ps = split(strip_start(v@, Delim::One('v')), Delim::VersionSep);
    let mut r: Vec<u64> = Vec::new();
    let mut i: usize = 0;
    while i < pieces.len()
        invariant
            0 <= i <= pieces@.len(),
            views(pieces@) == ps,
            ps.len() == pieces@.len(),
            r@ == ps.take(i as int).map_values(|p: Seq<char>| part_value(p)),
        decreases pieces.len() - i,
    {
        proof {
            assert(ps[i as int] == pieces@[i as int]@);
        }
        r.push(parse_u64_or_zero(&pieces[i]));
        proof {
            assert(ps.take(i + 1).map_values(|p: Seq<char>| part_value(p)) =~= ps.take(
                i as int,
            ).map_values(|p: Seq<char>| part_value(p)).push(part_value(ps[i as int])));
        }
        i += 1;
    }
    proof {
        assert(ps.take(ps.len() as int) =~= ps);
    }
    r
}

/// Compare two dotted versions segment by segment, numerically.
pub fn is_newer(candidate: &str, current: &str) -> (b: bool)
    ensures
        b == is_newer_spec(candidate@, current@),
{
    let a = version_parts_of(candidate);
    let c = version_parts_of(current);
    let n = if a.len() >= c.len() { a.len() } else { c.len() };
    let mut i: usize = 0;
    while i < n
        invariant
            0 <= i <= n,
            n == max_len(a@, c@),
            is_newer_spec(candidate@, current@) == newer_from(a@, c@, i as int),
            a@ == version_parts(candidate@),
            c@ == version_parts(current@),
        decreases n - i,
    {
        let x = if i < a.len() { a[i] } else { 0 };
        let y = if i < c.len() { c[i] } else { 0 };
        if x != y {
            return x > y;
        }
        i += 1;
    }
    false
}

/// The asset whose name, lowercased, ends with `.ext`.
pub open spec fn asset_fits(a: ApiAsset, ext: Seq<char>) -> bool {
    ends_with(lower_ascii(a.name@), seq!['.'] + ext)
}

pub open spec fn first_fitting(assets: Seq<ApiAsset>, ext: Seq<char>, i: int) -> Option<int>
    decreases assets.len() - i,
{
    if i < 0 || i >= assets.len() {
        None
    } else if asset_fits(assets[i], ext) {
        Some(i)
    } else {
        first_fitting(assets, ext, i + 1)
    }
}

pub open spec fn installer_of(a: ApiAsset) -> Installer {
    Installer { name: a.name, url: a.browser_download_url, size: a.size }
}

pub open spec fn pick_installer_spec(assets: Seq<ApiAsset>, ext: Option<Seq<char>>) -> Option<Installer> {
    match ext {
        None => None,
        Some(e) => match first_fitting(assets, e, 0) {
            Some(k) => Some(installer_of(assets[k])),
            None => None,
        },
    }
}

pub open spec fn str_opt_view(o: Option<&str>) -> Option<Seq<char>> {
    match o {
        Some(s) => Some(s@),
        None => None,
    }
}

/// Pick the asset this platform can run, by extension, never by a name that
/// merely contains it.
pub fn pick_installer(assets: &[ApiAsset], ext: Option<&str>) -> (r: Option<Installer>)
    ensures
        r == pick_installer_spec(assets@, str_opt_view(ext)),
{
    let e = match ext {
        Some(e) => e,
        None => return None,
    };
    let mut suffix = lit(".");
    push_all(&mut suffix, &chars_of(e));
    proof {
        reveal_strlit(".");
        assert(suffix@ =~= seq!['.'] + e@);
    }
    let mut i: usize = 0;
    while i < assets.len()
        invariant
            0 <= i <= assets@.len(),
            ext == Some(e),
            suffix@ == seq!['.'] + e@,
            first_fitting(assets@, e@, 0) == first_fitting(assets@, e@, i as int),
        decreases assets.len() - i,
    {
        let a = &assets[i];
        if ends_with_of(&lower_ascii_of(&chars_of(a.name.as_str())), &suffix) {
            return Some(Installer { name: a.name.clone(), url: a.browser_download_url.clone(), size: a.size });
        }
        i += 1;
    }
    None
}

/// What a latest-release answer means for this build: an update when its tag
/// is newer than the running version, carrying the installer for `ext`.
pub fn update_from_release(tag_name: &str, html_url: &str, assets: &[ApiAsset], ext: Option<&str>) -> (r: Option<Update>)
    ensures
        !is_newer_spec(tag_name@, current_version_spec()) ==> r is None,
        is_newer_spec(tag_name@, current_version_spec()) ==> (r matches Some(u) && u.version@
            == strip_start(tag_name@, Delim::One('v')) && u.url@ == html_url@ && u.installer
            == pick_installer_spec(assets@, str_opt_view(ext))),
{
    if !is_newer(tag_name, current_version()) {
        return None;
    }
    let version = string_of(strip_start_of(&chars_of(tag_name), Delim::One('v')).as_slice());
    Some(Update {
        version,
        installer: pick_installer(assets, ext),
        url: string_of(chars_of(html_url).as_slice()),
    })
}

pub open spec fn truncated_message(declared: u64, received: u64) -> Seq<char> {
    "expected "@ + dec(declared as nat) + " bytes, received "@ + dec(received as nat)
        + " -- the download was truncated"@
}

/// The size check on a finished download: a declared size of 0 checks
/// nothing; any other declared size must match the bytes received.
pub fn check_received_size(declared: u64, received: u64) -> (r: Result<(), String>)
    ensures
        (declared == 0 || declared == received) ==> r is Ok,
        !(declared == 0 || declared == received) ==> (r matches Err(m) && m@ == truncated_message(
            declared,
            received,
        )),
{
    if declared == 0 || declared == received {
        return Ok(());
    }
    let mut m = lit("expected ");
    push_all(&mut m, &dec_of(declared as u128));
    push_all(&mut m, &lit(" bytes, received "));
    push_all(&mut m, &dec_of(received as u128));
    push_all(&mut m, &lit(" -- the download was truncated"));
    Err(string_of(m.as_slice()))
}


proof fn lemma_newer_from_irreflexive(a: Seq<u64>, i: int)
    ensures
        !newer_from(a, a, i),
    decreases max_len(a, a) - i,
{
    if 0 <= i < max_len(a, a) {
        lemma_newer_from_irreflexive(a, i + 1);
    }
}

proof fn lemma_newer_from_asymmetric(a: Seq<u64>, b: Seq<u64>, i: int)
    requires
        newer_from(a, b, i),
    ensures
        !newer_from(b, a, i),
    decreases max_len(a, b) - i,
{
    assert(max_len(a, b) == max_len(b, a));
    if 0 <= i < max_len(a, b) && part_at(a, i) == part_at(b, i) {
        lemma_newer_from_asymmetric(a, b, i + 1);
    }
}

/// A release is never newer than itself.
pub proof fn law_same_version_is_not_newer(v: Seq<char>)
    ensures
        !is_newer_spec(v, v),
{
    lemma_newer_from_irreflexive(version_parts(v), 0);
}

/// Of two releases, at most one is newer than the other.
pub proof fn law_newer_is_one_way(a: Seq<char>, b: Seq<char>)
    requires
        is_newer_spec(a, b),
    ensures
        !is_newer_spec(b, a),
{
    lemma_newer_from_asymmetric(version_parts(a), version_parts(b), 0);
}
proof fn lemma_nothing_newer_past_the_end(a: Seq<u64>, b: Seq<u64>, i: int)
    requires
        i >= a.len(),
    ensures
        !newer_from(a, b, i),
    decreases max_len(a, b) - i,
{
    if 0 <= i < max_len(a, b) && part_at(a, i) == part_at(b, i) {
        lemma_nothing_newer_past_the_end(a, b, i + 1);
    }
}

proof fn lemma_newer_from_transitive(a: Seq<u64>, b: Seq<u64>, c: Seq<u64>, i: int)
    requires
        0 <= i,
        newer_from(a, b, i),
        newer_from(b, c, i),
    ensures
        newer_from(a, c, i),
    decreases max_len(a, b) + max_len(b, c) - 2 * i,
{
    let x = part_at(a, i);
    let y = part_at(b, i);
    let z = part_at(c, i);
    if x == y && y == z {
        if i >= a.len() {
            lemma_nothing_newer_past_the_end(a, b, i);
        }
        lemma_newer_from_transitive(a, b, c, i + 1);
    }
}

/// Newer is transitive: a release newer than one that is newer than a third
/// is newer than the third.
pub proof fn law_newer_is_transitive(a: Seq<char>, b: Seq<char>, c: Seq<char>)
    requires
        is_newer_spec(a, b),
        is_newer_spec(b, c),
    ensures
        is_newer_spec(a, c),
{
    lemma_newer_from_transitive(version_parts(a), version_parts(b), version_parts(c), 0);
}
proof fn lemma_first_fitting(assets: Seq<ApiAsset>, ext: Seq<char>, i: int)
    requires
        0 <= i <= assets.len(),
    ensures
        first_fitting(assets, ext, i) matches Some(k) ==> i <= k < assets.len() && ends_with(
            lower_ascii(assets[k].name@),
            seq!['.'] + ext,
        ) && forall|j: int| i <= j < k ==> !ends_with(lower_ascii(#[trigger] assets[j].name@), seq!['.'] + ext),
        first_fitting(assets, ext, i) is None ==> forall|j: int|
            i <= j < assets.len() ==> !ends_with(lower_ascii(#[trigger] assets[j].name@), seq!['.'] + ext),
    decreases assets.len() - i,
{
    if i < assets.len() {
        lemma_first_fitting(assets, ext, i + 1);
    }
}

/// The installer offered is the first asset whose name, ignoring case, ends
/// in `.` and the platform's extension, with that asset's link and size; when
/// no asset ends so none is offered, and a platform that runs no installer is
/// offered none.
pub proof fn law_the_installer_ends_in_the_platform_extension(assets: Seq<ApiAsset>, e: Seq<char>)
    ensures
        pick_installer_spec(assets, None) is None,
        pick_installer_spec(assets, Some(e)) is None ==> forall|j: int|
            0 <= j < assets.len() ==> !ends_with(lower_ascii(#[trigger] assets[j].name@), seq!['.'] + e),
        pick_installer_spec(assets, Some(e)) is Some ==> exists|k: int|
            0 <= k < assets.len() && #[trigger] assets[k].name == pick_installer_spec(assets, Some(e))->0.name
                && assets[k].browser_download_url == pick_installer_spec(assets, Some(e))->0.url && assets[k].size
                == pick_installer_spec(assets, Some(e))->0.size && ends_with(lower_ascii(assets[k].name@), seq!['.'] + e)
                && forall|j: int| 0 <= j < k ==> !ends_with(lower_ascii(#[trigger] assets[j].name@), seq!['.'] + e),
{
    lemma_first_fitting(assets, e, 0);
}

} // verus!
