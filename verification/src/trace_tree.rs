//! The archive tree on the trace screen: every entry the archive holds,
//! whether the extraction walk reached it, and how far the walk got.

use vstd::prelude::*;
use crate::fleet_view::{is_stable_order, order_by_text, Rank};
use crate::format::{bytes, grouped, or_dash, DASH};
use crate::model::{Doc, ExpectedEntry, Location, Trace};
use crate::text::{chars_of, dec, dec_of, lit, push_all, rsplit_once, rsplit_once_of, str_eq, string_of, Delim};
use crate::trace_view::{depth_of, depth_spec, rail, rail_spec, Tone, Tree, TreeRow};

verus! {

/// A location with a non-empty path: bytes were written there.
pub open spec fn has_path(l: Option<Location>) -> bool {
    match l {
        Some(x) => x.path@.len() > 0,
        None => false,
    }
}

pub(crate) fn has_path_of(l: &Option<Location>) -> (b: bool)
    ensures
        b == has_path(*l),
{
    match l {
        Some(x) => !x.path.as_str().is_empty(),
        None => false,
    }
}

/// The members that hold bytes in raw.
pub open spec fn written_count(family: Seq<Doc>) -> nat
    decreases family.len(),
{
    if family.len() == 0 {
        0
    } else {
        written_count(family.drop_last()) + if has_path(family.last().raw) { 1nat } else { 0nat }
    }
}

pub(crate) fn written_count_of(family: &Vec<Doc>) -> (n: usize)
    ensures
        n == written_count(family@),
{
    let mut n: usize = 0;
    let mut i: usize = 0;
    while i < family.len()
        invariant
            i <= family@.len(),
            n == written_count(family@.take(i as int)),
            n <= i,
        decreases family@.len() - i,
    {
        proof {
            assert(family@.take(i + 1).drop_last() =~= family@.take(i as int));
        }
        if has_path_of(&family[i].raw) {
            n += 1;
        }
        i += 1;
    }
    proof {
        assert(family@.take(i as int) =~= family@);
    }
    n
}

/// The paths of the members that are containers: no bytes of their own.
pub open spec fn family_containers(family: Seq<Doc>) -> Seq<String>
    decreases family.len(),
{
    if family.len() == 0 {
        seq![]
    } else {
        let m = family.last();
        let rest = family_containers(family.drop_last());
        if !has_path(m.raw) && m.path_from_root is Some {
            rest.push(m.path_from_root->0)
        } else {
            rest
        }
    }
}

pub(crate) fn family_containers_of(family: &Vec<Doc>) -> (r: Vec<String>)
    ensures
        r@ == family_containers(family@),
{
    let mut r: Vec<String> = Vec::new();
    let mut i: usize = 0;
    while i < family.len()
        invariant
            i <= family@.len(),
            r@ == family_containers(family@.take(i as int)),
        decreases family@.len() - i,
    {
        proof {
            assert(family@.take(i + 1).drop_last() =~= family@.take(i as int));
        }
        if !has_path_of(&family[i].raw) {
            match &family[i].path_from_root {
                Some(p) => {
                    r.push(p.clone());
                },
                None => {},
            }
        }
        i += 1;
    }
    proof {
        assert(family@.take(i as int) =~= family@);
    }
    r
}

/// The member filed under a path; when two are, the later one.
pub open spec fn member_at(family: Seq<Doc>, path: Seq<char>) -> Option<Doc>
    decreases family.len(),
{
    if family.len() == 0 {
        None
    } else if family.last().path_from_root is Some && family.last().path_from_root->0@ == path {
        Some(family.last())
    } else {
        member_at(family.drop_last(), path)
    }
}

fn member_at_of<'a>(family: &'a Vec<Doc>, path: &str) -> (r: Option<&'a Doc>)
    ensures
        match r {
            Some(d) => member_at(family@, path@) == Some(*d),
            None => member_at(family@, path@) is None,
        },
{
    let mut k: usize = family.len();
    proof {
        assert(family@.take(k as int) =~= family@);
    }
    while k > 0
        invariant
            k <= family@.len(),
            member_at(family@, path@) == member_at(family@.take(k as int), path@),
        decreases k,
    {
        proof {
            assert(family@.take(k as int).drop_last() =~= family@.take(k - 1));
            assert(family@.take(k as int).last() == family@[k - 1]);
        }
        match &family[k - 1].path_from_root {
            Some(p) => if str_eq(p.as_str(), path) {
                return Some(&family[k - 1]);
            },
            None => {},
        }
        k -= 1;
    }
    None
}

/// The paths the archive listing names.
pub open spec fn listed(entries: Seq<ExpectedEntry>, p: Seq<char>) -> bool {
    exists|i: int| 0 <= i < entries.len() && #[trigger] entries[i].path@ == p
}

fn listed_of(entries: &Vec<ExpectedEntry>, p: &str) -> (b: bool)
    ensures
        b == listed(entries@, p@),
{
    let mut i: usize = 0;
    while i < entries.len()
        invariant
            i <= entries@.len(),
            forall|j: int| 0 <= j < i ==> (#[trigger] entries@[j]).path@ != p@,
        decreases entries@.len() - i,
    {
        if str_eq(entries[i].path.as_str(), p) {
            proof {
                assert(entries@[i as int].path@ == p@);
            }
            return true;
        }
        i += 1;
    }
    false
}

/// The size a member records: the measured one when there is one.
pub open spec fn doc_size(d: Doc) -> Option<u64> {
    match d.actual_size_bytes {
        Some(s) => Some(s),
        None => d.size_bytes,
    }
}

/// The entry a member the listing does not name stands for.
pub open spec fn member_entry(m: Doc, containers: Seq<String>) -> ExpectedEntry {
    ExpectedEntry {
        path: m.path_from_root->0,
        depth: depth_spec(m.path_from_root->0@, containers) as u32,
        container: !has_path(m.raw),
        size: doc_size(m),
        document_id: m.document_id,
        rejected: None,
    }
}

/// The members with a path the listing does not name, in family order.
pub open spec fn unlisted(family: Seq<Doc>, listing: Seq<ExpectedEntry>, containers: Seq<String>) -> Seq<ExpectedEntry>
    decreases family.len(),
{
    if family.len() == 0 {
        seq![]
    } else {
        let m = family.last();
        let rest = unlisted(family.drop_last(), listing, containers);
        if m.path_from_root is Some && !listed(listing, m.path_from_root->0@) {
            rest.push(member_entry(m, containers))
        } else {
            rest
        }
    }
}

fn unlisted_of(family: &Vec<Doc>, listing: &Vec<ExpectedEntry>, containers: &Vec<String>) -> (r: Vec<ExpectedEntry>)
    ensures
        r@ == unlisted(family@, listing@, containers@),
{
    let mut r: Vec<ExpectedEntry> = Vec::new();
    let mut i: usize = 0;
    while i < family.len()
        invariant
            i <= family@.len(),
            r@ == unlisted(family@.take(i as int), listing@, containers@),
        decreases family@.len() - i,
    {
        proof {
            assert(family@.take(i + 1).drop_last() =~= family@.take(i as int));
        }
        let m = &family[i];
        match &m.path_from_root {
            Some(p) => if !listed_of(listing, p.as_str()) {
                let size = match m.actual_size_bytes {
                    Some(s) => Some(s),
                    None => m.size_bytes,
                };
                r.push(ExpectedEntry {
                    path: p.clone(),
                    depth: depth_of(p.as_str(), containers.as_slice()),
                    container: !has_path_of(&m.raw),
                    size,
                    document_id: m.document_id.clone(),
                    rejected: None,
                });
            },
            None => {},
        }
        i += 1;
    }
    proof {
        assert(family@.take(i as int) =~= family@);
    }
    r
}


/// The walk reached an entry: a container has a member filed under its
/// path, a file has bytes in raw.
pub open spec fn entry_reached(e: ExpectedEntry, family: Seq<Doc>) -> bool {
    match member_at(family, e.path@) {
        Some(d) => if e.container { true } else { has_path(d.raw) },
        None => false,
    }
}

/// The size shown for an entry: the member's own when positive, else the
/// listing's; none for an entry not reached.
pub open spec fn row_size(e: ExpectedEntry, family: Seq<Doc>) -> Option<u64> {
    if !entry_reached(e, family) {
        None
    } else {
        let own = match member_at(family, e.path@) {
            Some(d) => match doc_size(d) {
                Some(n) => if n > 0 { Some(n) } else { None },
                None => None,
            },
            None => None,
        };
        match own {
            Some(n) => Some(n),
            None => e.size,
        }
    }
}

pub open spec fn bytes_text(n: u64) -> Seq<char> {
    grouped(dec(n as nat), dec(n as nat).len() as int) + " B"@
}

pub open spec fn tag_spec(container: bool, reached: bool) -> Seq<char> {
    if container {
        if reached { "container"@ } else { "not opened"@ }
    } else {
        if reached { "raw"@ } else { "not reached"@ }
    }
}

pub open spec fn note_spec(container: bool, reached: bool) -> Seq<char> {
    if container {
        if reached { "nested archive — a container, not a leaf"@ } else { "nested archive — never opened"@ }
    } else {
        if reached { "member · own documentId, same revision"@ } else { "expected — the walk never reached this"@ }
    }
}

/// One row of the tree, for one entry.
pub open spec fn row_matches(r: TreeRow, e: ExpectedEntry, last: bool, family: Seq<Doc>) -> bool {
    let reached = entry_reached(e, family);
    &&& r.rail@ == rail_spec(e.depth as nat, last)
    &&& r.depth == e.depth
    &&& r.container == e.container
    &&& r.reached == reached
    &&& match rsplit_once(e.path@, Delim::One('/')) {
        Some(pn) => r.parent@ == pn.0 + "/"@ && r.name@ == pn.1,
        None => r.parent@ == Seq::<char>::empty() && r.name@ == e.path@,
    }
    &&& r.size@ == match row_size(e, family) {
        Some(n) => bytes_text(n),
        None => DASH@,
    }
    &&& r.document_id@ == match member_at(family, e.path@) {
        Some(d) => d.document_id@,
        None => e.document_id@,
    }
    &&& match e.rejected {
        Some(reason) => r.rejected && r.tag@ == "refused"@ && r.note@ == "refused by the archive policy ("@ + reason@
            + ") — the job quarantines the root here"@,
        None => !r.rejected && r.tag@ == tag_spec(e.container, reached) && r.note@ == note_spec(e.container, reached),
    }
}

fn row_of(e: &ExpectedEntry, last: bool, family: &Vec<Doc>) -> (r: TreeRow)
    ensures
        row_matches(r, *e, last, family@),
{
    let doc = member_at_of(family, e.path.as_str());
    let reached = match doc {
        Some(d) => if e.container { true } else { has_path_of(&d.raw) },
        None => false,
    };
    let path = chars_of(e.path.as_str());
    let (parent, name) = match rsplit_once_of(&path, Delim::One('/')) {
        Some((p, n)) => {
            let mut pp = p;
            pp.push('/');
            proof {
                reveal_strlit("/");
                assert(pp@ =~= p@ + "/"@);
            }
            (string_of(pp.as_slice()), string_of(n.as_slice()))
        },
        None => (String::new(), e.path.clone()),
    };
    let own: Option<u64> = match doc {
        Some(d) => match (match d.actual_size_bytes {
            Some(s) => Some(s),
            None => d.size_bytes,
        }) {
            Some(n) => if n > 0 { Some(n) } else { None },
            None => None,
        },
        None => None,
    };
    let size: Option<u64> = if !reached {
        None
    } else {
        match own {
            Some(n) => Some(n),
            None => e.size,
        }
    };
    let size_text = match size {
        Some(n) => bytes(n),
        None => DASH.to_owned(),
    };
    let document_id = match doc {
        Some(d) => d.document_id.clone(),
        None => e.document_id.clone(),
    };
    let (tag, note, rejected) = match &e.rejected {
        Some(reason) => {
            let mut n = lit("refused by the archive policy (");
            push_all(&mut n, &chars_of(reason.as_str()));
            push_all(&mut n, &lit(") — the job quarantines the root here"));
            (string_of(lit("refused").as_slice()), string_of(n.as_slice()), true)
        },
        None => {
            let (t, n) = if e.container {
                if reached {
                    ("container", "nested archive — a container, not a leaf")
                } else {
                    ("not opened", "nested archive — never opened")
                }
            } else {
                if reached {
                    ("raw", "member · own documentId, same revision")
                } else {
                    ("not reached", "expected — the walk never reached this")
                }
            };
            (t.to_owned(), n.to_owned(), false)
        },
    };
    TreeRow {
        rail: rail(e.depth, last),
        depth: e.depth,
        container: e.container,
        reached,
        parent,
        name,
        note,
        tag,
        size: size_text,
        document_id,
        rejected,
    }
}

/// The files among the rows: neither containers nor refused entries.
pub open spec fn file_count(rows: Seq<TreeRow>) -> nat
    decreases rows.len(),
{
    if rows.len() == 0 {
        0
    } else {
        file_count(rows.drop_last()) + if !rows.last().container && !rows.last().rejected { 1nat } else { 0nat }
    }
}

/// The files the walk reached.
pub open spec fn reached_count(rows: Seq<TreeRow>) -> nat
    decreases rows.len(),
{
    if rows.len() == 0 {
        0
    } else {
        reached_count(rows.drop_last()) + if !rows.last().container && !rows.last().rejected && rows.last().reached {
            1nat
        } else {
            0nat
        }
    }
}

/// How many levels the entries span: one past the deepest, at least one.
pub open spec fn depth_levels(entries: Seq<ExpectedEntry>) -> nat
    decreases entries.len(),
{
    if entries.len() == 0 {
        1
    } else {
        let rest = depth_levels(entries.drop_last());
        let here = entries.last().depth as nat + 1;
        if entries.len() == 1 {
            here
        } else if here > rest {
            here
        } else {
            rest
        }
    }
}

pub open spec fn fixed_missing_note() -> Seq<char> {
    "Member identity is a pure function of (documentId, revisionId, pathFromRoot), so the missing rows are knowable before the walk runs. A half-extracted tree must not look like a small complete one."@
}

pub open spec fn fixed_depth_note() -> Seq<char> {
    "Depth is the point: nested extraction was silently broken from inception until 2026-08-14, and a flat list of filenames would have hidden it."@
}

/// The banner, the note and the tone over a drawn tree.
pub open spec fn tree_summary(written: nat, total: nat, levels: nat, error: Option<String>) -> (Seq<char>, Seq<char>, Tone) {
    if written < total {
        (
            dec(written) + " OF "@ + dec(total) + " WRITTEN · "@ + dec((total - written) as nat) + " NOT REACHED"@,
            fixed_missing_note(),
            Tone::Bad,
        )
    } else if error is Some {
        (dec(written) + " MEMBERS WRITTEN · LISTING INCOMPLETE"@, error->0@, Tone::Warn)
    } else {
        (
            dec(total) + " MEMBERS · "@ + dec(levels) + " DEPTH"@ + (if levels == 1 { ""@ } else { "S"@ }) + " · ALL WRITTEN"@,
            fixed_depth_note(),
            Tone::Good,
        )
    }
}

pub open spec fn footer_spec(root: Doc) -> Seq<char> {
    "One archive, several documents. Every member derives its own documentId from (root "@ + root.document_id@
        + ", revision "@ + (if root.revision_id@.len() > 0 { root.revision_id@ } else { DASH@ })
        + ", pathFromRoot) and shares the root's revision."@
}

pub fn footer(root: &Doc) -> (r: String)
    ensures
        r@ == footer_spec(*root),
{
    let mut v = lit("One archive, several documents. Every member derives its own documentId from (root ");
    push_all(&mut v, &chars_of(root.document_id.as_str()));
    push_all(&mut v, &lit(", revision "));
    push_all(&mut v, &chars_of(or_dash(Some(root.revision_id.clone())).as_str()));
    push_all(&mut v, &lit(", pathFromRoot) and shares the root's revision."));
    string_of(v.as_slice())
}

pub open spec fn listing_of(t: Trace) -> Seq<ExpectedEntry> {
    match t.expected {
        Some(e) => e.entries@,
        None => seq![],
    }
}

pub open spec fn listing_error(t: Trace) -> Option<String> {
    match t.expected {
        Some(e) => e.error,
        None => None,
    }
}

/// The tree drawn from these entries.
pub open spec fn tree_body(tr: Tree, entries: Seq<ExpectedEntry>, t: Trace) -> bool {
    if entries.len() == 0 && written_count(t.family@) == 0 {
        &&& tr.rows@.len() == 0
        &&& tr.tone == Tone::Warn
        &&& match listing_error(t) {
            Some(e) => tr.banner@ == "MEMBERS UNKNOWN"@ && tr.note@ == e@,
            None => tr.banner@ == "NO MEMBERS YET"@ && tr.note@
                == "Nothing has been extracted, and the archive listing is not available."@,
        }
    } else {
        &&& tr.rows@.len() == entries.len()
        &&& forall|i: int| 0 <= i < entries.len() ==> row_matches(#[trigger] tr.rows@[i], entries[i], i == entries.len() - 1, t.family@)
        &&& (tr.banner@, tr.note@, tr.tone) == tree_summary(
            reached_count(tr.rows@),
            file_count(tr.rows@),
            depth_levels(entries),
            listing_error(t),
        )
    }
}

/// The members the listing does not name.
pub open spec fn tree_extra(t: Trace) -> Seq<ExpectedEntry> {
    unlisted(t.family@, listing_of(t), family_containers(t.family@))
}

pub open spec fn path_ranks(entries: Seq<ExpectedEntry>) -> Seq<Rank> {
    entries.map_values(|e: ExpectedEntry| Rank::Text(e.path@))
}

/// The tree a trace draws: none for a document that is no archive, else the
/// listing's entries followed by the unlisted members in path order.
pub open spec fn tree_ok(r: Option<Tree>, t: Trace, root: Doc) -> bool {
    &&& !t.is_archive ==> r is None
    &&& t.is_archive ==> r is Some && r->0.footer@ == footer_spec(root) && exists|order: Seq<int>|
        #[trigger] is_stable_order(path_ranks(tree_extra(t)), true, order)
            && tree_body(r->0, listing_of(t) + order.map_values(|k: int| tree_extra(t)[k]), t)
}

/// The archive tree of a traced document: the listing's entries, then the
/// members the listing does not name (sorted by path), each drawn as reached
/// or not; none for a document that is no archive.
pub fn tree(t: &Trace, root: &Doc) -> (r: Option<Tree>)
    ensures
        tree_ok(r, *t, *root),
{
    if !t.is_archive {
        return None;
    }
    let containers = family_containers_of(&t.family);
    let empty: Vec<ExpectedEntry> = Vec::new();
    let listing: &Vec<ExpectedEntry> = match &t.expected {
        Some(e) => &e.entries,
        None => &empty,
    };
    proof {
        assert(listing@ == listing_of(*t));
    }
    let extra = unlisted_of(&t.family, listing, &containers);
    let mut keys: Vec<Vec<char>> = Vec::new();
    let mut k: usize = 0;
    while k < extra.len()
        invariant
            k <= extra@.len(),
            keys.len() == k,
            forall|j: int| 0 <= j < k ==> (#[trigger] keys@[j])@ == extra@[j].path@,
        decreases extra@.len() - k,
    {
        keys.push(chars_of(extra[k].path.as_str()));
        k += 1;
    }
    proof {
        assert(keys@.map_values(|k: Vec<char>| Rank::Text(k@)) =~= path_ranks(extra@));
    }
    let order = order_by_text(&keys);
    let ghost o = order@.map_values(|i: usize| i as int);
    let mut entries: Vec<ExpectedEntry> = Vec::new();
    let mut j: usize = 0;
    while j < listing.len()
        invariant
            j <= listing@.len(),
            entries@ == listing@.take(j as int),
        decreases listing@.len() - j,
    {
        entries.push(listing[j].clone());
        proof {
            assert(entries@ =~= listing@.take(j + 1));
        }
        j += 1;
    }
    proof {
        assert(listing@.take(j as int) =~= listing@);
    }
    let mut q: usize = 0;
    while q < order.len()
        invariant
            q <= order@.len(),
            order@.len() == extra@.len(),
            o == order@.map_values(|i: usize| i as int),
            is_stable_order(path_ranks(extra@), true, o),
            entries@ == listing@ + o.take(q as int).map_values(|k: int| extra@[k]),
        decreases order@.len() - q,
    {
        proof {
            assert(o[q as int] == order@[q as int] as int);
        }
        entries.push(extra[order[q]].clone());
        proof {
            assert(entries@ =~= listing@ + o.take(q + 1).map_values(|k: int| extra@[k]));
        }
        q += 1;
    }
    proof {
        assert(o.take(q as int) =~= o);
    }
    let ghost all = entries@;
    proof {
        assert(extra@ == tree_extra(*t));
        assert(all =~= listing_of(*t) + o.map_values(|k: int| tree_extra(*t)[k]));
        assert(is_stable_order(path_ranks(tree_extra(*t)), true, o));
    }
    let foot = footer(root);
    if entries.len() == 0 && written_count_of(&t.family) == 0 {
        let (banner, note) = match &t.expected {
            Some(e) => match &e.error {
                Some(err) => (string_of(lit("MEMBERS UNKNOWN").as_slice()), err.clone()),
                None => (
                    string_of(lit("NO MEMBERS YET").as_slice()),
                    string_of(lit("Nothing has been extracted, and the archive listing is not available.").as_slice()),
                ),
            },
            None => (
                string_of(lit("NO MEMBERS YET").as_slice()),
                string_of(lit("Nothing has been extracted, and the archive listing is not available.").as_slice()),
            ),
        };
        return Some(Tree { banner, note, tone: Tone::Warn, rows: Vec::new(), footer: foot });
    }
    let n = entries.len();
    let last: usize = if n == 0 { 0 } else { n - 1 };
    let mut rows: Vec<TreeRow> = Vec::new();
    let mut total: usize = 0;
    let mut written: usize = 0;
    let mut levels: u64 = 1;
    let mut i: usize = 0;
    while i < n
        invariant
            i <= n,
            n == entries@.len(),
            all == entries@,
            last == if n == 0 { 0 } else { n - 1 },
            rows@.len() == i,
            forall|x: int| 0 <= x < i ==> row_matches(#[trigger] rows@[x], all[x], x == n - 1, t.family@),
            total == file_count(rows@),
            written == reached_count(rows@),
            total <= i,
            written <= i,
            levels == if i == 0 { 1 } else { depth_levels(all.take(i as int)) },
            levels <= u32::MAX as u64 + 1,
        decreases n - i,
    {
        let row = row_of(&entries[i], i == last, &t.family);
        let ghost before = rows@;
        if !row.container && !row.rejected {
            total += 1;
            if row.reached {
                written += 1;
            }
        }
        let here: u64 = entries[i].depth as u64 + 1;
        proof {
            assert(all.take(i + 1).drop_last() =~= all.take(i as int));
            assert(all.take(i + 1).last() == all[i as int]);
        }
        if i == 0 || here > levels {
            levels = here;
        }
        rows.push(row);
        proof {
            assert(rows@.drop_last() =~= before);
            assert(rows@.last() == row);
        }
        i += 1;
    }
    proof {
        assert(all.take(n as int) =~= all);
    }
    let error: Option<String> = match &t.expected {
        Some(e) => e.error.clone(),
        None => None,
    };
    let (banner, note, tone) = if written < total {
        let mut b = dec_of(written as u128);
        push_all(&mut b, &lit(" OF "));
        push_all(&mut b, &dec_of(total as u128));
        push_all(&mut b, &lit(" WRITTEN · "));
        push_all(&mut b, &dec_of((total - written) as u128));
        push_all(&mut b, &lit(" NOT REACHED"));
        (
            string_of(b.as_slice()),
            string_of(lit("Member identity is a pure function of (documentId, revisionId, pathFromRoot), so the missing rows are knowable before the walk runs. A half-extracted tree must not look like a small complete one.").as_slice()),
            Tone::Bad,
        )
    } else {
        match error {
            Some(e) => {
                let mut b = dec_of(written as u128);
                push_all(&mut b, &lit(" MEMBERS WRITTEN · LISTING INCOMPLETE"));
                (string_of(b.as_slice()), e, Tone::Warn)
            },
            None => {
                let mut b = dec_of(total as u128);
                push_all(&mut b, &lit(" MEMBERS · "));
                push_all(&mut b, &dec_of(levels as u128));
                push_all(&mut b, &lit(" DEPTH"));
                if levels == 1 {
                    push_all(&mut b, &lit(""));
                } else {
                    push_all(&mut b, &lit("S"));
                }
                push_all(&mut b, &lit(" · ALL WRITTEN"));
                (
                    string_of(b.as_slice()),
                    string_of(lit("Depth is the point: nested extraction was silently broken from inception until 2026-08-14, and a flat list of filenames would have hidden it.").as_slice()),
                    Tone::Good,
                )
            },
        }
    };
    Some(Tree { banner, note, tone, rows, footer: foot })
}
} // verus!
