//! The fleet screens: tables of rows, how they sort, and how they page.

use vstd::prelude::*;
use crate::format::{
    countdown, countdown_spec, day_minute, full, fits_calendar, in_calendar, parse_opt, parse_spec, plural,
    plural_spec, span, span_spec, utc_text, whole_seconds, DASH,
};
use crate::model::{
    BlobCheck, DeadLetters, QueueState, DeadMessage, Doc, ExpectedEntry, Overview, RefPointer, SourceCfg, StuckRoot, Timing,
};
use crate::transit::{file_entries, max_depth, shifted, shifted_exec};
use crate::trace_view::{Tone, STALL_AFTER_MINUTES};
use crate::text::{
    chars_of, dec, dec_of, dec_signed, dec_signed_of, lit, push_all, string_of, lex_lt, lex_lt_of,
    lemma_lex_lt_asymmetric, lemma_lex_lt_total, lemma_lex_lt_transitive, lemma_lex_lt_irreflexive, parse_i64,
    parse_i64_of, str_eq, to_lowercase, to_uppercase, unicode_lower, unicode_upper,
};

verus! {

/// What a row sorts by in one column.
#[derive(Clone, PartialEq, Eq, Debug)]
pub enum SortKey {
    Num(i64),
    Text(String),
    Missing,
}

/// A sort key as the comparison sees it: text folded to lowercase. `Least`
/// sorts before everything and `Missing` after everything, in either direction.
pub enum Rank {
    Least,
    Num(int),
    Text(Seq<char>),
    Missing,
}

pub open spec fn rank(k: SortKey) -> Rank {
    match k {
        SortKey::Num(n) => Rank::Num(n as int),
        SortKey::Text(s) => Rank::Text(unicode_lower(s@)),
        SortKey::Missing => Rank::Missing,
    }
}

/// `x` comes strictly before `y` in ascending order: numbers before text,
/// numbers by value, text by its lowercase form.
pub open spec fn value_lt(x: Rank, y: Rank) -> bool {
    match (x, y) {
        (Rank::Num(a), Rank::Num(b)) => a < b,
        (Rank::Text(a), Rank::Text(b)) => lex_lt(a, b),
        (Rank::Num(_), Rank::Text(_)) => true,
        _ => false,
    }
}

/// `x` sorts strictly before `y`: in the chosen direction, and an absent
/// value after every present one in either direction.
pub open spec fn key_lt(x: Rank, y: Rank, ascending: bool) -> bool {
    match (x, y) {
        (Rank::Missing, _) => false,
        (_, Rank::Missing) => true,
        (_, Rank::Least) => false,
        (Rank::Least, _) => true,
        _ => if ascending {
            value_lt(x, y)
        } else {
            value_lt(y, x)
        },
    }
}

proof fn lemma_value_lt_irreflexive(x: Rank)
    ensures
        !value_lt(x, x),
{
    if let Rank::Text(a) = x {
        lemma_lex_lt_irreflexive(a);
    }
}

proof fn lemma_value_lt_transitive(x: Rank, y: Rank, z: Rank)
    requires
        value_lt(x, y),
        value_lt(y, z),
    ensures
        value_lt(x, z),
{
    match (x, y, z) {
        (Rank::Text(a), Rank::Text(b), Rank::Text(c)) => lemma_lex_lt_transitive(a, b, c),
        _ => {},
    }
}

/// Two ranks that neither precedes are interchangeable.
proof fn lemma_value_lt_total(x: Rank, y: Rank)
    requires
        !value_lt(x, y),
        !value_lt(y, x),
        !(x is Missing),
        !(y is Missing),
        !(x is Least),
        !(y is Least),
    ensures
        x == y,
{
    match (x, y) {
        (Rank::Text(a), Rank::Text(b)) => {
            if a != b {
                lemma_lex_lt_total(a, b);
            }
        },
        _ => {},
    }
}

proof fn lemma_key_lt_irreflexive(x: Rank, asc: bool)
    ensures
        !key_lt(x, x, asc),
{
    lemma_value_lt_irreflexive(x);
}

/// `a < b` and `b <= c` give `a < c`; `a <= b` and `b < c` give `a < c`.
proof fn lemma_key_lt_chain(a: Rank, b: Rank, c: Rank, asc: bool)
    ensures
        key_lt(a, b, asc) && key_lt(b, c, asc) ==> key_lt(a, c, asc),
        key_lt(a, b, asc) && !key_lt(c, b, asc) ==> key_lt(a, c, asc),
        !key_lt(b, a, asc) && key_lt(b, c, asc) ==> key_lt(a, c, asc),
{
    if !(a is Missing) && !(b is Missing) && !(c is Missing) && !(a is Least) && !(b is Least) && !(c is Least) {
        if asc {
            if value_lt(a, b) && value_lt(b, c) {
                lemma_value_lt_transitive(a, b, c);
            }
            if value_lt(a, b) && !value_lt(c, b) && !value_lt(b, c) {
                lemma_value_lt_total(b, c);
            }
            if !value_lt(b, a) && value_lt(b, c) && !value_lt(a, b) {
                lemma_value_lt_total(a, b);
            }
        } else {
            if value_lt(b, a) && value_lt(c, b) {
                lemma_value_lt_transitive(c, b, a);
            }
            if value_lt(b, a) && !value_lt(b, c) && !value_lt(c, b) {
                lemma_value_lt_total(b, c);
            }
            if !value_lt(a, b) && value_lt(c, b) && !value_lt(b, a) {
                lemma_value_lt_total(a, b);
            }
        }
    }
}

/// Row `i` sorts before row `j`: by key, and equal keys keep their order.
pub open spec fn before(keys: Seq<Rank>, asc: bool, i: int, j: int) -> bool {
    key_lt(keys[i], keys[j], asc) || (!key_lt(keys[j], keys[i], asc) && i < j)
}

/// `order` lists each row index once, in a stable sort by `keys`.
pub open spec fn is_stable_order(keys: Seq<Rank>, asc: bool, order: Seq<int>) -> bool {
    &&& order.len() == keys.len()
    &&& forall|a: int| 0 <= a < order.len() ==> 0 <= #[trigger] order[a] < keys.len()
    &&& forall|a: int, b: int| 0 <= a < b < order.len() ==> before(keys, asc, #[trigger] order[a], #[trigger] order[b])
}

/// Unknown values stay last whichever way a column is sorted: once an
/// absent value appears, every row after it is absent too.
pub proof fn law_unknowns_sort_last(keys: Seq<Rank>, asc: bool, order: Seq<int>, a: int, b: int)
    requires
        is_stable_order(keys, asc, order),
        0 <= a < b < order.len(),
        keys[order[a]] is Missing,
    ensures
        keys[order[b]] is Missing,
{
    assert(before(keys, asc, order[a], order[b]));
}

/// Rows that tie keep the order they came in.
pub proof fn law_ties_keep_their_order(keys: Seq<Rank>, asc: bool, order: Seq<int>, a: int, b: int)
    requires
        is_stable_order(keys, asc, order),
        0 <= a < b < order.len(),
        keys[order[a]] == keys[order[b]],
    ensures
        order[a] < order[b],
{
    assert(before(keys, asc, order[a], order[b]));
    lemma_key_lt_irreflexive(keys[order[a]], asc);
}

/// Flipping a column's direction reverses the order of rows whose values
/// differ, and leaves absent values last.
pub proof fn law_direction_flips(x: Rank, y: Rank)
    requires
        !(x is Missing),
        !(y is Missing),
        !(x is Least),
        !(y is Least),
    ensures
        key_lt(x, y, true) == key_lt(y, x, false),
{
}

/// A sort key with its text folded, ready to compare.
pub enum Folded {
    Least,
    Num(i64),
    Text(Vec<char>),
    Missing,
}

pub open spec fn folded_rank(f: Folded) -> Rank {
    match f {
        Folded::Least => Rank::Least,
        Folded::Num(n) => Rank::Num(n as int),
        Folded::Text(t) => Rank::Text(t@),
        Folded::Missing => Rank::Missing,
    }
}

fn fold(k: &SortKey) -> (f: Folded)
    ensures
        folded_rank(f) == rank(*k),
{
    match k {
        SortKey::Num(n) => Folded::Num(*n),
        SortKey::Text(s) => Folded::Text(chars_of(to_lowercase(s.as_str()).as_str())),
        SortKey::Missing => Folded::Missing,
    }
}

fn folded_lt(x: &Folded, y: &Folded, asc: bool) -> (b: bool)
    ensures
        b == key_lt(folded_rank(*x), folded_rank(*y), asc),
{
    match (x, y) {
        (Folded::Missing, _) => false,
        (_, Folded::Missing) => true,
        (_, Folded::Least) => false,
        (Folded::Least, _) => true,
        (Folded::Num(a), Folded::Num(b)) => if asc {
            *a < *b
        } else {
            *b < *a
        },
        (Folded::Text(a), Folded::Text(b)) => if asc {
            lex_lt_of(a, b)
        } else {
            lex_lt_of(b, a)
        },
        (Folded::Num(_), Folded::Text(_)) => asc,
        (Folded::Text(_), Folded::Num(_)) => !asc,
    }
}

/// The stable order of rows with these keys.
pub fn stable_order(keys: &Vec<SortKey>, ascending: bool) -> (order: Vec<usize>)
    ensures
        is_stable_order(keys@.map_values(|k: SortKey| rank(k)), ascending, order@.map_values(|i: usize| i as int)),
{
    let ghost ranks = keys@.map_values(|k: SortKey| rank(k));
    let mut folded: Vec<Folded> = Vec::new();
    let mut n: usize = 0;
    while n < keys.len()
        invariant
            n <= keys.len(),
            folded.len() == n,
            ranks == keys@.map_values(|k: SortKey| rank(k)),
            forall|j: int| 0 <= j < n ==> folded_rank(#[trigger] folded@[j]) == ranks[j],
        decreases keys.len() - n,
    {
        folded.push(fold(&keys[n]));
        n += 1;
    }
    proof {
        assert(folded@.map_values(|f: Folded| folded_rank(f)) =~= ranks);
    }
    order_folded(&folded, ascending)
}

/// The stable order of already folded keys.
pub fn order_folded(folded: &Vec<Folded>, ascending: bool) -> (order: Vec<usize>)
    ensures
        is_stable_order(folded@.map_values(|f: Folded| folded_rank(f)), ascending, order@.map_values(|i: usize| i as int)),
{
    let ghost ranks = folded@.map_values(|f: Folded| folded_rank(f));
    let mut order: Vec<usize> = Vec::new();
    let mut i: usize = 0;
    while i < folded.len()
        invariant
            i <= folded.len(),
            ranks == folded@.map_values(|f: Folded| folded_rank(f)),
            forall|j: int| 0 <= j < folded.len() ==> folded_rank(#[trigger] folded@[j]) == ranks[j],
            order.len() == i,
            forall|a: int| 0 <= a < i ==> 0 <= #[trigger] order@[a] < i,
            forall|a: int, b: int| 0 <= a < b < i ==> before(ranks, ascending, #[trigger] order@[a] as int, #[trigger] order@[b] as int),
        decreases folded.len() - i,
    {
        // The first place whose row the new one sorts strictly before.
        let mut p: usize = 0;
        while p < order.len() && !folded_lt(&folded[i], &folded[order[p]], ascending)
            invariant
                p <= order.len(),
                i < folded.len(),
                forall|j: int| 0 <= j < folded.len() ==> folded_rank(#[trigger] folded@[j]) == ranks[j],
                order.len() == i,
                forall|a: int| 0 <= a < i ==> 0 <= #[trigger] order@[a] < i,
                forall|a: int| 0 <= a < p ==> !key_lt(ranks[i as int], ranks[#[trigger] order@[a] as int], ascending),
                ranks == folded@.map_values(|f: Folded| folded_rank(f)),
                forall|a: int, b: int| 0 <= a < b < i ==> before(ranks, ascending, #[trigger] order@[a] as int, #[trigger] order@[b] as int),
            decreases order.len() - p,
        {
            p += 1;
        }
        let ghost old_order = order@;
        proof {
            if p < i {
                assert(key_lt(ranks[i as int], ranks[old_order[p as int] as int], ascending));
            }
            assert forall|b: int| p <= b < i implies key_lt(ranks[i as int], ranks[#[trigger] old_order[b] as int], ascending) by {
                if b > p {
                    assert(before(ranks, ascending, old_order[p as int] as int, old_order[b] as int));
                    lemma_key_lt_chain(ranks[i as int], ranks[old_order[p as int] as int], ranks[old_order[b] as int], ascending);
                }
            }
        }
        order.insert(p, i);
        proof {
            assert forall|a: int| 0 <= a < i + 1 implies 0 <= #[trigger] order@[a] < i + 1 by {
                if a < p {
                    assert(order@[a] == old_order[a]);
                } else if a > p {
                    assert(order@[a] == old_order[a - 1]);
                }
            }
            assert forall|a: int, b: int| 0 <= a < b < i + 1 implies before(ranks, ascending, #[trigger] order@[a] as int, #[trigger] order@[b] as int) by {
                if b < p {
                    assert(order@[a] == old_order[a] && order@[b] == old_order[b]);
                } else if b == p {
                    assert(order@[a] == old_order[a]);
                    assert(old_order[a] < i);
                } else if a == p {
                    assert(order@[b] == old_order[b - 1]);
                } else if a < p {
                    assert(order@[a] == old_order[a] && order@[b] == old_order[b - 1]);
                } else {
                    assert(order@[a] == old_order[a - 1] && order@[b] == old_order[b - 1]);
                }
            }
        }
        i += 1;
    }
    proof {
        let o = order@.map_values(|i: usize| i as int);
        assert forall|a: int| 0 <= a < o.len() implies 0 <= #[trigger] o[a] < ranks.len() by {
            assert(o[a] == order@[a] as int);
        }
        assert forall|a: int, b: int| 0 <= a < b < o.len() implies before(ranks, ascending, #[trigger] o[a], #[trigger] o[b]) by {
            assert(o[a] == order@[a] as int && o[b] == order@[b] as int);
        }
    }
    order
}


/// A table row that can be sorted by its columns.
pub trait Sortable {
    /// How the row ranks in a column. Rows that do not say sort as absent.
    open spec fn column_rank(&self, column: usize) -> Rank {
        Rank::Missing
    }

    fn sort_key(&self, column: usize) -> (k: SortKey)
        ensures
            rank(k) == self.column_rank(column),
    ;
}

/// The sorted column and its direction.
#[derive(Clone, Copy, PartialEq, Eq, Debug, Structural)]
pub struct Sort {
    pub column: usize,
    pub ascending: bool,
}

pub const PAGE_SIZE: usize = 50;

/// The same column flips direction; another column starts ascending.
pub fn toggle(current: Option<Sort>, column: usize) -> (s: Sort)
    ensures
        s.column == column,
        s.ascending == match current {
            Some(c) => if c.column == column { !c.ascending } else { true },
            None => true,
        },
{
    match current {
        Some(s) => if s.column == column {
            Sort { column, ascending: !s.ascending }
        } else {
            Sort { column, ascending: true }
        },
        None => Sort { column, ascending: true },
    }
}

pub open spec fn column_ranks<T: Sortable>(rows: Seq<T>, column: usize) -> Seq<Rank> {
    rows.map_values(|r: T| r.column_rank(column))
}

/// The rows in sorted order: stable, with absent values last in either
/// direction. Without a sort the rows keep their order.
pub fn sorted<T: Sortable + Clone>(rows: &[T], sort: Option<Sort>) -> (out: Vec<T>)
    ensures
        out.len() == rows@.len(),
        sort is None ==> forall|i: int| 0 <= i < rows@.len() ==> cloned::<T>(rows@[i], #[trigger] out@[i]),
        sort matches Some(s) ==> exists|order: Seq<int>| {
            &&& is_stable_order(column_ranks(rows@, s.column), s.ascending, order)
            &&& forall|i: int| 0 <= i < rows@.len() ==> cloned::<T>(rows@[order[i]], #[trigger] out@[i])
        },
{
    match sort {
        None => {
            let mut out: Vec<T> = Vec::new();
            let mut i: usize = 0;
            while i < rows.len()
                invariant
                    i <= rows@.len(),
                    out.len() == i,
                    forall|j: int| 0 <= j < i ==> cloned::<T>(rows@[j], #[trigger] out@[j]),
                decreases rows@.len() - i,
            {
                out.push(rows[i].clone());
                i += 1;
            }
            out
        },
        Some(s) => {
            let mut keys: Vec<SortKey> = Vec::new();
            let mut k: usize = 0;
            while k < rows.len()
                invariant
                    k <= rows@.len(),
                    keys.len() == k,
                    forall|j: int| 0 <= j < k ==> rank(#[trigger] keys@[j]) == rows@[j].column_rank(s.column),
                decreases rows@.len() - k,
            {
                keys.push(rows[k].sort_key(s.column));
                k += 1;
            }
            proof {
                assert(keys@.map_values(|k: SortKey| rank(k)) =~= column_ranks(rows@, s.column));
            }
            let order = stable_order(&keys, s.ascending);
            let ghost o = order@.map_values(|i: usize| i as int);
            let mut out: Vec<T> = Vec::new();
            let mut i: usize = 0;
            while i < order.len()
                invariant
                    i <= order@.len(),
                    order@.len() == rows@.len(),
                    o == order@.map_values(|i: usize| i as int),
                    is_stable_order(column_ranks(rows@, s.column), s.ascending, o),
                    out.len() == i,
                    forall|j: int| 0 <= j < i ==> cloned::<T>(rows@[o[j]], #[trigger] out@[j]),
                decreases order@.len() - i,
            {
                proof {
                    assert(o[i as int] == order@[i as int] as int);
                }
                out.push(rows[order[i]].clone());
                i += 1;
            }
            out
        },
    }
}

/// One page of a table.
#[derive(Clone, PartialEq, Debug)]
pub struct Page<T> {
    pub rows: Vec<T>,
    pub page: usize,
    pub pages: usize,
    pub total: usize,
}

/// How many pages `total` rows fill: at least one.
pub open spec fn page_count(total: int) -> int {
    if total == 0 {
        1
    } else {
        (total + PAGE_SIZE - 1) / (PAGE_SIZE as int)
    }
}

/// A page of fifty rows. A page past the end (after a refresh shrank the
/// data) lands on the last page.
pub fn paginate<T: Clone>(rows: &[T], page: usize) -> (p: Page<T>)
    ensures
        p.total == rows@.len(),
        p.pages == page_count(rows@.len() as int),
        p.page == if page < p.pages { page as int } else { p.pages - 1 },
        p.rows@.len() == if rows@.len() - p.page * PAGE_SIZE < PAGE_SIZE {
            rows@.len() - p.page * PAGE_SIZE
        } else {
            PAGE_SIZE as int
        },
        forall|i: int| 0 <= i < p.rows@.len() ==> cloned::<T>(rows@[p.page * PAGE_SIZE + i], #[trigger] p.rows@[i]),
{
    let total = rows.len();
    let pages: usize = if total == 0 {
        1
    } else {
        total / PAGE_SIZE + if total % PAGE_SIZE == 0 { 0 } else { 1 }
    };
    proof {
        assert(pages == page_count(total as int)) by (nonlinear_arith)
            requires
                pages == (if total == 0 { 1 } else { total / 50 + if total % 50 == 0 { 0int } else { 1int } }),
                total >= 0;
    }
    let page = if page < pages {
        page
    } else {
        pages - 1
    };
    proof {
        assert(page * 50 <= total) by (nonlinear_arith)
            requires
                page < pages,
                pages == (if total == 0 { 1 } else { (total + 49) / 50 }),
                total >= 0;
    }
    let start = page * PAGE_SIZE;
    let end = if total - start < PAGE_SIZE {
        total
    } else {
        start + PAGE_SIZE
    };
    let mut out: Vec<T> = Vec::new();
    let mut i = start;
    while i < end
        invariant
            start <= i <= end,
            end <= rows@.len(),
            start == page * PAGE_SIZE,
            out.len() == i - start,
            forall|j: int| 0 <= j < i - start ==> cloned::<T>(rows@[start + j], #[trigger] out@[j]),
        decreases end - i,
    {
        out.push(rows[i].clone());
        i += 1;
    }
    Page { rows: out, page, pages, total }
}

/// How text ranks: blank or a dash as absent.
pub open spec fn text_rank(s: Seq<char>) -> Rank {
    if s.len() == 0 || s == DASH@ {
        Rank::Missing
    } else {
        Rank::Text(unicode_lower(s))
    }
}

/// How an optional number ranks.
pub open spec fn num_rank(n: Option<i64>) -> Rank {
    match n {
        Some(v) => Rank::Num(v as int),
        None => Rank::Missing,
    }
}

/// Text sorts as text; blank or a dash sorts as absent.
pub fn text(s: &str) -> (k: SortKey)
    ensures
        rank(k) == text_rank(s@),
        k is Missing <==> (s@.len() == 0 || s@ == DASH@),
        k matches SortKey::Text(t) ==> t@ == s@,
{
    if s.is_empty() || str_eq(s, DASH) {
        SortKey::Missing
    } else {
        SortKey::Text(s.to_owned())
    }
}

/// A number sorts as a number; none sorts as absent.
pub fn num(n: Option<i64>) -> (k: SortKey)
    ensures
        rank(k) == num_rank(n),
        k == match n {
            Some(v) => SortKey::Num(v),
            None => SortKey::Missing,
        },
{
    match n {
        Some(v) => SortKey::Num(v),
        None => SortKey::Missing,
    }
}

/// The nearest-rank percentile `num / den` of ascending values: an observed
/// value, never an interpolated one.
pub open spec fn nearest_rank(len: int, num: int, den: int) -> int {
    let r = (num * len + den - 1) / den;
    if r < 1 {
        1
    } else if r > len {
        len
    } else {
        r
    }
}

pub fn percentile(sorted: &[i64], num: u64, den: u64) -> (r: Option<i64>)
    requires
        den > 0,
    ensures
        sorted@.len() == 0 ==> r is None,
        sorted@.len() > 0 ==> r == Some(sorted@[nearest_rank(sorted@.len() as int, num as int, den as int) - 1]),
{
    if sorted.len() == 0 {
        return None;
    }
    let len = sorted.len() as u128;
    proof {
        assert((num as u128) * len <= 0xffff_ffff_ffff_ffffu128 * 0xffff_ffff_ffff_ffffu128) by (nonlinear_arith)
            requires
                num <= 0xffff_ffff_ffff_ffffu64,
                len <= 0xffff_ffff_ffff_ffffu128;
    }
    let top: u128 = num as u128 * len + den as u128 - 1;
    let q: u128 = top / den as u128;
    let rank: usize = if q < 1 {
        1
    } else if q > len {
        sorted.len()
    } else {
        q as usize
    };
    Some(sorted[rank - 1])
}

/// A headline figure above a table.
#[derive(Clone, PartialEq, Eq, Debug)]
pub struct Kpi {
    pub label: &'static str,
    pub value: String,
    pub unit: String,
    pub tone: Tone,
}

#[derive(Clone, PartialEq, Eq, Debug)]
pub struct QueueRow {
    pub file_guid: String,
    pub key: String,
    pub document_id: String,
    pub src: String,
    pub arrived: String,
    pub waiting: String,
    pub attempts: String,
    pub pending_key: String,
    pub lifecycle: String,
    pub hot: bool,
    pub arrived_at: Option<i64>,
    pub waiting_secs: Option<i64>,
    pub attempt_count: Option<i64>,
    pub lifecycle_secs: Option<i64>,
}

impl Sortable for QueueRow {
    open spec fn column_rank(&self, column: usize) -> Rank {
        if column == 0 {
            text_rank(self.key@)
        } else if column == 1 {
            text_rank(self.src@)
        } else if column == 2 {
            num_rank(self.arrived_at)
        } else if column == 3 {
            num_rank(self.waiting_secs)
        } else if column == 4 {
            num_rank(self.attempt_count)
        } else if column == 5 {
            text_rank(self.pending_key@)
        } else if column == 6 {
            num_rank(self.lifecycle_secs)
        } else {
            Rank::Missing
        }
    }

    fn sort_key(&self, column: usize) -> (k: SortKey) {
        if column == 0 {
            text(self.key.as_str())
        } else if column == 1 {
            text(self.src.as_str())
        } else if column == 2 {
            num(self.arrived_at)
        } else if column == 3 {
            num(self.waiting_secs)
        } else if column == 4 {
            num(self.attempt_count)
        } else if column == 5 {
            text(self.pending_key.as_str())
        } else if column == 6 {
            num(self.lifecycle_secs)
        } else {
            SortKey::Missing
        }
    }
}

#[derive(Clone, PartialEq, Eq, Debug)]
pub struct StuckRow {
    pub file_guid: String,
    pub document_id: String,
    pub key: String,
    pub rev: String,
    pub written: String,
    /// 0..=100, of the files the archive lists; None when the listing is unknown.
    pub pct: Option<u32>,
    pub depth: String,
    pub last: String,
    pub replica: String,
    pub stalled: bool,
    pub last_secs: Option<i64>,
    pub deepest_n: Option<i64>,
}

impl Sortable for StuckRow {
    open spec fn column_rank(&self, column: usize) -> Rank {
        if column == 0 {
            text_rank(self.document_id@)
        } else if column == 1 {
            match parse_i64(self.rev@) {
                Some(n) => Rank::Num(n as int),
                None => text_rank(self.rev@),
            }
        } else if column == 2 {
            match self.pct {
                Some(p) => Rank::Num(p as int),
                None => Rank::Missing,
            }
        } else if column == 3 {
            num_rank(self.deepest_n)
        } else if column == 4 {
            num_rank(self.last_secs)
        } else if column == 5 {
            text_rank(self.replica@)
        } else {
            Rank::Missing
        }
    }

    fn sort_key(&self, column: usize) -> (k: SortKey) {
        if column == 0 {
            text(self.document_id.as_str())
        } else if column == 1 {
            match parse_i64_of(&chars_of(self.rev.as_str())) {
                Some(n) => SortKey::Num(n),
                None => text(self.rev.as_str()),
            }
        } else if column == 2 {
            match self.pct {
                Some(p) => SortKey::Num(p as i64),
                None => SortKey::Missing,
            }
        } else if column == 3 {
            num(self.deepest_n)
        } else if column == 4 {
            num(self.last_secs)
        } else if column == 5 {
            text(self.replica.as_str())
        } else {
            SortKey::Missing
        }
    }
}

#[derive(Clone, PartialEq, Eq, Debug)]
pub struct RefRow {
    pub set_id: String,
    pub generation: String,
    pub built_at: String,
    pub age: String,
    pub rows: String,
    pub waiting: usize,
    pub tone: Tone,
    pub note: String,
    pub generation_n: Option<i64>,
    pub age_secs: Option<i64>,
    pub row_count: Option<i64>,
}

/// Negation that stays in range.
pub open spec fn neg_sat(a: i64) -> i64 {
    if a == i64::MIN {
        i64::MAX
    } else {
        (-a) as i64
    }
}

impl Sortable for RefRow {
    open spec fn column_rank(&self, column: usize) -> Rank {
        if column == 0 {
            text_rank(self.set_id@)
        } else if column == 1 {
            num_rank(self.generation_n)
        } else if column == 2 {
            match self.age_secs {
                Some(a) => Rank::Num(neg_sat(a) as int),
                None => Rank::Missing,
            }
        } else if column == 3 {
            num_rank(self.age_secs)
        } else if column == 4 {
            num_rank(self.row_count)
        } else if column == 5 {
            Rank::Num(self.waiting as i64 as int)
        } else {
            Rank::Missing
        }
    }

    fn sort_key(&self, column: usize) -> (k: SortKey) {
        if column == 0 {
            text(self.set_id.as_str())
        } else if column == 1 {
            num(self.generation_n)
        } else if column == 2 {
            match self.age_secs {
                Some(a) => SortKey::Num(if a == i64::MIN { i64::MAX } else { -a }),
                None => SortKey::Missing,
            }
        } else if column == 3 {
            num(self.age_secs)
        } else if column == 4 {
            num(self.row_count)
        } else if column == 5 {
            SortKey::Num(self.waiting as i64)
        } else {
            SortKey::Missing
        }
    }
}

#[derive(Clone, PartialEq, Eq, Debug)]
pub struct DeadRow {
    pub key: String,
    pub document_id: Option<String>,
    pub parked_at: String,
    pub queue: String,
    pub landing_deletes: String,
    pub retry: String,
    pub hot: bool,
    pub parked_ts: Option<i64>,
    pub deletes_secs: Option<i64>,
    pub deliveries: Option<i64>,
    pub sequence: Option<i64>,
}

impl Sortable for DeadRow {
    open spec fn column_rank(&self, column: usize) -> Rank {
        if column == 0 {
            text_rank(self.key@)
        } else if column == 1 {
            num_rank(self.parked_ts)
        } else if column == 2 {
            text_rank(self.queue@)
        } else if column == 3 {
            num_rank(self.deletes_secs)
        } else if column == 4 {
            num_rank(self.deliveries)
        } else {
            Rank::Missing
        }
    }

    fn sort_key(&self, column: usize) -> (k: SortKey) {
        if column == 0 {
            text(self.key.as_str())
        } else if column == 1 {
            num(self.parked_ts)
        } else if column == 2 {
            text(self.queue.as_str())
        } else if column == 3 {
            num(self.deletes_secs)
        } else if column == 4 {
            num(self.deliveries)
        } else {
            SortKey::Missing
        }
    }
}

#[derive(Clone, PartialEq, Eq, Debug)]
pub struct TimingRow {
    pub step: &'static str,
    pub p50: String,
    pub p95: String,
    pub samples: usize,
    pub in_step: usize,
    pub oldest: String,
    pub p50_secs: Option<i64>,
    pub p95_secs: Option<i64>,
    pub oldest_secs: Option<i64>,
}

impl Sortable for TimingRow {
    open spec fn column_rank(&self, column: usize) -> Rank {
        if column == 0 {
            text_rank(self.step@)
        } else if column == 1 {
            num_rank(self.p50_secs)
        } else if column == 2 {
            num_rank(self.p95_secs)
        } else if column == 3 {
            Rank::Num(self.samples as i64 as int)
        } else if column == 4 {
            Rank::Num(self.in_step as i64 as int)
        } else if column == 5 {
            num_rank(self.oldest_secs)
        } else {
            Rank::Missing
        }
    }

    fn sort_key(&self, column: usize) -> (k: SortKey) {
        if column == 0 {
            text(self.step)
        } else if column == 1 {
            num(self.p50_secs)
        } else if column == 2 {
            num(self.p95_secs)
        } else if column == 3 {
            SortKey::Num(self.samples as i64)
        } else if column == 4 {
            SortKey::Num(self.in_step as i64)
        } else if column == 5 {
            num(self.oldest_secs)
        } else {
            SortKey::Missing
        }
    }
}

/// Whole seconds since the epoch, rounded down, of an instant in milliseconds.
pub open spec fn epoch_seconds(ms: i64) -> i64 {
    if ms >= 0 {
        (ms / 1000) as i64
    } else {
        (-((-(ms as int) + 999) / 1000)) as i64
    }
}

fn epoch_seconds_of(ms: i64) -> (s: i64)
    ensures
        s == epoch_seconds(ms),
{
    if ms >= 0 {
        ms / 1000
    } else {
        let m: i128 = -(ms as i128);
        (-((m + 999) / 1000)) as i64
    }
}

impl Sortable for BlobCheck {
    open spec fn column_rank(&self, column: usize) -> Rank {
        if column == 0 {
            match self.path {
                Some(p) => text_rank(p@),
                None => Rank::Missing,
            }
        } else if column == 1 {
            match self.size {
                Some(n) => Rank::Num(n as i64 as int),
                None => Rank::Missing,
            }
        } else if column == 2 {
            match self.last_modified {
                Some(t) => match parse_spec(t@) {
                    Some(ms) => Rank::Num(epoch_seconds(ms) as int),
                    None => Rank::Missing,
                },
                None => Rank::Missing,
            }
        } else {
            Rank::Missing
        }
    }

    fn sort_key(&self, column: usize) -> (k: SortKey) {
        if column == 0 {
            match &self.path {
                Some(p) => text(p.as_str()),
                None => SortKey::Missing,
            }
        } else if column == 1 {
            match self.size {
                Some(n) => SortKey::Num(n as i64),
                None => SortKey::Missing,
            }
        } else if column == 2 {
            match parse_opt(&self.last_modified) {
                Some(ms) => SortKey::Num(epoch_seconds_of(ms)),
                None => SortKey::Missing,
            }
        } else {
            SortKey::Missing
        }
    }
}

/// The stable order of texts, compared exactly as `str` compares them.
pub fn order_by_text(keys: &Vec<Vec<char>>) -> (order: Vec<usize>)
    ensures
        is_stable_order(keys@.map_values(|k: Vec<char>| Rank::Text(k@)), true, order@.map_values(|i: usize| i as int)),
{
    let mut folded: Vec<Folded> = Vec::new();
    let mut n: usize = 0;
    while n < keys.len()
        invariant
            n <= keys.len(),
            folded.len() == n,
            forall|j: int| 0 <= j < n ==> folded_rank(#[trigger] folded@[j]) == Rank::Text(keys@[j]@),
        decreases keys.len() - n,
    {
        folded.push(Folded::Text(keys[n].clone()));
        n += 1;
    }
    proof {
        assert(folded@.map_values(|f: Folded| folded_rank(f)) =~= keys@.map_values(|k: Vec<char>| Rank::Text(k@)));
    }
    order_folded(&folded, true)
}

/// How an optional instant ranks: none before any instant.
pub open spec fn instant_rank(t: Option<i64>) -> Rank {
    match t {
        Some(v) => Rank::Num(v as int),
        None => Rank::Least,
    }
}

/// The stable order of optional instants, as `Option`'s order has them: none first.
pub fn order_by_instant(keys: &Vec<Option<i64>>) -> (order: Vec<usize>)
    ensures
        is_stable_order(keys@.map_values(|k: Option<i64>| instant_rank(k)), true, order@.map_values(|i: usize| i as int)),
{
    let mut folded: Vec<Folded> = Vec::new();
    let mut n: usize = 0;
    while n < keys.len()
        invariant
            n <= keys.len(),
            folded.len() == n,
            forall|j: int| 0 <= j < n ==> folded_rank(#[trigger] folded@[j]) == instant_rank(keys@[j]),
        decreases keys.len() - n,
    {
        folded.push(match keys[n] {
            Some(v) => Folded::Num(v),
            None => Folded::Least,
        });
        n += 1;
    }
    proof {
        assert(folded@.map_values(|f: Folded| folded_rank(f)) =~= keys@.map_values(|k: Option<i64>| instant_rank(k)));
    }
    order_folded(&folded, true)
}

/// A lifecycle event closer than this many hours is flagged.
pub const HOT_WITHIN_HOURS: i64 = 48;

/// A pointer older than a nightly build plus half a night has missed a build.
pub const STALE_REFERENCE_HOURS: i64 = 36;

/// An instant the probe wrote, when it reads as one the calendar holds.
pub open spec fn when(v: Option<String>) -> Option<i64> {
    match v {
        Some(s) => match parse_spec(s@) {
            Some(t) => if in_calendar(t) {
                Some(t)
            } else {
                None
            },
            None => None,
        },
        None => None,
    }
}

fn when_of(v: &Option<String>) -> (r: Option<i64>)
    ensures
        r == when(*v),
        r matches Some(t) ==> in_calendar(t),
{
    match parse_opt(v) {
        Some(t) => if fits_calendar(t) {
            Some(t)
        } else {
            None
        },
        None => None,
    }
}

/// The identifier an operator types for a document.
pub open spec fn display_key_of(d: Doc) -> Seq<char> {
    if d.business_key@.len() == 0 {
        d.document_id@
    } else {
        d.business_key@
    }
}

/// The text, or a dash when it is empty.
pub open spec fn text_or_dash(s: Seq<char>) -> Seq<char> {
    if s.len() > 0 {
        s
    } else {
        DASH@
    }
}

/// The first source configured for a source system.
pub open spec fn source_of(sources: Seq<SourceCfg>, system: Seq<char>) -> Option<SourceCfg>
    decreases sources.len(),
{
    if sources.len() == 0 {
        None
    } else if sources[0].source_system@ == system {
        Some(sources[0])
    } else {
        source_of(sources.drop_first(), system)
    }
}

fn source_of_exec<'a>(sources: &'a Vec<SourceCfg>, system: &str) -> (r: Option<&'a SourceCfg>)
    ensures
        match r {
            Some(s) => source_of(sources@, system@) == Some(*s),
            None => source_of(sources@, system@) is None,
        },
{
    let mut i: usize = 0;
    proof {
        assert(sources@.skip(0) =~= sources@);
    }
    while i < sources.len()
        invariant
            i <= sources@.len(),
            source_of(sources@, system@) == source_of(sources@.skip(i as int), system@),
        decreases sources@.len() - i,
    {
        proof {
            assert(sources@.skip(i as int).drop_first() =~= sources@.skip(i + 1));
        }
        if str_eq(sources[i].source_system.as_str(), system) {
            return Some(&sources[i]);
        }
        i += 1;
    }
    None
}

/// How many days a document of this source may wait on its reference.
pub open spec fn pending_budget(o: Overview, d: Doc) -> Option<i64> {
    match source_of(o.sources@, d.source_system@) {
        Some(s) => s.pending_max_days,
        None => None,
    }
}

/// When a document's landing copy is deleted: its upload plus the retention window.
pub open spec fn doc_deletes(d: Doc, retention_days: i64) -> Option<i64> {
    shifted(when(d.uploaded_at), if retention_days < 0 {
        0
    } else {
        retention_days as int
    })
}

fn doc_deletes_of(d: &Doc, retention_days: i64) -> (r: Option<i64>)
    ensures
        r == doc_deletes(*d, retention_days),
        r matches Some(t) ==> in_calendar(t),
{
    shifted_exec(when_of(&d.uploaded_at), if retention_days < 0 {
        0
    } else {
        retention_days
    })
}

/// The nearer of a parked document's two deadlines: its landing delete, or
/// its quarantine once the source's pending budget runs out. A tie is the delete.
pub open spec fn lifecycle_event(o: Overview, d: Doc) -> Option<(Seq<char>, i64)> {
    let deletes = doc_deletes(d, o.env.landing_retention_days);
    let expires = match (when(d.pending_since), pending_budget(o, d)) {
        (Some(s), Some(days)) => shifted(Some(s), days as int),
        _ => None,
    };
    match (deletes, expires) {
        (Some(a), Some(b)) => if b < a {
            Some(("quarantines"@, b))
        } else {
            Some(("deletes"@, a))
        },
        (Some(a), None) => Some(("deletes"@, a)),
        (None, Some(b)) => Some(("quarantines"@, b)),
        (None, None) => None,
    }
}

/// `quarantines 16h`, `deletes overdue 5d`.
pub open spec fn lifecycle_text(verb: Seq<char>, left: int) -> Seq<char> {
    if left < 0 {
        verb + " overdue "@ + countdown_spec(left)
    } else {
        verb + " "@ + countdown_spec(left)
    }
}

/// Within the hot window, overdue included.
pub open spec fn is_hot(left: int) -> bool {
    left < HOT_WITHIN_HOURS * 3_600_000
}

fn next_lifecycle(o: &Overview, d: &Doc, now: i64) -> (r: Option<(String, bool, i64)>)
    ensures
        match lifecycle_event(*o, *d) {
            Some((verb, at)) => r matches Some((text, hot, secs)) && text@ == lifecycle_text(verb, at - now) && hot
                == is_hot(at - now) && secs == whole_seconds(at - now),
            None => r is None,
        },
{
    let deletes = doc_deletes_of(d, o.env.landing_retention_days);
    let expires = match (when_of(&d.pending_since), source_of_exec(&o.sources, d.source_system.as_str())) {
        (Some(s), Some(src)) => match src.pending_max_days {
            Some(days) => shifted_exec(Some(s), days),
            None => None,
        },
        _ => None,
    };
    let (verb, at): (&str, i64) = match (deletes, expires) {
        (Some(a), Some(b)) => if b < a {
            ("quarantines", b)
        } else {
            ("deletes", a)
        },
        (Some(a), None) => ("deletes", a),
        (None, Some(b)) => ("quarantines", b),
        (None, None) => {
            return None;
        },
    };
    let left: i128 = at as i128 - now as i128;
    let mut v = lit(verb);
    if left < 0 {
        push_all(&mut v, &lit(" overdue "));
    } else {
        push_all(&mut v, &lit(" "));
    }
    push_all(&mut v, &chars_of(countdown(left).as_str()));
    Some((string_of(v.as_slice()), left < 48 * 3_600_000, secs_of(now, at)))
}


/// When a parked document began to wait: since it parked, else since it arrived.
pub open spec fn parked_since(d: Doc) -> Option<i64> {
    match when(d.pending_since) {
        Some(t) => Some(t),
        None => when(d.uploaded_at),
    }
}

/// When a parked document arrived: its upload, else when it parked.
pub open spec fn arrived_at(d: Doc) -> Option<i64> {
    match when(d.uploaded_at) {
        Some(t) => Some(t),
        None => when(d.pending_since),
    }
}

/// A span from one instant to another, in whole seconds.
pub open spec fn secs_between(from: i64, to: i64) -> i64 {
    whole_seconds(to - from) as i64
}

/// The queue row of one parked document.
pub open spec fn queue_row_ok(o: Overview, d: Doc, now: i64, r: QueueRow) -> bool {
    let since = when(d.pending_since);
    &&& r.file_guid@ == d.file_guid@
    &&& r.key@ == display_key_of(d)
    &&& r.document_id@ == d.document_id@
    &&& r.src@ == text_or_dash(d.source_system@)
    &&& r.arrived@ == match arrived_at(d) {
        Some(t) => utc_text(t, "%m-%d %H:%MZ"@),
        None => DASH@,
    }
    &&& r.waiting@ == match since {
        Some(s) => span_spec(whole_seconds(now - s)),
        None => DASH@,
    }
    &&& r.attempts@ == match d.pending_attempts {
        Some(a) => dec(a as nat),
        None => DASH@,
    }
    &&& r.pending_key@ == match d.pending_key {
        Some(k) => text_or_dash(k@),
        None => DASH@,
    }
    &&& match lifecycle_event(o, d) {
        Some((verb, at)) => r.lifecycle@ == lifecycle_text(verb, at - now) && r.hot == is_hot(at - now)
            && r.lifecycle_secs == Some(secs_between(now, at)),
        None => r.lifecycle@ == DASH@ && !r.hot && r.lifecycle_secs is None,
    }
    &&& r.arrived_at == match arrived_at(d) {
        Some(t) => Some(epoch_seconds(t)),
        None => None,
    }
    &&& r.waiting_secs == match since {
        Some(s) => Some(secs_between(s, now)),
        None => None,
    }
    &&& r.attempt_count == match d.pending_attempts {
        Some(a) => Some(a as i64),
        None => None,
    }
}

pub(crate) fn secs_of(from: i64, to: i64) -> (r: i64)
    ensures
        r == secs_between(from, to),
        r as int == whole_seconds(to - from),
{
    let d: i128 = to as i128 - from as i128;
    if d >= 0 {
        (d / 1000) as i64
    } else {
        (-((-d) / 1000)) as i64
    }
}

pub(crate) fn span_between(from: i64, to: i64) -> (r: String)
    ensures
        r@ == span_spec(whole_seconds(to - from)),
{
    span(secs_of(from, to))
}

fn dash() -> (r: String)
    ensures
        r@ == DASH@,
{
    DASH.to_owned()
}

fn text_or_dash_of(s: &str) -> (r: String)
    ensures
        r@ == text_or_dash(s@),
{
    if s.is_empty() {
        dash()
    } else {
        s.to_owned()
    }
}

fn queue_row(o: &Overview, d: &Doc, now: i64) -> (r: QueueRow)
    ensures
        queue_row_ok(*o, *d, now, r),
{
    let since = when_of(&d.pending_since);
    let arrived = match when_of(&d.uploaded_at) {
        Some(t) => Some(t),
        None => since,
    };
    let (lifecycle, hot, lifecycle_secs) = match next_lifecycle(o, d, now) {
        Some((text, hot, secs)) => (text, hot, Some(secs)),
        None => (dash(), false, None),
    };
    QueueRow {
        file_guid: d.file_guid.clone(),
        key: d.display_key().to_owned(),
        document_id: d.document_id.clone(),
        src: text_or_dash_of(d.source_system.as_str()),
        arrived: match arrived {
            Some(t) => day_minute(t),
            None => dash(),
        },
        waiting: match since {
            Some(s) => span_between(s, now),
            None => dash(),
        },
        attempts: match d.pending_attempts {
            Some(a) => string_of(dec_of(a as u128).as_slice()),
            None => dash(),
        },
        pending_key: match &d.pending_key {
            Some(k) => text_or_dash_of(k.as_str()),
            None => dash(),
        },
        lifecycle,
        hot,
        arrived_at: match arrived {
            Some(t) => Some(epoch_seconds_of(t)),
            None => None,
        },
        waiting_secs: match since {
            Some(s) => Some(secs_of(s, now)),
            None => None,
        },
        attempt_count: match d.pending_attempts {
            Some(a) => Some(a as i64),
            None => None,
        },
        lifecycle_secs,
    }
}


/// The reference set a document's source reads, if it names one.
pub open spec fn set_of(o: Overview, d: Doc) -> Option<Seq<char>> {
    match source_of(o.sources@, d.source_system@) {
        Some(s) => match s.reference_set {
            Some(r) => Some(r@),
            None => None,
        },
        None => None,
    }
}

fn set_of_exec<'a>(o: &'a Overview, d: &Doc) -> (r: Option<&'a String>)
    ensures
        match r {
            Some(s) => set_of(*o, *d) == Some(s@),
            None => set_of(*o, *d) is None,
        },
{
    match source_of_exec(&o.sources, d.source_system.as_str()) {
        Some(s) => match &s.reference_set {
            Some(r) => Some(r),
            None => None,
        },
        None => None,
    }
}

/// How many of these documents wait on a reference set.
pub open spec fn waiting_on(o: Overview, docs: Seq<Doc>, set: Seq<char>) -> nat
    decreases docs.len(),
{
    if docs.len() == 0 {
        0
    } else {
        waiting_on(o, docs.drop_last(), set) + if set_of(o, docs.last()) == Some(set) {
            1nat
        } else {
            0nat
        }
    }
}

proof fn lemma_waiting_has_a_document(o: Overview, docs: Seq<Doc>, set: Seq<char>)
    requires
        waiting_on(o, docs, set) > 0,
    ensures
        exists|j: int| 0 <= j < docs.len() && set_of(o, #[trigger] docs[j]) == Some(set),
    decreases docs.len(),
{
    if set_of(o, docs.last()) == Some(set) {
        assert(set_of(o, docs[docs.len() - 1]) == Some(set));
    } else {
        lemma_waiting_has_a_document(o, docs.drop_last(), set);
        let j = choose|j: int| 0 <= j < docs.drop_last().len() && set_of(o, #[trigger] docs.drop_last()[j]) == Some(set);
        assert(docs[j] == docs.drop_last()[j]);
    }
}

proof fn lemma_document_is_waiting(o: Overview, docs: Seq<Doc>, set: Seq<char>, j: int)
    requires
        0 <= j < docs.len(),
        set_of(o, docs[j]) == Some(set),
    ensures
        waiting_on(o, docs, set) > 0,
    decreases docs.len(),
{
    if j < docs.len() - 1 {
        assert(docs.drop_last()[j] == docs[j]);
        lemma_document_is_waiting(o, docs.drop_last(), set, j);
    }
}

/// The set most parked documents wait on; among equals, the first by name.
pub open spec fn is_busiest(o: Overview, set: Seq<char>) -> bool {
    &&& waiting_on(o, o.parked@, set) > 0
    &&& forall|t: Seq<char>|
        t != set && #[trigger] waiting_on(o, o.parked@, t) > 0 ==> waiting_on(o, o.parked@, t) < waiting_on(
            o,
            o.parked@,
            set,
        ) || (waiting_on(o, o.parked@, t) == waiting_on(o, o.parked@, set) && lex_lt(set, t))
}

proof fn lemma_busiest_is_unique(o: Overview, a: Seq<char>, b: Seq<char>)
    requires
        is_busiest(o, a),
        is_busiest(o, b),
    ensures
        a == b,
{
    if a != b {
        assert(waiting_on(o, o.parked@, b) > 0);
        assert(waiting_on(o, o.parked@, a) > 0);
        if lex_lt(a, b) {
            lemma_lex_lt_asymmetric(a, b);
        }
    }
}

/// The first pointer of a reference set.
pub open spec fn pointer_of(refs: Seq<RefPointer>, set: Seq<char>) -> Option<RefPointer>
    decreases refs.len(),
{
    if refs.len() == 0 {
        None
    } else if refs[0].reference_set_id@ == set {
        Some(refs[0])
    } else {
        pointer_of(refs.drop_first(), set)
    }
}

/// The pointer the parked queue's headline shows: that of the set most
/// parked documents wait on, else the first pointer.
pub open spec fn reference_for(o: Overview) -> Option<RefPointer> {
    if exists|s: Seq<char>| is_busiest(o, s) {
        pointer_of(o.references@, choose|s: Seq<char>| is_busiest(o, s))
    } else if o.references@.len() > 0 {
        Some(o.references@[0])
    } else {
        None
    }
}

fn waiting_on_exec(o: &Overview, set: &String) -> (n: usize)
    ensures
        n == waiting_on(*o, o.parked@, set@),
{
    let mut n: usize = 0;
    let mut k: usize = 0;
    while k < o.parked.len()
        invariant
            k <= o.parked@.len(),
            n == waiting_on(*o, o.parked@.take(k as int), set@),
            n <= k,
        decreases o.parked@.len() - k,
    {
        proof {
            assert(o.parked@.take(k + 1).drop_last() =~= o.parked@.take(k as int));
            assert(o.parked@.take(k + 1).last() == o.parked@[k as int]);
        }
        match set_of_exec(o, &o.parked[k]) {
            Some(s) => if str_eq(s.as_str(), set.as_str()) {
                n += 1;
            },
            None => {},
        }
        k += 1;
    }
    proof {
        assert(o.parked@.take(k as int) =~= o.parked@);
    }
    n
}

fn pointer_of_exec<'a>(refs: &'a Vec<RefPointer>, set: &String) -> (r: Option<&'a RefPointer>)
    ensures
        match r {
            Some(p) => pointer_of(refs@, set@) == Some(*p),
            None => pointer_of(refs@, set@) is None,
        },
{
    let mut i: usize = 0;
    proof {
        assert(refs@.skip(0) =~= refs@);
    }
    while i < refs.len()
        invariant
            i <= refs@.len(),
            pointer_of(refs@, set@) == pointer_of(refs@.skip(i as int), set@),
        decreases refs@.len() - i,
    {
        proof {
            assert(refs@.skip(i as int).drop_first() =~= refs@.skip(i + 1));
        }
        if str_eq(refs[i].reference_set_id.as_str(), set.as_str()) {
            return Some(&refs[i]);
        }
        i += 1;
    }
    None
}

fn reference_for_parked(o: &Overview) -> (r: Option<&RefPointer>)
    ensures
        match r {
            Some(p) => reference_for(*o) == Some(*p),
            None => reference_for(*o) is None,
        },
{
    let mut best: Option<(&String, usize)> = None;
    let mut i: usize = 0;
    while i < o.parked.len()
        invariant
            i <= o.parked@.len(),
            match best {
                None => forall|j: int| 0 <= j < i ==> set_of(*o, #[trigger] o.parked@[j]) is None,
                Some((s, n)) => {
                    &&& n == waiting_on(*o, o.parked@, s@)
                    &&& n > 0
                    &&& forall|j: int|
                        0 <= j < i ==> (#[trigger] set_of(*o, o.parked@[j]) matches Some(t) ==> t == s@ || waiting_on(
                            *o,
                            o.parked@,
                            t,
                        ) < n || (waiting_on(*o, o.parked@, t) == n && lex_lt(s@, t)))
                },
            },
        decreases o.parked@.len() - i,
    {
        match set_of_exec(o, &o.parked[i]) {
            Some(s) => {
                let n = waiting_on_exec(o, s);
                proof {
                    lemma_document_is_waiting(*o, o.parked@, s@, i as int);
                }
                let take = match best {
                    None => true,
                    Some((b, m)) => n > m || (n == m && lex_lt_of(&chars_of(s.as_str()), &chars_of(b.as_str()))),
                };
                if take {
                    proof {
                        match best {
                            None => {},
                            Some((b, m)) => {
                                assert forall|j: int| 0 <= j < i && (#[trigger] set_of(*o, o.parked@[j]) matches Some(t)) implies {
                                    let t = set_of(*o, o.parked@[j])->0;
                                    t == s@ || waiting_on(*o, o.parked@, t) < n || (waiting_on(*o, o.parked@, t) == n
                                        && lex_lt(s@, t))
                                } by {
                                    let t = set_of(*o, o.parked@[j])->0;
                                    if t == b@ {
                                        if n == m && t != s@ {
                                            lemma_lex_lt_total(s@, t);
                                            if lex_lt(t, s@) {
                                                lemma_lex_lt_asymmetric(t, s@);
                                            }
                                        }
                                    } else if t != s@ && waiting_on(*o, o.parked@, t) == m && n == m {
                                        lemma_lex_lt_transitive(s@, b@, t);
                                    }
                                }
                            },
                        }
                    }
                    best = Some((s, n));
                } else {
                    proof {
                        match best {
                            None => {},
                            Some((b, m)) => {
                                if s@ != b@ && n == m {
                                    lemma_lex_lt_total(s@, b@);
                                }
                            },
                        }
                    }
                }
            },
            None => {},
        }
        i += 1;
    }
    match best {
        Some((s, n)) => {
            proof {
                assert forall|t: Seq<char>| t != s@ && #[trigger] waiting_on(*o, o.parked@, t) > 0 implies waiting_on(
                    *o,
                    o.parked@,
                    t,
                ) < n || (waiting_on(*o, o.parked@, t) == n && lex_lt(s@, t)) by {
                    lemma_waiting_has_a_document(*o, o.parked@, t);
                    let j = choose|j: int| 0 <= j < o.parked@.len() && set_of(*o, #[trigger] o.parked@[j]) == Some(t);
                }
                assert(is_busiest(*o, s@));
                let c = choose|c: Seq<char>| is_busiest(*o, c);
                lemma_busiest_is_unique(*o, c, s@);
            }
            pointer_of_exec(&o.references, s)
        },
        None => {
            proof {
                if exists|c: Seq<char>| is_busiest(*o, c) {
                    let c = choose|c: Seq<char>| is_busiest(*o, c);
                    lemma_waiting_has_a_document(*o, o.parked@, c);
                }
            }
            if o.references.len() > 0 {
                Some(&o.references[0])
            } else {
                None
            }
        },
    }
}


/// How many of these documents lose their landing copy within the hot window.
pub open spec fn deleting_soon(docs: Seq<Doc>, retention_days: i64, now: i64) -> nat
    decreases docs.len(),
{
    if docs.len() == 0 {
        0
    } else {
        deleting_soon(docs.drop_last(), retention_days, now) + if doc_deletes(docs.last(), retention_days) matches Some(
            t,
        ) && is_hot(t - now) {
            1nat
        } else {
            0nat
        }
    }
}

/// The headline figure of the reference the parked queue waits on.
pub open spec fn reference_kpi_ok(o: Overview, now: i64, k: Kpi) -> bool {
    &&& k.label@ == "REFERENCE GENERATION"@
    &&& match reference_for(o) {
        Some(p) => if p.error is None && p.generation is Some {
            &&& k.value@ == dec_signed(p.generation->0 as int)
            &&& k.unit@ == match when(p.built_at) {
                Some(b) => span_spec(whole_seconds(now - b)) + " old"@,
                None => "built at unknown"@,
            }
            &&& k.tone == match when(p.built_at) {
                Some(b) => if now - b > STALE_REFERENCE_HOURS * 3_600_000 {
                    Tone::Warn
                } else {
                    Tone::Good
                },
                None => Tone::Good,
            }
        } else {
            k.value@ == DASH@ && k.unit@ == "pointer unreadable"@ && k.tone == Tone::Bad
        },
        None => k.value@ == DASH@ && k.unit@ == "no reference set"@ && k.tone == Tone::Info,
    }
}

fn reference_kpi(o: &Overview, now: i64) -> (k: Kpi)
    ensures
        reference_kpi_ok(*o, now, k),
{
    match reference_for_parked(o) {
        Some(p) => {
            if p.error.is_none() && p.generation.is_some() {
                let built = when_of(&p.built_at);
                let gen = match p.generation {
                    Some(g) => g,
                    None => 0,
                };
                let unit = match built {
                    Some(b) => {
                        let mut v = chars_of(span_between(b, now).as_str());
                        push_all(&mut v, &lit(" old"));
                        string_of(v.as_slice())
                    },
                    None => "built at unknown".to_owned(),
                };
                let tone = match built {
                    Some(b) => if now as i128 - b as i128 > 36 * 3_600_000 {
                        Tone::Warn
                    } else {
                        Tone::Good
                    },
                    None => Tone::Good,
                };
                Kpi {
                    label: "REFERENCE GENERATION",
                    value: string_of(dec_signed_of(gen).as_slice()),
                    unit,
                    tone,
                }
            } else {
                Kpi { label: "REFERENCE GENERATION", value: dash(), unit: "pointer unreadable".to_owned(), tone: Tone::Bad }
            }
        },
        None => Kpi { label: "REFERENCE GENERATION", value: dash(), unit: "no reference set".to_owned(), tone: Tone::Info },
    }
}

/// How the parked queue orders its documents.
pub open spec fn parked_keys(o: Overview) -> Seq<Rank> {
    o.parked@.map_values(|d: Doc| instant_rank(parked_since(d)))
}

/// The parked queue, oldest first (by when each document parked, else
/// arrived; unknown first), and its four headline figures.
pub fn queue(o: &Overview, now: i64) -> (r: (Vec<Kpi>, Vec<QueueRow>))
    ensures
        exists|order: Seq<int>|
            {
                &&& #[trigger] is_stable_order(parked_keys(*o), true, order)
                &&& r.1@.len() == order.len()
                &&& forall|i: int| 0 <= i < order.len() ==> queue_row_ok(*o, o.parked@[order[i]], now, #[trigger] r.1@[i])
            },
        r.0@.len() == 4,
        r.0@[0].label@ == "PARKED DOCUMENTS"@ && r.0@[0].value@ == dec(o.parked@.len()) && r.0@[0].unit@ == ""@
            && r.0@[0].tone == Tone::Warn,
        r.0@[1].label@ == "OLDEST WAIT"@ && r.0@[1].value@ == (if r.1@.len() == 0 {
            DASH@
        } else {
            r.1@[0].waiting@
        }) && r.0@[1].unit@ == ""@ && r.0@[1].tone == Tone::Warn,
        r.0@[2].label@ == "LANDING DELETES < 48H"@ && r.0@[2].value@ == dec(
            deleting_soon(o.parked@, o.env.landing_retention_days, now),
        ) && r.0@[2].unit@ == "docs"@ && r.0@[2].tone == (if deleting_soon(
            o.parked@,
            o.env.landing_retention_days,
            now,
        ) > 0 {
            Tone::Bad
        } else {
            Tone::Info
        }),
        reference_kpi_ok(*o, now, r.0@[3]),
{
    let mut keys: Vec<Option<i64>> = Vec::new();
    let mut k: usize = 0;
    while k < o.parked.len()
        invariant
            k <= o.parked@.len(),
            keys@.len() == k,
            forall|j: int| 0 <= j < k ==> keys@[j] == parked_since(#[trigger] o.parked@[j]),
        decreases o.parked@.len() - k,
    {
        let d = &o.parked[k];
        keys.push(match when_of(&d.pending_since) {
            Some(t) => Some(t),
            None => when_of(&d.uploaded_at),
        });
        k += 1;
    }
    let order = order_by_instant(&keys);
    proof {
        assert(keys@.map_values(|t: Option<i64>| instant_rank(t)) =~= parked_keys(*o));
        assert forall|a: int| 0 <= a < order@.len() implies 0 <= #[trigger] order@[a] < o.parked@.len() by {
            assert(order@.map_values(|x: usize| x as int)[a] == order@[a] as int);
        }
    }
    let mut rows: Vec<QueueRow> = Vec::new();
    let mut i: usize = 0;
    while i < order.len()
        invariant
            i <= order@.len(),
            order@.len() == o.parked@.len(),
            forall|a: int| 0 <= a < order@.len() ==> 0 <= #[trigger] order@[a] < o.parked@.len(),
            rows@.len() == i,
            forall|a: int| 0 <= a < i ==> queue_row_ok(*o, o.parked@[order@[a] as int], now, #[trigger] rows@[a]),
        decreases order@.len() - i,
    {
        proof {
            assert(0 <= order@.map_values(|x: usize| x as int)[i as int] < o.parked@.len());
        }
        rows.push(queue_row(o, &o.parked[order[i]], now));
        i += 1;
    }
    proof {
        let ord = order@.map_values(|x: usize| x as int);
        assert forall|a: int| 0 <= a < ord.len() implies queue_row_ok(*o, o.parked@[ord[a]], now, #[trigger] rows@[a]) by {
            assert(ord[a] == order@[a] as int);
        }
    }
    let mut deleting: usize = 0;
    let mut j: usize = 0;
    while j < o.parked.len()
        invariant
            j <= o.parked@.len(),
            deleting == deleting_soon(o.parked@.take(j as int), o.env.landing_retention_days, now),
            deleting <= j,
        decreases o.parked@.len() - j,
    {
        proof {
            assert(o.parked@.take(j + 1).drop_last() =~= o.parked@.take(j as int));
            assert(o.parked@.take(j + 1).last() == o.parked@[j as int]);
        }
        match doc_deletes_of(&o.parked[j], o.env.landing_retention_days) {
            Some(t) => if (t as i128 - now as i128) < 48 * 3_600_000 {
                deleting += 1;
            },
            None => {},
        }
        j += 1;
    }
    proof {
        assert(o.parked@.take(j as int) =~= o.parked@);
    }
    let oldest = if rows.len() == 0 {
        dash()
    } else {
        rows[0].waiting.clone()
    };
    let kpis = vec![
        Kpi {
            label: "PARKED DOCUMENTS",
            value: string_of(dec_of(o.parked.len() as u128).as_slice()),
            unit: "".to_owned(),
            tone: Tone::Warn,
        },
        Kpi { label: "OLDEST WAIT", value: oldest, unit: "".to_owned(), tone: Tone::Warn },
        Kpi {
            label: "LANDING DELETES < 48H",
            value: string_of(dec_of(deleting as u128).as_slice()),
            unit: "docs".to_owned(),
            tone: if deleting > 0 {
                Tone::Bad
            } else {
                Tone::Info
            },
        },
        reference_kpi(o, now),
    ];
    (kpis, rows)
}


/// An extraction is stalled when no live lease holds it and nothing has
/// been written for longer than the stall threshold, or never.
pub open spec fn stalled_spec(s: StuckRoot, now: i64) -> bool {
    let lease_live = match when(s.root.archive_extraction_lease_expires_at) {
        Some(l) => l > now,
        None => false,
    };
    !lease_live && match when(s.last_progress) {
        Some(p) => now - p > STALL_AFTER_MINUTES * 60_000,
        None => true,
    }
}

pub fn is_stalled(s: &StuckRoot, now: i64) -> (b: bool)
    ensures
        b == stalled_spec(*s, now),
{
    match when_of(&s.root.archive_extraction_lease_expires_at) {
        Some(l) => if l > now {
            return false;
        },
        None => {},
    }
    match when_of(&s.last_progress) {
        Some(p) => now as i128 - p as i128 > 10 * 60_000,
        None => true,
    }
}

/// The archive's listing, when it lists anything.
pub open spec fn stuck_listing(s: StuckRoot) -> Option<Seq<ExpectedEntry>> {
    match s.expected {
        Some(e) => if e.entries@.len() > 0 {
            Some(e.entries@)
        } else {
            None
        },
        None => None,
    }
}

/// Members written as a share of the files listed, capped at all of them.
pub open spec fn written_pct(written: u64, total: nat) -> u32 {
    if total == 0 {
        0
    } else if written * 100 / (total as int) > 100 {
        100
    } else {
        (written * 100 / (total as int)) as u32
    }
}

/// The row of one extraction still in progress.
pub open spec fn stuck_row_ok(s: StuckRoot, now: i64, r: StuckRow) -> bool {
    let total: Option<nat> = match stuck_listing(s) {
        Some(e) => Some(file_entries(e)),
        None => None,
    };
    let deep: Option<u32> = match stuck_listing(s) {
        Some(e) => max_depth(e),
        None => None,
    };
    &&& r.file_guid@ == s.root.file_guid@
    &&& r.document_id@ == s.root.document_id@
    &&& r.key@ == display_key_of(s.root)
    &&& r.rev@ == text_or_dash(s.root.revision_id@)
    &&& r.written@ == dec(s.members_written as nat) + " / "@ + match total {
        Some(t) => dec(t),
        None => "?"@,
    }
    &&& r.pct == match total {
        Some(t) => Some(written_pct(s.members_written, t)),
        None => None,
    }
    &&& r.depth@ == match (s.deepest, deep) {
        (Some(d), Some(m)) => "level "@ + dec(d as nat) + " of "@ + dec(m as nat),
        (Some(d), None) => "level "@ + dec(d as nat),
        (None, Some(m)) => "none of "@ + dec(m as nat),
        (None, None) => DASH@,
    }
    &&& r.last@ == match when(s.last_progress) {
        Some(p) => span_spec(whole_seconds(now - p)) + " ago"@,
        None => DASH@,
    }
    &&& r.replica@ == match s.replica {
        Some(x) => x@,
        None => "unknown"@,
    }
    &&& r.stalled == stalled_spec(s, now)
    &&& r.last_secs == match when(s.last_progress) {
        Some(p) => Some(secs_between(p, now)),
        None => None,
    }
    &&& r.deepest_n == match s.deepest {
        Some(d) => Some(d as i64),
        None => None,
    }
}

fn listing_counts(entries: &Vec<ExpectedEntry>) -> (r: (usize, Option<u32>))
    ensures
        r.0 == file_entries(entries@),
        r.1 == max_depth(entries@),
{
    let mut files: usize = 0;
    let mut depth: Option<u32> = None;
    let mut i: usize = 0;
    while i < entries.len()
        invariant
            i <= entries@.len(),
            files == file_entries(entries@.take(i as int)),
            files <= i,
            depth == max_depth(entries@.take(i as int)),
        decreases entries@.len() - i,
    {
        proof {
            assert(entries@.take(i + 1).drop_last() =~= entries@.take(i as int));
            assert(entries@.take(i + 1).last() == entries@[i as int]);
        }
        if !entries[i].container && entries[i].rejected.is_none() {
            files += 1;
        }
        let d = entries[i].depth;
        depth = match depth {
            Some(x) => if d > x {
                Some(d)
            } else {
                Some(x)
            },
            None => Some(d),
        };
        i += 1;
    }
    proof {
        assert(entries@.take(i as int) =~= entries@);
    }
    (files, depth)
}

fn dec_string(n: u128) -> (r: String)
    ensures
        r@ == dec(n as nat),
{
    string_of(dec_of(n).as_slice())
}

fn stuck_row(s: &StuckRoot, now: i64) -> (r: StuckRow)
    ensures
        stuck_row_ok(*s, now, r),
{
    let (total, deep): (Option<usize>, Option<u32>) = match &s.expected {
        Some(e) => if e.entries.len() > 0 {
            let (files, depth) = listing_counts(&e.entries);
            (Some(files), depth)
        } else {
            (None, None)
        },
        None => (None, None),
    };
    let mut written = dec_of(s.members_written as u128);
    push_all(&mut written, &lit(" / "));
    match total {
        Some(t) => push_all(&mut written, &dec_of(t as u128)),
        None => push_all(&mut written, &lit("?")),
    }
    let pct = match total {
        Some(t) => Some(if t == 0 {
            0u32
        } else {
            let p: u128 = s.members_written as u128 * 100 / t as u128;
            if p > 100 {
                100u32
            } else {
                p as u32
            }
        }),
        None => None,
    };
    let depth = match (s.deepest, deep) {
        (Some(d), Some(m)) => {
            let mut v = lit("level ");
            push_all(&mut v, &dec_of(d as u128));
            push_all(&mut v, &lit(" of "));
            push_all(&mut v, &dec_of(m as u128));
            string_of(v.as_slice())
        },
        (Some(d), None) => {
            let mut v = lit("level ");
            push_all(&mut v, &dec_of(d as u128));
            string_of(v.as_slice())
        },
        (None, Some(m)) => {
            let mut v = lit("none of ");
            push_all(&mut v, &dec_of(m as u128));
            string_of(v.as_slice())
        },
        (None, None) => dash(),
    };
    let last_at = when_of(&s.last_progress);
    let last = match last_at {
        Some(p) => {
            let mut v = chars_of(span_between(p, now).as_str());
            push_all(&mut v, &lit(" ago"));
            string_of(v.as_slice())
        },
        None => dash(),
    };
    StuckRow {
        file_guid: s.root.file_guid.clone(),
        document_id: s.root.document_id.clone(),
        key: s.root.display_key().to_owned(),
        rev: text_or_dash_of(s.root.revision_id.as_str()),
        written: string_of(written.as_slice()),
        pct,
        depth,
        last,
        replica: match &s.replica {
            Some(x) => x.clone(),
            None => "unknown".to_owned(),
        },
        stalled: is_stalled(s, now),
        last_secs: match last_at {
            Some(p) => Some(secs_of(p, now)),
            None => None,
        },
        deepest_n: match s.deepest {
            Some(d) => Some(d as i64),
            None => None,
        },
    }
}

/// How the extraction table orders its roots: longest silent first.
pub open spec fn stuck_keys(o: Overview) -> Seq<Rank> {
    o.stuck@.map_values(|s: StuckRoot| instant_rank(when(s.last_progress)))
}

/// The extractions still in progress, the one silent longest first (an
/// unknown last write before any).
pub fn stuck(o: &Overview, now: i64) -> (rows: Vec<StuckRow>)
    ensures
        exists|order: Seq<int>|
            {
                &&& #[trigger] is_stable_order(stuck_keys(*o), true, order)
                &&& rows@.len() == order.len()
                &&& forall|i: int| 0 <= i < order.len() ==> stuck_row_ok(o.stuck@[order[i]], now, #[trigger] rows@[i])
            },
{
    let mut keys: Vec<Option<i64>> = Vec::new();
    let mut k: usize = 0;
    while k < o.stuck.len()
        invariant
            k <= o.stuck@.len(),
            keys@.len() == k,
            forall|j: int| 0 <= j < k ==> keys@[j] == when((#[trigger] o.stuck@[j]).last_progress),
        decreases o.stuck@.len() - k,
    {
        keys.push(when_of(&o.stuck[k].last_progress));
        k += 1;
    }
    let order = order_by_instant(&keys);
    proof {
        assert(keys@.map_values(|t: Option<i64>| instant_rank(t)) =~= stuck_keys(*o));
        assert forall|a: int| 0 <= a < order@.len() implies 0 <= #[trigger] order@[a] < o.stuck@.len() by {
            assert(order@.map_values(|x: usize| x as int)[a] == order@[a] as int);
        }
    }
    let mut rows: Vec<StuckRow> = Vec::new();
    let mut i: usize = 0;
    while i < order.len()
        invariant
            i <= order@.len(),
            order@.len() == o.stuck@.len(),
            forall|a: int| 0 <= a < order@.len() ==> 0 <= #[trigger] order@[a] < o.stuck@.len(),
            rows@.len() == i,
            forall|a: int| 0 <= a < i ==> stuck_row_ok(o.stuck@[order@[a] as int], now, #[trigger] rows@[a]),
        decreases order@.len() - i,
    {
        rows.push(stuck_row(&o.stuck[order[i]], now));
        i += 1;
    }
    proof {
        let ord = order@.map_values(|x: usize| x as int);
        assert forall|a: int| 0 <= a < ord.len() implies stuck_row_ok(o.stuck@[ord[a]], now, #[trigger] rows@[a]) by {
            assert(ord[a] == order@[a] as int);
        }
    }
    rows
}


/// The source systems that read a reference set, in configuration order.
pub open spec fn readers(sources: Seq<SourceCfg>, set: Seq<char>) -> Seq<Seq<char>>
    decreases sources.len(),
{
    if sources.len() == 0 {
        seq![]
    } else {
        readers(sources.drop_last(), set) + if sources.last().reference_set matches Some(r) && r@ == set {
            seq![sources.last().source_system@]
        } else {
            seq![]
        }
    }
}

/// How many of these documents come from one of these source systems.
pub open spec fn from_any(docs: Seq<Doc>, systems: Seq<Seq<char>>) -> nat
    decreases docs.len(),
{
    if docs.len() == 0 {
        0
    } else {
        from_any(docs.drop_last(), systems) + if systems.contains(docs.last().source_system@) {
            1nat
        } else {
            0nat
        }
    }
}

/// Texts joined with `, `.
pub open spec fn joined(items: Seq<Seq<char>>) -> Seq<char>
    decreases items.len(),
{
    if items.len() == 0 {
        seq![]
    } else if items.len() == 1 {
        items[0]
    } else {
        joined(items.drop_last()) + ", "@ + items.last()
    }
}

/// The row of one reference pointer.
pub open spec fn ref_row_ok(o: Overview, p: RefPointer, now: i64, r: RefRow) -> bool {
    let names = readers(o.sources@, p.reference_set_id@);
    let built = when(p.built_at);
    let stale = match built {
        Some(b) => now - b > STALE_REFERENCE_HOURS * 3_600_000,
        None => false,
    };
    &&& r.set_id@ == p.reference_set_id@
    &&& r.generation@ == match p.generation {
        Some(g) => dec_signed(g as int),
        None => DASH@,
    }
    &&& r.built_at@ == match built {
        Some(b) => utc_text(b, "%Y-%m-%d %H:%M:%SZ"@),
        None => DASH@,
    }
    &&& r.age@ == match built {
        Some(b) => span_spec(whole_seconds(now - b)),
        None => DASH@,
    }
    &&& r.rows@ == match p.row_count {
        Some(n) => dec(n as nat),
        None => DASH@,
    }
    &&& r.waiting == from_any(o.parked@, names)
    &&& match p.error {
        Some(e) => r.tone == Tone::Bad && r.note@ == e@,
        None => if stale {
            r.tone == Tone::Warn && r.note@ == "Older than 36h: a nightly build has likely not run."@
        } else {
            r.tone == Tone::Good && r.note@ == "Read by "@ + (if names.len() == 0 {
                "no source"@
            } else {
                joined(names)
            }) + "."@
        },
    }
    &&& r.generation_n == p.generation
    &&& r.age_secs == match built {
        Some(b) => Some(secs_between(b, now)),
        None => None,
    }
    &&& r.row_count == match p.row_count {
        Some(n) => Some(n as i64),
        None => None,
    }
}

fn readers_of(sources: &Vec<SourceCfg>, set: &String) -> (r: Vec<String>)
    ensures
        r@.map_values(|s: String| s@) == readers(sources@, set@),
{
    let mut r: Vec<String> = Vec::new();
    let mut i: usize = 0;
    while i < sources.len()
        invariant
            i <= sources@.len(),
            r@.map_values(|s: String| s@) == readers(sources@.take(i as int), set@),
        decreases sources@.len() - i,
    {
        proof {
            assert(sources@.take(i + 1).drop_last() =~= sources@.take(i as int));
            assert(sources@.take(i + 1).last() == sources@[i as int]);
        }
        let reads = match &sources[i].reference_set {
            Some(x) => str_eq(x.as_str(), set.as_str()),
            None => false,
        };
        if reads {
            r.push(sources[i].source_system.clone());
        }
        proof {
            assert(r@.map_values(|s: String| s@) =~= readers(sources@.take(i + 1), set@));
        }
        i += 1;
    }
    proof {
        assert(sources@.take(i as int) =~= sources@);
    }
    r
}

fn contains_name(names: &Vec<String>, name: &str) -> (b: bool)
    ensures
        b == names@.map_values(|s: String| s@).contains(name@),
{
    let mut i: usize = 0;
    while i < names.len()
        invariant
            i <= names@.len(),
            forall|j: int| 0 <= j < i ==> (#[trigger] names@[j])@ != name@,
        decreases names@.len() - i,
    {
        if str_eq(names[i].as_str(), name) {
            proof {
                assert(names@.map_values(|s: String| s@)[i as int] == name@);
            }
            return true;
        }
        i += 1;
    }
    proof {
        let all = names@.map_values(|s: String| s@);
        if all.contains(name@) {
            let j = choose|j: int| 0 <= j < all.len() && #[trigger] all[j] == name@;
            assert(names@[j]@ == name@);
        }
    }
    false
}

fn joined_of(names: &Vec<String>) -> (r: Vec<char>)
    ensures
        r@ == joined(names@.map_values(|s: String| s@)),
{
    let ghost all = names@.map_values(|s: String| s@);
    let mut r: Vec<char> = Vec::new();
    let mut i: usize = 0;
    while i < names.len()
        invariant
            i <= names@.len(),
            all == names@.map_values(|s: String| s@),
            r@ == joined(all.take(i as int)),
        decreases names@.len() - i,
    {
        proof {
            assert(all.take(i + 1).drop_last() =~= all.take(i as int));
            assert(all.take(i + 1).last() == names@[i as int]@);
        }
        if i > 0 {
            push_all(&mut r, &lit(", "));
        } else {
            proof {
                assert(all.take(1)[0] == all.take(1).last());
            }
        }
        push_all(&mut r, &chars_of(names[i].as_str()));
        i += 1;
    }
    proof {
        assert(all.take(i as int) =~= all);
    }
    r
}

fn ref_row(o: &Overview, p: &RefPointer, now: i64) -> (r: RefRow)
    ensures
        ref_row_ok(*o, *p, now, r),
{
    let names = readers_of(&o.sources, &p.reference_set_id);
    let ghost all = names@.map_values(|s: String| s@);
    let mut waiting: usize = 0;
    let mut j: usize = 0;
    while j < o.parked.len()
        invariant
            j <= o.parked@.len(),
            all == names@.map_values(|s: String| s@),
            waiting == from_any(o.parked@.take(j as int), all),
            waiting <= j,
        decreases o.parked@.len() - j,
    {
        proof {
            assert(o.parked@.take(j + 1).drop_last() =~= o.parked@.take(j as int));
            assert(o.parked@.take(j + 1).last() == o.parked@[j as int]);
        }
        if contains_name(&names, o.parked[j].source_system.as_str()) {
            waiting += 1;
        }
        j += 1;
    }
    proof {
        assert(o.parked@.take(j as int) =~= o.parked@);
    }
    let built = when_of(&p.built_at);
    let stale = match built {
        Some(b) => now as i128 - b as i128 > 36 * 3_600_000,
        None => false,
    };
    let (tone, note) = match &p.error {
        Some(e) => (Tone::Bad, e.clone()),
        None => if stale {
            (Tone::Warn, "Older than 36h: a nightly build has likely not run.".to_owned())
        } else {
            let mut v = lit("Read by ");
            if names.len() == 0 {
                push_all(&mut v, &lit("no source"));
            } else {
                push_all(&mut v, &joined_of(&names));
            }
            push_all(&mut v, &lit("."));
            (Tone::Good, string_of(v.as_slice()))
        },
    };
    RefRow {
        set_id: p.reference_set_id.clone(),
        generation: match p.generation {
            Some(g) => string_of(dec_signed_of(g).as_slice()),
            None => dash(),
        },
        built_at: match built {
            Some(b) => full(b),
            None => dash(),
        },
        age: match built {
            Some(b) => span_between(b, now),
            None => dash(),
        },
        rows: match p.row_count {
            Some(n) => dec_string(n as u128),
            None => dash(),
        },
        waiting,
        tone,
        note,
        generation_n: p.generation,
        age_secs: match built {
            Some(b) => Some(secs_of(b, now)),
            None => None,
        },
        row_count: match p.row_count {
            Some(n) => Some(n as i64),
            None => None,
        },
    }
}

/// One row per reference pointer, in the order the probe listed them.
pub fn references(o: &Overview, now: i64) -> (rows: Vec<RefRow>)
    ensures
        rows@.len() == o.references@.len(),
        forall|i: int| 0 <= i < rows@.len() ==> ref_row_ok(*o, o.references@[i], now, #[trigger] rows@[i]),
{
    let mut rows: Vec<RefRow> = Vec::new();
    let mut i: usize = 0;
    while i < o.references.len()
        invariant
            i <= o.references@.len(),
            rows@.len() == i,
            forall|a: int| 0 <= a < i ==> ref_row_ok(*o, o.references@[a], now, #[trigger] rows@[a]),
        decreases o.references@.len() - i,
    {
        rows.push(ref_row(o, &o.references[i], now));
        i += 1;
    }
    rows
}


/// The first catalog row of a document.
pub open spec fn doc_by_id(docs: Seq<Doc>, id: Seq<char>) -> Option<Doc>
    decreases docs.len(),
{
    if docs.len() == 0 {
        None
    } else if docs[0].document_id@ == id {
        Some(docs[0])
    } else {
        doc_by_id(docs.drop_first(), id)
    }
}

fn doc_by_id_exec<'a>(docs: &'a Vec<Doc>, id: &str) -> (r: Option<&'a Doc>)
    ensures
        match r {
            Some(d) => doc_by_id(docs@, id@) == Some(*d),
            None => doc_by_id(docs@, id@) is None,
        },
{
    let mut i: usize = 0;
    proof {
        assert(docs@.skip(0) =~= docs@);
    }
    while i < docs.len()
        invariant
            i <= docs@.len(),
            doc_by_id(docs@, id@) == doc_by_id(docs@.skip(i as int), id@),
        decreases docs@.len() - i,
    {
        proof {
            assert(docs@.skip(i as int).drop_first() =~= docs@.skip(i + 1));
        }
        if str_eq(docs[i].document_id.as_str(), id) {
            return Some(&docs[i]);
        }
        i += 1;
    }
    None
}

/// The catalog row a dead-lettered message names, if the catalog has it.
pub open spec fn message_doc(d: DeadLetters, m: DeadMessage) -> Option<Doc> {
    match m.document_id {
        Some(id) => doc_by_id(d.docs@, id@),
        None => None,
    }
}

/// The row of one dead-lettered message.
pub open spec fn dead_row_ok(d: DeadLetters, m: DeadMessage, now: i64, r: DeadRow) -> bool {
    let doc = message_doc(d, m);
    let deletes = match doc {
        Some(x) => doc_deletes(x, d.env.landing_retention_days),
        None => None,
    };
    let promoted = match doc {
        Some(x) => x.promoted_at is Some,
        None => false,
    };
    &&& r.key@ == match doc {
        Some(x) => display_key_of(x),
        None => match m.document_id {
            Some(id) => id@,
            None => match m.subject {
                Some(s) => s@,
                None => "message #"@ + dec_signed(match m.sequence {
                    Some(n) => n as int,
                    None => 0,
                }),
            },
        },
    }
    &&& r.document_id == m.document_id
    &&& r.parked_at@ == match when(m.enqueued_at) {
        Some(t) => utc_text(t, "%m-%d %H:%MZ"@),
        None => DASH@,
    }
    &&& r.queue@ == m.queue@
    &&& r.landing_deletes@ == if promoted {
        "promoted · safe"@
    } else {
        match deletes {
            Some(t) => if t < now {
                "deleted "@ + span_spec(whole_seconds(now - t)) + " ago"@
            } else {
                "deletes "@ + countdown_spec(t - now)
            },
            None => DASH@,
        }
    }
    &&& r.retry@ == dec(match m.delivery_count {
        Some(n) => n as nat,
        None => 0,
    }) + " deliver"@ + (if m.delivery_count == Some(1u32) {
        "y"@
    } else {
        "ies"@
    }) + match m.reason {
        Some(x) => " · "@ + x@,
        None => seq![],
    }
    &&& r.hot == (!promoted && match deletes {
        Some(t) => is_hot(t - now),
        None => false,
    })
    &&& r.parked_ts == match when(m.enqueued_at) {
        Some(t) => Some(epoch_seconds(t)),
        None => None,
    }
    &&& r.deletes_secs == match deletes {
        Some(t) => Some(secs_between(now, t)),
        None => None,
    }
    &&& r.deliveries == match m.delivery_count {
        Some(n) => Some(n as i64),
        None => None,
    }
    &&& r.sequence == m.sequence
}

fn dead_row(d: &DeadLetters, m: &DeadMessage, now: i64) -> (r: DeadRow)
    ensures
        dead_row_ok(*d, *m, now, r),
{
    let doc = match &m.document_id {
        Some(id) => doc_by_id_exec(&d.docs, id.as_str()),
        None => None,
    };
    let deletes = match doc {
        Some(x) => doc_deletes_of(x, d.env.landing_retention_days),
        None => None,
    };
    let promoted = match doc {
        Some(x) => x.promoted_at.is_some(),
        None => false,
    };
    let key = match doc {
        Some(x) => x.display_key().to_owned(),
        None => match &m.document_id {
            Some(id) => id.clone(),
            None => match &m.subject {
                Some(s) => s.clone(),
                None => {
                    let mut v = lit("message #");
                    push_all(&mut v, &dec_signed_of(match m.sequence {
                        Some(n) => n,
                        None => 0,
                    }));
                    string_of(v.as_slice())
                },
            },
        },
    };
    let enqueued = when_of(&m.enqueued_at);
    let landing_deletes = if promoted {
        "promoted · safe".to_owned()
    } else {
        match deletes {
            Some(t) => if t < now {
                let mut v = lit("deleted ");
                push_all(&mut v, &chars_of(span_between(t, now).as_str()));
                push_all(&mut v, &lit(" ago"));
                string_of(v.as_slice())
            } else {
                let mut v = lit("deletes ");
                push_all(&mut v, &chars_of(countdown(t as i128 - now as i128).as_str()));
                string_of(v.as_slice())
            },
            None => dash(),
        }
    };
    let mut retry = dec_of(match m.delivery_count {
        Some(n) => n as u128,
        None => 0,
    });
    push_all(&mut retry, &lit(" deliver"));
    let once = match m.delivery_count {
        Some(n) => n == 1,
        None => false,
    };
    if once {
        push_all(&mut retry, &lit("y"));
    } else {
        push_all(&mut retry, &lit("ies"));
    }
    let ghost head = retry@;
    match &m.reason {
        Some(x) => {
            push_all(&mut retry, &lit(" · "));
            push_all(&mut retry, &chars_of(x.as_str()));
            proof {
                assert(retry@ =~= head + (" · "@ + x@));
            }
        },
        None => {
            proof {
                assert(retry@ =~= head + seq![]);
            }
        },
    }
    let hot = !promoted && match deletes {
        Some(t) => (t as i128 - now as i128) < 48 * 3_600_000,
        None => false,
    };
    DeadRow {
        key,
        document_id: m.document_id.clone(),
        parked_at: match enqueued {
            Some(t) => day_minute(t),
            None => dash(),
        },
        queue: m.queue.clone(),
        landing_deletes,
        retry: string_of(retry.as_slice()),
        hot,
        parked_ts: match enqueued {
            Some(t) => Some(epoch_seconds_of(t)),
            None => None,
        },
        deletes_secs: match deletes {
            Some(t) => Some(secs_of(now, t)),
            None => None,
        },
        deliveries: match m.delivery_count {
            Some(n) => Some(n as i64),
            None => None,
        },
        sequence: m.sequence,
    }
}

/// How the dead-letter table orders its messages: longest parked first.
pub open spec fn dead_keys(d: DeadLetters) -> Seq<Rank> {
    d.messages@.map_values(|m: DeadMessage| instant_rank(when(m.enqueued_at)))
}

/// The dead-lettered messages, longest parked first, each resolved to its
/// document and its landing copy's fate.
pub fn dead_letters(d: &DeadLetters, now: i64) -> (rows: Vec<DeadRow>)
    ensures
        exists|order: Seq<int>|
            {
                &&& #[trigger] is_stable_order(dead_keys(*d), true, order)
                &&& rows@.len() == order.len()
                &&& forall|i: int| 0 <= i < order.len() ==> dead_row_ok(*d, d.messages@[order[i]], now, #[trigger] rows@[i])
            },
{
    let mut keys: Vec<Option<i64>> = Vec::new();
    let mut k: usize = 0;
    while k < d.messages.len()
        invariant
            k <= d.messages@.len(),
            keys@.len() == k,
            forall|j: int| 0 <= j < k ==> keys@[j] == when((#[trigger] d.messages@[j]).enqueued_at),
        decreases d.messages@.len() - k,
    {
        keys.push(when_of(&d.messages[k].enqueued_at));
        k += 1;
    }
    let order = order_by_instant(&keys);
    proof {
        assert(keys@.map_values(|t: Option<i64>| instant_rank(t)) =~= dead_keys(*d));
        assert forall|a: int| 0 <= a < order@.len() implies 0 <= #[trigger] order@[a] < d.messages@.len() by {
            assert(order@.map_values(|x: usize| x as int)[a] == order@[a] as int);
        }
    }
    let mut rows: Vec<DeadRow> = Vec::new();
    let mut i: usize = 0;
    while i < order.len()
        invariant
            i <= order@.len(),
            order@.len() == d.messages@.len(),
            forall|a: int| 0 <= a < order@.len() ==> 0 <= #[trigger] order@[a] < d.messages@.len(),
            rows@.len() == i,
            forall|a: int| 0 <= a < i ==> dead_row_ok(*d, d.messages@[order@[a] as int], now, #[trigger] rows@[a]),
        decreases order@.len() - i,
    {
        rows.push(dead_row(d, &d.messages[order[i]], now));
        i += 1;
    }
    proof {
        let ord = order@.map_values(|x: usize| x as int);
        assert forall|a: int| 0 <= a < ord.len() implies dead_row_ok(*d, d.messages@[ord[a]], now, #[trigger] rows@[a]) by {
            assert(ord[a] == order@[a] as int);
        }
    }
    rows
}


/// The five stages the timing table measures, by number.
pub open spec fn stage_label(k: int) -> Seq<char> {
    if k == 0 {
        "Registered → uploaded"@
    } else if k == 1 {
        "Gate: uploaded → promoted"@
    } else if k == 2 {
        "Waiting on reference"@
    } else if k == 3 {
        "Promoted → dispatched"@
    } else {
        "Archive extraction"@
    }
}

/// When a document entered and left stage `k`. A document that parked skipped
/// the direct path to promotion, so stage 1 has no measure for it.
pub open spec fn stage_pair(k: int, d: Doc) -> (Option<String>, Option<String>) {
    if k == 0 {
        (d.registered_at, d.uploaded_at)
    } else if k == 1 {
        if d.pending_since is Some {
            (None, None)
        } else {
            (d.uploaded_at, d.promoted_at)
        }
    } else if k == 2 {
        (d.pending_since, d.promoted_at)
    } else if k == 3 {
        (d.promoted_at, d.dispatched_at)
    } else {
        (d.promoted_at, d.archive_extracted_at)
    }
}

/// Whether a document is in stage `k` now, and since when.
pub open spec fn stage_waiting(k: int, d: Doc) -> Option<Option<String>> {
    if k == 0 {
        if d.state@ == "Registered"@ || d.state@ == "AwaitingUpload"@ {
            Some(d.registered_at)
        } else {
            None
        }
    } else if k == 1 {
        if d.state@ == "Uploaded"@ {
            Some(d.uploaded_at)
        } else {
            None
        }
    } else if k == 2 {
        if d.state@ == "PendingMetadata"@ {
            Some(d.pending_since)
        } else {
            None
        }
    } else if k == 3 {
        if d.state@ == "Promoted"@ && d.archive_extraction_state is None {
            Some(d.promoted_at)
        } else {
            None
        }
    } else {
        if d.archive_extraction_state matches Some(x) && x@ == "Extracting"@ {
            Some(d.promoted_at)
        } else {
            None
        }
    }
}

/// How long a document took over stage `k`, when both ends are known and in order.
pub open spec fn dwell_of(k: int, d: Doc) -> Option<i64> {
    match (when(stage_pair(k, d).0), when(stage_pair(k, d).1)) {
        (Some(a), Some(b)) => if b - a >= 0 {
            Some((b - a) as i64)
        } else {
            None
        },
        _ => None,
    }
}

/// A document of its own, rather than a member extracted from an archive.
pub open spec fn is_own(d: Doc) -> bool {
    !(d.root_file_guid@.len() > 0 && d.root_file_guid@ != d.file_guid@)
}

/// The measured dwells of stage `k`, members left out (they copy their root's times).
pub open spec fn dwells(docs: Seq<Doc>, k: int) -> Seq<i64>
    decreases docs.len(),
{
    if docs.len() == 0 {
        seq![]
    } else {
        dwells(docs.drop_last(), k) + if is_own(docs.last()) && dwell_of(k, docs.last()) is Some {
            seq![dwell_of(k, docs.last())->0]
        } else {
            seq![]
        }
    }
}

/// How many documents are in stage `k` now.
pub open spec fn in_stage(docs: Seq<Doc>, k: int) -> nat
    decreases docs.len(),
{
    if docs.len() == 0 {
        0
    } else {
        in_stage(docs.drop_last(), k) + if is_own(docs.last()) && stage_waiting(k, docs.last()) is Some {
            1nat
        } else {
            0nat
        }
    }
}

/// The earliest known entry into stage `k` among the documents in it now.
pub open spec fn oldest_in_stage(docs: Seq<Doc>, k: int) -> Option<i64>
    decreases docs.len(),
{
    if docs.len() == 0 {
        None
    } else {
        let rest = oldest_in_stage(docs.drop_last(), k);
        let here = if is_own(docs.last()) && stage_waiting(k, docs.last()) is Some {
            when(stage_waiting(k, docs.last())->0)
        } else {
            None
        };
        match (here, rest) {
            (Some(x), Some(y)) => if x < y {
                Some(x)
            } else {
                Some(y)
            },
            (Some(x), None) => Some(x),
            (None, r) => r,
        }
    }
}

/// A percentile column: a dash and nothing when no dwell was measured.
pub open spec fn percentile_ok(ds: Seq<i64>, order: Seq<int>, num: int, den: int, text: Seq<char>, secs: Option<i64>) -> bool {
    if ds.len() == 0 {
        text == DASH@ && secs is None
    } else {
        let v = ds[order[nearest_rank(ds.len() as int, num, den) - 1]];
        text == span_spec(whole_seconds(v as int)) && secs == Some(whole_seconds(v as int) as i64)
    }
}

/// How the dwells of a stage sort.
pub open spec fn dwell_keys(docs: Seq<Doc>, k: int) -> Seq<Rank> {
    dwells(docs, k).map_values(|v: i64| Rank::Num(v as int))
}

/// The row of stage `k`: nearest-rank median and 95th percentile of the
/// dwells, how many were measured, and who is in the stage now.
pub open spec fn timing_row_ok(t: Timing, k: int, now: i64, r: TimingRow) -> bool {
    let ds = dwells(t.docs@, k);
    &&& r.step@ == stage_label(k)
    &&& r.samples == ds.len()
    &&& r.in_step == in_stage(t.docs@, k)
    &&& r.oldest@ == match oldest_in_stage(t.docs@, k) {
        Some(s) => span_spec(whole_seconds(now - s)),
        None => DASH@,
    }
    &&& r.oldest_secs == match oldest_in_stage(t.docs@, k) {
        Some(s) => Some(secs_between(s, now)),
        None => None,
    }
    &&& exists|order: Seq<int>|
        {
            &&& #[trigger] is_stable_order(dwell_keys(t.docs@, k), true, order)
            &&& percentile_ok(ds, order, 1, 2, r.p50@, r.p50_secs)
            &&& percentile_ok(ds, order, 19, 20, r.p95@, r.p95_secs)
        }
}

fn stage_pair_of(k: u8, d: &Doc) -> (r: (Option<i64>, Option<i64>))
    requires
        k < 5,
    ensures
        r.0 == when(stage_pair(k as int, *d).0),
        r.1 == when(stage_pair(k as int, *d).1),
{
    if k == 0 {
        (when_of(&d.registered_at), when_of(&d.uploaded_at))
    } else if k == 1 {
        if d.pending_since.is_some() {
            (None, None)
        } else {
            (when_of(&d.uploaded_at), when_of(&d.promoted_at))
        }
    } else if k == 2 {
        (when_of(&d.pending_since), when_of(&d.promoted_at))
    } else if k == 3 {
        (when_of(&d.promoted_at), when_of(&d.dispatched_at))
    } else {
        (when_of(&d.promoted_at), when_of(&d.archive_extracted_at))
    }
}

fn stage_waiting_of(k: u8, d: &Doc) -> (r: Option<Option<i64>>)
    requires
        k < 5,
    ensures
        match stage_waiting(k as int, *d) {
            Some(x) => r == Some(when(x)),
            None => r is None,
        },
{
    let s = d.state.as_str();
    if k == 0 {
        if str_eq(s, "Registered") || str_eq(s, "AwaitingUpload") {
            Some(when_of(&d.registered_at))
        } else {
            None
        }
    } else if k == 1 {
        if str_eq(s, "Uploaded") {
            Some(when_of(&d.uploaded_at))
        } else {
            None
        }
    } else if k == 2 {
        if str_eq(s, "PendingMetadata") {
            Some(when_of(&d.pending_since))
        } else {
            None
        }
    } else if k == 3 {
        if str_eq(s, "Promoted") && d.archive_extraction_state.is_none() {
            Some(when_of(&d.promoted_at))
        } else {
            None
        }
    } else {
        let extracting = match &d.archive_extraction_state {
            Some(x) => str_eq(x.as_str(), "Extracting"),
            None => false,
        };
        if extracting {
            Some(when_of(&d.promoted_at))
        } else {
            None
        }
    }
}

fn stage_name(k: u8) -> (r: &'static str)
    requires
        k < 5,
    ensures
        r@ == stage_label(k as int),
{
    if k == 0 {
        "Registered → uploaded"
    } else if k == 1 {
        "Gate: uploaded → promoted"
    } else if k == 2 {
        "Waiting on reference"
    } else if k == 3 {
        "Promoted → dispatched"
    } else {
        "Archive extraction"
    }
}

fn timing_row(t: &Timing, k: u8, now: i64) -> (r: TimingRow)
    requires
        k < 5,
    ensures
        timing_row_ok(*t, k as int, now, r),
{
    let ghost docs = t.docs@;
    let mut ds: Vec<i64> = Vec::new();
    let mut waiting: usize = 0;
    let mut oldest: Option<i64> = None;
    let mut i: usize = 0;
    while i < t.docs.len()
        invariant
            k < 5,
            docs == t.docs@,
            i <= docs.len(),
            ds@ == dwells(docs.take(i as int), k as int),
            waiting == in_stage(docs.take(i as int), k as int),
            waiting <= i,
            oldest == oldest_in_stage(docs.take(i as int), k as int),
            oldest matches Some(x) ==> in_calendar(x),
        decreases docs.len() - i,
    {
        proof {
            assert(docs.take(i + 1).drop_last() =~= docs.take(i as int));
            assert(docs.take(i + 1).last() == docs[i as int]);
        }
        let d = &t.docs[i];
        if !d.is_member() {
            let (a, b) = stage_pair_of(k, d);
            match (a, b) {
                (Some(x), Some(y)) => if y - x >= 0 {
                    ds.push(y - x);
                },
                _ => {},
            }
            match stage_waiting_of(k, d) {
                Some(since) => {
                    waiting += 1;
                    oldest = match (since, oldest) {
                        (Some(x), Some(y)) => if x < y {
                            Some(x)
                        } else {
                            Some(y)
                        },
                        (Some(x), None) => Some(x),
                        (None, r) => r,
                    };
                },
                None => {},
            }
        }
        proof {
            assert(ds@ =~= dwells(docs.take(i + 1), k as int));
        }
        i += 1;
    }
    proof {
        assert(docs.take(i as int) =~= docs);
    }
    let mut keys: Vec<SortKey> = Vec::new();
    let mut j: usize = 0;
    while j < ds.len()
        invariant
            j <= ds@.len(),
            keys@.len() == j,
            forall|a: int| 0 <= a < j ==> rank(#[trigger] keys@[a]) == Rank::Num(ds@[a] as int),
        decreases ds@.len() - j,
    {
        keys.push(SortKey::Num(ds[j]));
        j += 1;
    }
    let order = stable_order(&keys, true);
    proof {
        assert(keys@.map_values(|x: SortKey| rank(x)) =~= dwell_keys(docs, k as int));
        assert forall|a: int| 0 <= a < order@.len() implies 0 <= #[trigger] order@[a] < ds@.len() by {
            assert(order@.map_values(|x: usize| x as int)[a] == order@[a] as int);
        }
    }
    let mut sorted: Vec<i64> = Vec::new();
    let mut m: usize = 0;
    while m < order.len()
        invariant
            m <= order@.len(),
            order@.len() == ds@.len(),
            forall|a: int| 0 <= a < order@.len() ==> 0 <= #[trigger] order@[a] < ds@.len(),
            sorted@.len() == m,
            forall|a: int| 0 <= a < m ==> sorted@[a] == ds@[#[trigger] order@[a] as int],
        decreases order@.len() - m,
    {
        sorted.push(ds[order[m]]);
        m += 1;
    }
    let p50 = percentile(sorted.as_slice(), 1, 2);
    let p95 = percentile(sorted.as_slice(), 19, 20);
    proof {
        let ord = order@.map_values(|x: usize| x as int);
        if ds@.len() > 0 {
            let a = nearest_rank(ds@.len() as int, 1, 2) - 1;
            assert(sorted@[a] == ds@[ord[a]]);
            let b = nearest_rank(ds@.len() as int, 19, 20) - 1;
            assert(sorted@[b] == ds@[ord[b]]);
        }
        assert(is_stable_order(dwell_keys(docs, k as int), true, ord));
    }
    TimingRow {
        step: stage_name(k),
        p50: match p50 {
            Some(v) => span(if v >= 0 { v / 1000 } else { -(v / -1000) }),
            None => dash(),
        },
        p95: match p95 {
            Some(v) => span(if v >= 0 { v / 1000 } else { -(v / -1000) }),
            None => dash(),
        },
        samples: ds.len(),
        in_step: waiting,
        oldest: match oldest {
            Some(s) => span_between(s, now),
            None => dash(),
        },
        p50_secs: match p50 {
            Some(v) => Some(if v >= 0 { v / 1000 } else { -(v / -1000) }),
            None => None,
        },
        p95_secs: match p95 {
            Some(v) => Some(if v >= 0 { v / 1000 } else { -(v / -1000) }),
            None => None,
        },
        oldest_secs: match oldest {
            Some(s) => Some(secs_of(s, now)),
            None => None,
        },
    }
}

/// The time documents spend in each stage, one row per stage.
pub fn timing(t: &Timing, now: i64) -> (rows: Vec<TimingRow>)
    ensures
        rows@.len() == 5,
        forall|k: int| 0 <= k < 5 ==> timing_row_ok(*t, k, now, #[trigger] rows@[k]),
{
    let mut rows: Vec<TimingRow> = Vec::new();
    let mut k: u8 = 0;
    while k < 5
        invariant
            k <= 5,
            rows@.len() == k,
            forall|a: int| 0 <= a < k ==> timing_row_ok(*t, a, now, #[trigger] rows@[a]),
        decreases 5 - k,
    {
        rows.push(timing_row(t, k, now));
        k += 1;
    }
    rows
}


/// The landing screen: what the environment holds, in a sentence and in figures.
#[derive(Clone, PartialEq, Eq, Debug)]
pub struct Home {
    pub empty: bool,
    pub headline: String,
    pub body: String,
    pub facts: Vec<(String, String)>,
}

/// How many extractions are stalled.
pub open spec fn stalled_count(roots: Seq<StuckRoot>, now: i64) -> nat
    decreases roots.len(),
{
    if roots.len() == 0 {
        0
    } else {
        stalled_count(roots.drop_last(), now) + if stalled_spec(roots.last(), now) {
            1nat
        } else {
            0nat
        }
    }
}

/// One fact of the landing screen.
pub open spec fn fact_is(facts: Seq<(String, String)>, i: int, label: Seq<char>, value: Seq<char>) -> bool {
    facts[i].0@ == label && facts[i].1@ == value
}

/// The landing screen of an overview.
pub open spec fn home_ok(o: Overview, now: i64, h: Home) -> bool {
    let env = if o.env.name@.len() == 0 {
        "This environment"@
    } else {
        unicode_upper(o.env.name@)
    };
    let as_of = match when(Some(o.checked_at)) {
        Some(t) => utc_text(t, "%Y-%m-%d %H:%M:%SZ"@),
        None => DASH@,
    };
    let f = h.facts@;
    &&& f.len() == 10
    &&& fact_is(f, 0, "Catalog rows"@, dec(o.catalog_rows as nat))
    &&& fact_is(f, 1, "Audit rows"@, dec(o.audit_rows as nat))
    &&& fact_is(f, 2, "Parked on metadata"@, dec(o.parked@.len()))
    &&& fact_is(f, 3, "Extractions stalled"@, dec(stalled_count(o.stuck@, now)) + " of "@ + dec(o.stuck@.len()))
    &&& fact_is(f, 4, "Curated documents"@, dec(o.curated_rows as nat))
    &&& fact_is(f, 5, "Dispatched, not curated"@, dec(o.dispatched_not_curated as nat))
    &&& fact_is(f, 6, "Delivered to PACE"@, dec(o.pace_delivered@.len()))
    &&& fact_is(f, 7, "Reference sets"@, dec(o.references@.len()))
    &&& fact_is(f, 8, "Cosmos"@, o.env.cosmos_account@ + "/"@ + o.env.cosmos_db@)
    &&& fact_is(f, 9, "Storage"@, o.env.store_account@)
    &&& h.empty == (o.catalog_rows == 0)
    &&& if o.catalog_rows == 0 {
        &&& h.headline@ == env + " has nothing to trace yet"@
        &&& h.body@ == plural_spec(o.audit_rows as nat, "audit row"@) + " and 0 catalog rows as of "@ + as_of
            + ". This is real platform state, not a fault in the viewer."@
    } else {
        &&& h.headline@ == env + " as it is today"@
        &&& h.body@ == plural_spec(o.catalog_rows as nat, "catalog row"@) + " and "@ + plural_spec(
            o.audit_rows as nat,
            "audit row"@,
        ) + " as of "@ + as_of + ". Every figure below was read just now, read-only."@
    }
}

fn fact(label: &str, value: Vec<char>) -> (r: (String, String))
    ensures
        r.0@ == label@,
        r.1@ == value@,
{
    (label.to_owned(), string_of(value.as_slice()))
}

/// What the landing screen says of an overview.
pub fn home(o: &Overview, now: i64) -> (h: Home)
    ensures
        home_ok(*o, now, h),
{
    let env = if o.env.name.as_str().is_empty() {
        "This environment".to_owned()
    } else {
        to_uppercase(o.env.name.as_str())
    };
    let as_of = match when_of(&Some(o.checked_at.clone())) {
        Some(t) => full(t),
        None => dash(),
    };
    let mut stalled: usize = 0;
    let mut i: usize = 0;
    while i < o.stuck.len()
        invariant
            i <= o.stuck@.len(),
            stalled == stalled_count(o.stuck@.take(i as int), now),
            stalled <= i,
        decreases o.stuck@.len() - i,
    {
        proof {
            assert(o.stuck@.take(i + 1).drop_last() =~= o.stuck@.take(i as int));
            assert(o.stuck@.take(i + 1).last() == o.stuck@[i as int]);
        }
        if is_stalled(&o.stuck[i], now) {
            stalled += 1;
        }
        i += 1;
    }
    proof {
        assert(o.stuck@.take(i as int) =~= o.stuck@);
    }
    let mut stalled_text = dec_of(stalled as u128);
    push_all(&mut stalled_text, &lit(" of "));
    push_all(&mut stalled_text, &dec_of(o.stuck.len() as u128));
    let mut cosmos = chars_of(o.env.cosmos_account.as_str());
    push_all(&mut cosmos, &lit("/"));
    push_all(&mut cosmos, &chars_of(o.env.cosmos_db.as_str()));
    let facts = vec![
        fact("Catalog rows", dec_of(o.catalog_rows as u128)),
        fact("Audit rows", dec_of(o.audit_rows as u128)),
        fact("Parked on metadata", dec_of(o.parked.len() as u128)),
        fact("Extractions stalled", stalled_text),
        fact("Curated documents", dec_of(o.curated_rows as u128)),
        fact("Dispatched, not curated", dec_of(o.dispatched_not_curated as u128)),
        fact("Delivered to PACE", dec_of(o.pace_delivered.len() as u128)),
        fact("Reference sets", dec_of(o.references.len() as u128)),
        fact("Cosmos", cosmos),
        fact("Storage", chars_of(o.env.store_account.as_str())),
    ];
    let mut headline = chars_of(env.as_str());
    let mut body: Vec<char>;
    if o.catalog_rows == 0 {
        push_all(&mut headline, &lit(" has nothing to trace yet"));
        body = chars_of(plural(o.audit_rows, "audit row").as_str());
        push_all(&mut body, &lit(" and 0 catalog rows as of "));
        push_all(&mut body, &chars_of(as_of.as_str()));
        push_all(&mut body, &lit(". This is real platform state, not a fault in the viewer."));
    } else {
        push_all(&mut headline, &lit(" as it is today"));
        body = chars_of(plural(o.catalog_rows, "catalog row").as_str());
        push_all(&mut body, &lit(" and "));
        push_all(&mut body, &chars_of(plural(o.audit_rows, "audit row").as_str()));
        push_all(&mut body, &lit(" as of "));
        push_all(&mut body, &chars_of(as_of.as_str()));
        push_all(&mut body, &lit(". Every figure below was read just now, read-only."));
    }
    Home {
        empty: o.catalog_rows == 0,
        headline: string_of(headline.as_slice()),
        body: string_of(body.as_slice()),
        facts,
    }
}


/// An overdue lifecycle event is always flagged hot.
pub proof fn law_overdue_is_hot(left: int)
    requires
        left < 0,
    ensures
        is_hot(left),
{
}

/// A live extraction lease keeps a quiet root out of the stalled count.
pub proof fn law_leased_root_is_not_stalled(s: StuckRoot, now: i64)
    requires
        (when(s.root.archive_extraction_lease_expires_at) matches Some(l) && l > now),
    ensures
        !stalled_spec(s, now),
{
}

/// The busiest reference set is well defined: at most one set satisfies it.
pub proof fn law_busiest_set_is_unique(o: Overview, a: Seq<char>, b: Seq<char>)
    requires
        is_busiest(o, a),
        is_busiest(o, b),
    ensures
        a == b,
{
    lemma_busiest_is_unique(o, a, b);
}

/// The queues' dead-letter counts summed, when every queue reported one.
pub open spec fn counted(qs: Seq<QueueState>) -> Option<int>
    decreases qs.len(),
{
    if qs.len() == 0 {
        Some(0)
    } else {
        match (counted(qs.drop_last()), qs.last().dead_letter_count) {
            (Some(a), Some(c)) => Some(a + c),
            _ => None,
        }
    }
}

/// The sum the counting reaches: every count up to the first queue that
/// reported none.
pub open spec fn counted_so_far(qs: Seq<QueueState>) -> int
    decreases qs.len(),
{
    if qs.len() == 0 {
        0
    } else {
        match (counted(qs.drop_last()), qs.last().dead_letter_count) {
            (Some(_), Some(c)) => counted_so_far(qs.drop_last()) + c,
            _ => counted_so_far(qs.drop_last()),
        }
    }
}

/// The dead-letter badge: the queues' own counts when every queue reported
/// one, else the messages that could be peeked; plus the Event Grid
/// deliveries that never reached a queue.
pub open spec fn dead_badge_spec(d: DeadLetters) -> int {
    (match counted(d.queues@) {
        Some(n) => n,
        None => d.messages@.len() as int,
    }) + d.event_grid@.len()
}

proof fn lemma_counted_so_far(qs: Seq<QueueState>, i: int)
    requires
        0 <= i <= qs.len(),
    ensures
        counted_so_far(qs.take(i)) <= counted_so_far(qs),
        counted(qs) matches Some(n) ==> n == counted_so_far(qs),
    decreases qs.len(),
{
    if qs.len() > 0 {
        let t = qs.drop_last();
        if i == qs.len() {
            assert(qs.take(i) =~= qs);
            lemma_counted_so_far(t, 0);
        } else {
            assert(qs.take(i) =~= t.take(i));
            lemma_counted_so_far(t, i);
        }
    }
}

/// The number on the dead-letter badge. The sum is made in `u64`, so the
/// counts it adds must fit.
pub fn dead_badge(d: &DeadLetters) -> (r: u64)
    requires
        counted_so_far(d.queues@) <= u64::MAX,
        dead_badge_spec(*d) <= u64::MAX,
    ensures
        r == dead_badge_spec(*d),
{
    let ghost qs = d.queues@;
    let mut acc: u64 = 0;
    let mut all = true;
    let mut i: usize = 0;
    proof {
        assert(qs.take(0) =~= Seq::<QueueState>::empty());
    }
    while i < d.queues.len()
        invariant
            0 <= i <= qs.len(),
            qs == d.queues@,
            counted_so_far(qs) <= u64::MAX,
            all == counted(qs.take(i as int)) is Some,
            acc == counted_so_far(qs.take(i as int)),
            all ==> counted(qs.take(i as int)) == Some(acc as int),
        decreases d.queues.len() - i,
    {
        proof {
            assert(qs.take(i + 1).drop_last() =~= qs.take(i as int));
            assert(qs.take(i + 1).last() == qs[i as int]);
            lemma_counted_so_far(qs, i + 1);
        }
        if all {
            match d.queues[i].dead_letter_count {
                Some(c) => {
                    acc = acc + c;
                },
                None => {
                    all = false;
                },
            }
        }
        i += 1;
    }
    proof {
        assert(qs.take(i as int) =~= qs);
    }
    let base: u64 = if all {
        acc
    } else {
        d.messages.len() as u64
    };
    base + d.event_grid.len() as u64
}

/// A document that parked on metadata adds no time to the "Gate: uploaded →
/// promoted" row: its wait belongs to "Waiting on reference". Whatever the
/// documents before it, adding a parked one leaves that row's samples as they
/// were.
pub proof fn law_a_parked_document_adds_no_gate_time(docs: Seq<Doc>, d: Doc)
    requires
        d.pending_since is Some,
    ensures
        stage_label(1) == "Gate: uploaded → promoted"@,
        dwells(docs.push(d), 1) == dwells(docs, 1),
{
    assert(docs.push(d).drop_last() =~= docs);
    assert(dwells(docs, 1) + seq![] =~= dwells(docs, 1));
}

/// The "Gate: uploaded → promoted" row counts only documents that never
/// parked: it has no more samples than there are such documents.
pub proof fn law_the_gate_counts_only_unparked_documents(docs: Seq<Doc>)
    ensures
        dwells(docs, 1).len() <= docs.filter(|d: Doc| d.pending_since is None).len(),
    decreases docs.len(),
{
    reveal(Seq::filter);
    if docs.len() > 0 {
        law_the_gate_counts_only_unparked_documents(docs.drop_last());
        assert(docs.drop_last().push(docs.last()) =~= docs);
    }
}

/// An extraction that no live lease holds is stalled when it never recorded
/// progress, or when its last progress is more than ten minutes old; one that
/// made progress within the last ten minutes is not.
pub proof fn law_a_silent_unleased_extraction_is_stalled(s: StuckRoot, now: i64)
    requires
        !(when(s.root.archive_extraction_lease_expires_at) matches Some(l) && l > now),
    ensures
        s.last_progress is None ==> stalled_spec(s, now),
        (when(s.last_progress) is None) ==> stalled_spec(s, now),
        (when(s.last_progress) matches Some(p) && now - p > 600_000) ==> stalled_spec(s, now),
        (when(s.last_progress) matches Some(p) && now - p <= 600_000) ==> !stalled_spec(s, now),
{
}

/// Nearest rank is the smallest rank that covers the share: for a fraction
/// `num/den` of `len` samples (0 ≤ num ≤ den), the rank lies in 1..=len, at
/// least that share of the samples stand at or below it, and no smaller rank
/// would do.
pub proof fn law_nearest_rank_is_the_smallest_covering_rank(len: int, num: int, den: int)
    requires
        len >= 1,
        den > 0,
        0 <= num <= den,
    ensures
        1 <= nearest_rank(len, num, den) <= len,
        nearest_rank(len, num, den) * den >= num * len,
        nearest_rank(len, num, den) > 1 ==> (nearest_rank(len, num, den) - 1) * den < num * len,
{
    let x = num * len;
    assert(0 <= x <= den * len) by (nonlinear_arith)
        requires
            0 <= num <= den,
            len >= 1,
            x == num * len,
    ;
    let q = (x + den - 1) / den;
    let m = (x + den - 1) % den;
    assert(x + den - 1 == q * den + m && 0 <= m < den) by (nonlinear_arith)
        requires
            den > 0,
            q == (x + den - 1) / den,
            m == (x + den - 1) % den,
    ;
    assert(q <= len) by (nonlinear_arith)
        requires
            x + den - 1 == q * den + m,
            0 <= m < den,
            x <= den * len,
            den > 0,
    ;
    assert(q * den >= x) by (nonlinear_arith)
        requires
            x + den - 1 == q * den + m,
            0 <= m < den,
    ;
    assert((q - 1) * den < x) by (nonlinear_arith)
        requires
            x + den - 1 == q * den + m,
            0 <= m,
    ;
    assert(q >= 0) by (nonlinear_arith)
        requires
            x + den - 1 == q * den + m,
            m < den,
            x >= 0,
            den > 0,
    ;
    if q < 1 {
        assert(q == 0);
        assert(1 * den >= x) by (nonlinear_arith)
            requires
                q == 0,
                q * den >= x,
                den > 0,
        ;
    }
}

/// A deadline is hot exactly when less than 48 hours are left, overdue
/// included.
pub proof fn law_hot_means_within_two_days(left: int)
    ensures
        is_hot(left) <==> left < 172_800_000,
{
}

/// How a reference pointer reads: an error is bad and says the error; with
/// none, a build more than 36 hours old is a warning, and anything else,
/// an unknown build time included, is good.
pub proof fn law_reference_tone(o: Overview, p: RefPointer, now: i64, r: RefRow)
    requires
        ref_row_ok(o, p, now, r),
    ensures
        p.error matches Some(e) ==> r.tone == Tone::Bad && r.note@ == e@,
        (p.error is None && (when(p.built_at) matches Some(b) && now - b > 129_600_000)) ==> r.tone == Tone::Warn,
        (p.error is None && (when(p.built_at) matches Some(b) && now - b <= 129_600_000)) ==> r.tone == Tone::Good,
        (p.error is None && when(p.built_at) is None) ==> r.tone == Tone::Good,
{
}

/// The start of stage `k` for a document counted in it.
pub open spec fn stage_start(docs: Seq<Doc>, k: int, i: int) -> Option<i64> {
    if is_own(docs[i]) && stage_waiting(k, docs[i]) is Some {
        when(stage_waiting(k, docs[i])->0)
    } else {
        None
    }
}

/// The oldest wait in a stage is the earliest start among the documents in
/// it: no document in the stage started earlier, and one started then; with
/// no known start there is none.
pub proof fn law_the_oldest_wait_is_the_earliest_start(docs: Seq<Doc>, k: int)
    ensures
        oldest_in_stage(docs, k) matches Some(o) ==> (exists|i: int|
            0 <= i < docs.len() && #[trigger] stage_start(docs, k, i) == Some(o)) && forall|i: int|
            0 <= i < docs.len() && #[trigger] stage_start(docs, k, i) is Some ==> o <= stage_start(docs, k, i)->0,
        oldest_in_stage(docs, k) is None ==> forall|i: int|
            0 <= i < docs.len() ==> #[trigger] stage_start(docs, k, i) is None,
    decreases docs.len(),
{
    if docs.len() > 0 {
        let t = docs.drop_last();
        law_the_oldest_wait_is_the_earliest_start(t, k);
        assert forall|i: int| 0 <= i < t.len() implies #[trigger] stage_start(t, k, i) == stage_start(docs, k, i) by {
            assert(t[i] == docs[i]);
        }
        let n = docs.len() - 1;
        assert(docs[n] == docs.last());
        let here = if is_own(docs.last()) && stage_waiting(k, docs.last()) is Some {
            when(stage_waiting(k, docs.last())->0)
        } else {
            None
        };
        assert(stage_start(docs, k, n) == here);
        let rest = oldest_in_stage(t, k);
        if let Some(o) = oldest_in_stage(docs, k) {
            if rest == Some(o) {
                let w = choose|i: int| 0 <= i < t.len() && #[trigger] stage_start(t, k, i) == Some(o);
                assert(stage_start(docs, k, w) == Some(o));
            } else {
                assert(stage_start(docs, k, n) == Some(o));
            }
            assert forall|i: int| 0 <= i < docs.len() && #[trigger] stage_start(docs, k, i) is Some implies o
                <= stage_start(docs, k, i)->0 by {
                if i < n {
                    assert(stage_start(t, k, i) == stage_start(docs, k, i));
                }
            }
        } else {
            assert forall|i: int| 0 <= i < docs.len() implies #[trigger] stage_start(docs, k, i) is None by {
                if i < n {
                    assert(stage_start(t, k, i) == stage_start(docs, k, i));
                }
            }
        }
    }
}

/// A stage's measured dwells are never negative: a document whose end comes
/// before its start is not measured.
pub proof fn law_dwells_are_never_negative(docs: Seq<Doc>, k: int)
    ensures
        forall|i: int| 0 <= i < dwells(docs, k).len() ==> #[trigger] dwells(docs, k)[i] >= 0,
    decreases docs.len(),
{
    if docs.len() > 0 {
        law_dwells_are_never_negative(docs.drop_last(), k);
        let a = dwells(docs.drop_last(), k);
        assert forall|i: int| 0 <= i < dwells(docs, k).len() implies #[trigger] dwells(docs, k)[i] >= 0 by {
            if i < a.len() {
                assert(dwells(docs, k)[i] == a[i]);
            }
        }
    }
}

/// A document that never parked adds no time to "Waiting on reference": only
/// a parked document's wait is measured there.
pub proof fn law_an_unparked_document_adds_no_reference_wait(docs: Seq<Doc>, d: Doc)
    requires
        d.pending_since is None,
    ensures
        stage_label(2) == "Waiting on reference"@,
        dwells(docs.push(d), 2) == dwells(docs, 2),
{
    assert(docs.push(d).drop_last() =~= docs);
    assert(dwells(docs, 2) + seq![] =~= dwells(docs, 2));
}

} // verus!
