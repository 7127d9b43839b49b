//! What the app remembers about each script: its configuration, its output,
//! its verdicts and the clock of the pipeline stage it stands on.
//!
//! Times are milliseconds on the local wall clock, as the app reads it.

use vstd::prelude::*;
use vstd::relations::{sorted_by, total_ordering};
use crate::marker_syntax::{payload_spec, MarkerKind, MarkerSyntax};
use crate::markers::{is_unrecognised, parse, parse_spec, Marker, MarkerView};
use crate::scripts::{ScriptArg, ScriptMeta};
use crate::steps::StepCatalog;
use crate::text::{
    chars_of, dec_signed, lemma_lex_lt_asymmetric, lemma_lex_lt_irreflexive, dec_signed_of, lex_lt, lex_lt_of, lemma_lex_lt_total, lemma_lex_lt_transitive,
    lit, push_all, str_eq, string_of, trim, trim_of,
};

verus! {

/// The deployment a script runs against.
#[derive(Clone, Copy, PartialEq, Eq, Debug, Structural)]
pub enum Environment {
    Sandbox,
    Dev,
    Stg,
}

/// The value exported as `CDW_ENV`.
pub open spec fn env_name(e: Environment) -> Seq<char> {
    match e {
        Environment::Sandbox => "sandbox"@,
        Environment::Dev => "dev"@,
        Environment::Stg => "stg"@,
    }
}

/// The name shown to the user.
pub open spec fn env_label(e: Environment) -> Seq<char> {
    match e {
        Environment::Sandbox => "Sandbox"@,
        Environment::Dev => "Development"@,
        Environment::Stg => "Staging"@,
    }
}

/// The short name on an environment switch.
pub open spec fn env_badge(e: Environment) -> Seq<char> {
    match e {
        Environment::Sandbox => "SBX"@,
        Environment::Dev => "DEV"@,
        Environment::Stg => "STG"@,
    }
}

impl Environment {
    /// Every environment, in the order the selectors offer them.
    pub fn all() -> (r: Vec<Environment>)
        ensures
            r@ == seq![Environment::Sandbox, Environment::Dev, Environment::Stg],
    {
        let r = vec![Environment::Sandbox, Environment::Dev, Environment::Stg];
        proof {
            assert(r@ =~= seq![Environment::Sandbox, Environment::Dev, Environment::Stg]);
        }
        r
    }

    /// The value exported as `CDW_ENV`.
    pub fn as_str(&self) -> (s: &'static str)
        ensures
            s@ == env_name(*self),
    {
        match self {
            Environment::Sandbox => "sandbox",
            Environment::Dev => "dev",
            Environment::Stg => "stg",
        }
    }

    /// The name shown to the user.
    pub fn label(&self) -> (s: &'static str)
        ensures
            s@ == env_label(*self),
    {
        match self {
            Environment::Sandbox => "Sandbox",
            Environment::Dev => "Development",
            Environment::Stg => "Staging",
        }
    }

    /// The short name on an environment switch.
    pub fn badge(&self) -> (s: &'static str)
        ensures
            s@ == env_badge(*self),
    {
        match self {
            Environment::Sandbox => "SBX",
            Environment::Dev => "DEV",
            Environment::Stg => "STG",
        }
    }
}

/// Where a line of output came from.
#[derive(Clone, Copy, PartialEq, Eq, Debug, Structural)]
pub enum StreamType {
    Stdout,
    Stderr,
    /// Written by the app itself.
    System,
}

/// One line of a run's output.
#[derive(PartialEq, Eq, Debug)]
pub struct LogMsg {
    /// Milliseconds since the epoch, local wall clock.
    pub timestamp: i64,
    pub stream: StreamType,
    pub content: String,
}

impl Clone for LogMsg {
    fn clone(&self) -> (r: Self)
        ensures
            r == *self,
    {
        LogMsg { timestamp: self.timestamp, stream: self.stream, content: self.content.clone() }
    }
}

/// How a script's last run went.
#[derive(PartialEq, Eq, Debug)]
pub enum ScriptStatus {
    Idle,
    Running,
    Succeeded,
    /// Exited with this code.
    Failed(i32),
    Cancelled,
    /// The app itself could not run or follow it.
    AppError(String),
}

impl Clone for ScriptStatus {
    fn clone(&self) -> (r: Self)
        ensures
            r == *self,
    {
        match self {
            ScriptStatus::Idle => ScriptStatus::Idle,
            ScriptStatus::Running => ScriptStatus::Running,
            ScriptStatus::Succeeded => ScriptStatus::Succeeded,
            ScriptStatus::Failed(c) => ScriptStatus::Failed(*c),
            ScriptStatus::Cancelled => ScriptStatus::Cancelled,
            ScriptStatus::AppError(e) => ScriptStatus::AppError(e.clone()),
        }
    }
}

impl Default for ScriptStatus {
    fn default() -> (s: Self)
        ensures
            s == ScriptStatus::Idle,
    {
        ScriptStatus::Idle
    }
}

/// One finished run, for the history list.
#[derive(PartialEq, Eq, Debug)]
pub struct HistoryEntry {
    pub script_name: String,
    pub environment: Environment,
    pub start_time: i64,
    pub end_time: i64,
    pub status: ScriptStatus,
}

/// A verdict a run reached about itself.
#[derive(PartialEq, Eq, Debug)]
pub struct Verdict {
    pub label: String,
    pub ok: bool,
}

impl Clone for Verdict {
    fn clone(&self) -> (r: Self)
        ensures
            r == *self,
    {
        Verdict { label: self.label.clone(), ok: self.ok }
    }
}

/// A value chosen for a flag that takes one.
#[derive(PartialEq, Eq, Debug)]
pub struct Choice {
    pub flag: String,
    pub value: String,
}

impl Clone for Choice {
    fn clone(&self) -> (r: Self)
        ensures
            r == *self,
    {
        Choice { flag: self.flag.clone(), value: self.value.clone() }
    }
}

/// Seconds attributed to one stage.
#[derive(PartialEq, Eq, Debug)]
pub struct StageTime {
    pub step: String,
    pub seconds: u64,
}

impl Clone for StageTime {
    fn clone(&self) -> (r: Self)
        ensures
            r == *self,
    {
        StageTime { step: self.step.clone(), seconds: self.seconds }
    }
}

/// The lines a trace block filed under one component.
#[derive(PartialEq, Eq, Debug)]
pub struct TraceBlock {
    pub component: String,
    pub lines: Vec<LogMsg>,
}

impl Clone for TraceBlock {
    fn clone(&self) -> (r: Self)
        ensures
            r.component == self.component,
            r.lines@ == self.lines@,
    {
        let lines = self.lines.clone();
        proof {
            assert forall|i: int| 0 <= i < lines.len() implies lines@[i] == self.lines@[i] by {
                assert(cloned::<LogMsg>(self.lines[i], lines[i]));
            }
            assert(lines@ =~= self.lines@);
        }
        TraceBlock { component: self.component.clone(), lines }
    }
}

// ------------------------------------------------------------ keyed lists

/// A list of keyed entries read as a map: the first entry with a key holds it.
pub open spec fn assoc<V>(s: Seq<(Seq<char>, V)>) -> Map<Seq<char>, V>
    decreases s.len(),
{
    if s.len() == 0 {
        Map::empty()
    } else {
        assoc(s.drop_first()).insert(s[0].0, s[0].1)
    }
}

/// Keys strictly increasing: sorted, and none twice.
pub open spec fn keys_sorted<V>(s: Seq<(Seq<char>, V)>) -> bool {
    forall|i: int, j: int| 0 <= i < j < s.len() ==> lex_lt(#[trigger] s[i].0, #[trigger] s[j].0)
}

pub open spec fn choice_pairs(s: Seq<Choice>) -> Seq<(Seq<char>, Seq<char>)> {
    s.map_values(|c: Choice| (c.flag@, c.value@))
}

pub open spec fn stage_pairs(s: Seq<StageTime>) -> Seq<(Seq<char>, u64)> {
    s.map_values(|t: StageTime| (t.step@, t.seconds))
}

pub open spec fn trace_pairs(s: Seq<TraceBlock>) -> Seq<(Seq<char>, Seq<LogMsg>)> {
    s.map_values(|b: TraceBlock| (b.component@, b.lines@))
}

proof fn lemma_assoc_first<V>(s: Seq<(Seq<char>, V)>, i: int)
    requires
        0 <= i < s.len(),
        forall|j: int| 0 <= j < i ==> s[j].0 != s[i].0,
    ensures
        assoc(s).dom().contains(s[i].0),
        assoc(s)[s[i].0] == s[i].1,
    decreases i,
{
    if i > 0 {
        assert forall|j: int| 0 <= j < i - 1 implies #[trigger] s.drop_first()[j].0 != s.drop_first()[i - 1].0 by {
            assert(s.drop_first()[j] == s[j + 1]);
        }
        lemma_assoc_first(s.drop_first(), i - 1);
    }
}

proof fn lemma_assoc_absent<V>(s: Seq<(Seq<char>, V)>, k: Seq<char>)
    requires
        forall|j: int| 0 <= j < s.len() ==> s[j].0 != k,
    ensures
        !assoc(s).dom().contains(k),
    decreases s.len(),
{
    if s.len() > 0 {
        assert forall|j: int| 0 <= j < s.len() - 1 implies #[trigger] s.drop_first()[j].0 != k by {
            assert(s.drop_first()[j] == s[j + 1]);
        }
        lemma_assoc_absent(s.drop_first(), k);
    }
}

proof fn lemma_assoc_update<V>(s: Seq<(Seq<char>, V)>, i: int, v: V)
    requires
        0 <= i < s.len(),
        forall|j: int| 0 <= j < i ==> s[j].0 != s[i].0,
    ensures
        assoc(s.update(i, (s[i].0, v))) == assoc(s).insert(s[i].0, v),
    decreases i,
{
    let k = s[i].0;
    if i == 0 {
        assert(s.update(0, (k, v)).drop_first() =~= s.drop_first());
        assert(assoc(s.update(i, (k, v))) =~= assoc(s).insert(k, v));
    } else {
        assert(s.update(i, (k, v)).drop_first() =~= s.drop_first().update(i - 1, (k, v)));
        assert forall|j: int| 0 <= j < i - 1 implies #[trigger] s.drop_first()[j].0 != s.drop_first()[i - 1].0 by {
            assert(s.drop_first()[j] == s[j + 1]);
        }
        lemma_assoc_update(s.drop_first(), i - 1, v);
        assert(s[0].0 != k);
        assert(assoc(s.update(i, (k, v))) =~= assoc(s).insert(k, v));
    }
}

proof fn lemma_assoc_insert<V>(s: Seq<(Seq<char>, V)>, i: int, p: (Seq<char>, V))
    requires
        0 <= i <= s.len(),
        forall|j: int| 0 <= j < s.len() ==> s[j].0 != p.0,
    ensures
        assoc(s.insert(i, p)) == assoc(s).insert(p.0, p.1),
    decreases i,
{
    if i == 0 {
        assert(s.insert(0, p).drop_first() =~= s);
    } else {
        assert(s.insert(i, p).drop_first() =~= s.drop_first().insert(i - 1, p));
        assert forall|j: int| 0 <= j < s.len() - 1 implies #[trigger] s.drop_first()[j].0 != p.0 by {
            assert(s.drop_first()[j] == s[j + 1]);
        }
        lemma_assoc_insert(s.drop_first(), i - 1, p);
        assert(s[0].0 != p.0);
        assert(assoc(s.insert(i, p)) =~= assoc(s).insert(p.0, p.1));
    }
}

/// Inserting a new key where the first greater key stands keeps the keys sorted.
proof fn lemma_sorted_insert<V>(s: Seq<(Seq<char>, V)>, i: int, p: (Seq<char>, V))
    requires
        keys_sorted(s),
        0 <= i <= s.len(),
        forall|j: int| 0 <= j < s.len() ==> s[j].0 != p.0,
        forall|j: int| 0 <= j < i ==> !lex_lt(p.0, #[trigger] s[j].0),
        i < s.len() ==> lex_lt(p.0, s[i].0),
    ensures
        keys_sorted(s.insert(i, p)),
{
    let t = s.insert(i, p);
    assert forall|a: int, b: int| 0 <= a < b < t.len() implies lex_lt(#[trigger] t[a].0, #[trigger] t[b].0) by {
        if b < i {
            assert(t[a] == s[a] && t[b] == s[b]);
        } else if b == i {
            assert(t[a] == s[a]);
            assert(!lex_lt(p.0, s[a].0));
            lemma_lex_lt_total(s[a].0, p.0);
        } else if a == i {
            assert(t[b] == s[b - 1]);
            if b - 1 > i {
                lemma_lex_lt_transitive(p.0, s[i].0, s[b - 1].0);
            }
        } else if a < i {
            assert(t[a] == s[a] && t[b] == s[b - 1]);
        } else {
            assert(t[a] == s[a - 1] && t[b] == s[b - 1]);
        }
    }
}

/// Updating a value in place keeps the keys as they were.
proof fn lemma_sorted_update<V>(s: Seq<(Seq<char>, V)>, i: int, v: V)
    requires
        keys_sorted(s),
        0 <= i < s.len(),
    ensures
        keys_sorted(s.update(i, (s[i].0, v))),
{
    let t = s.update(i, (s[i].0, v));
    assert forall|a: int, b: int| 0 <= a < b < t.len() implies lex_lt(#[trigger] t[a].0, #[trigger] t[b].0) by {
        assert(t[a].0 == s[a].0 && t[b].0 == s[b].0);
    }
}

/// The index of the first entry whose key is `k`.
fn find_key(keys: &Vec<Vec<char>>, k: &Vec<char>) -> (r: Option<usize>)
    ensures
        match r {
            Some(i) => i < keys.len() && keys@[i as int]@ == k@
                && forall|j: int| 0 <= j < i ==> keys@[j]@ != k@,
            None => forall|j: int| 0 <= j < keys.len() ==> keys@[j]@ != k@,
        },
{
    let mut i: usize = 0;
    while i < keys.len()
        invariant
            i <= keys.len(),
            forall|j: int| 0 <= j < i ==> keys@[j]@ != k@,
        decreases keys.len() - i,
    {
        if crate::text::eq_of(&keys[i], k) {
            return Some(i);
        }
        i += 1;
    }
    None
}

/// Where a key not in the list goes to keep it sorted: before the first greater key.
fn sorted_slot(keys: &Vec<Vec<char>>, k: &Vec<char>) -> (r: usize)
    ensures
        r <= keys.len(),
        forall|j: int| 0 <= j < r ==> !lex_lt(k@, #[trigger] keys@[j]@),
        r < keys.len() ==> lex_lt(k@, keys@[r as int]@),
{
    let mut i: usize = 0;
    while i < keys.len()
        invariant
            i <= keys.len(),
            forall|j: int| 0 <= j < i ==> !lex_lt(k@, #[trigger] keys@[j]@),
        decreases keys.len() - i,
    {
        if lex_lt_of(k, &keys[i]) {
            return i;
        }
        i += 1;
    }
    i
}


fn choice_keys(v: &Vec<Choice>) -> (r: Vec<Vec<char>>)
    ensures
        r.len() == v.len(),
        forall|i: int| 0 <= i < v.len() ==> #[trigger] r@[i]@ == v@[i].flag@,
{
    let mut r: Vec<Vec<char>> = Vec::new();
    let mut i: usize = 0;
    while i < v.len()
        invariant
            i <= v.len(),
            r.len() == i,
            forall|j: int| 0 <= j < i ==> #[trigger] r@[j]@ == v@[j].flag@,
        decreases v.len() - i,
    {
        r.push(chars_of(v[i].flag.as_str()));
        i += 1;
    }
    r
}

fn stage_keys(v: &Vec<StageTime>) -> (r: Vec<Vec<char>>)
    ensures
        r.len() == v.len(),
        forall|i: int| 0 <= i < v.len() ==> #[trigger] r@[i]@ == v@[i].step@,
{
    let mut r: Vec<Vec<char>> = Vec::new();
    let mut i: usize = 0;
    while i < v.len()
        invariant
            i <= v.len(),
            r.len() == i,
            forall|j: int| 0 <= j < i ==> #[trigger] r@[j]@ == v@[j].step@,
        decreases v.len() - i,
    {
        r.push(chars_of(v[i].step.as_str()));
        i += 1;
    }
    r
}

fn trace_keys(v: &Vec<TraceBlock>) -> (r: Vec<Vec<char>>)
    ensures
        r.len() == v.len(),
        forall|i: int| 0 <= i < v.len() ==> #[trigger] r@[i]@ == v@[i].component@,
{
    let mut r: Vec<Vec<char>> = Vec::new();
    let mut i: usize = 0;
    while i < v.len()
        invariant
            i <= v.len(),
            r.len() == i,
            forall|j: int| 0 <= j < i ==> #[trigger] r@[j]@ == v@[j].component@,
        decreases v.len() - i,
    {
        r.push(chars_of(v[i].component.as_str()));
        i += 1;
    }
    r
}

/// Whole seconds from `started` to `now`, none when the clock went backwards.
pub open spec fn spent_seconds(started: i64, now: i64) -> u64 {
    if now > started {
        ((now - started) / 1000) as u64
    } else {
        0
    }
}

pub open spec fn sat_add(a: u64, b: u64) -> u64 {
    if a + b > u64::MAX {
        u64::MAX
    } else {
        (a + b) as u64
    }
}

/// The value a map holds for a key, or zero.
pub open spec fn held(m: Map<Seq<char>, u64>, k: Seq<char>) -> u64 {
    if m.dom().contains(k) {
        m[k]
    } else {
        0
    }
}

/// The argv entries the choices add: flag then value, for each choice with a value.
pub open spec fn choice_args(c: Seq<(Seq<char>, Seq<char>)>) -> Seq<Seq<char>>
    decreases c.len(),
{
    if c.len() == 0 {
        seq![]
    } else {
        let last = c.last();
        choice_args(c.drop_last()) + if last.1.len() > 0 {
            seq![last.0, last.1]
        } else {
            seq![]
        }
    }
}

/// `String`'s order on (flag, value) pairs: by flag, then by value.
pub open spec fn pair_lt(a: (Seq<char>, Seq<char>), b: (Seq<char>, Seq<char>)) -> bool {
    lex_lt(a.0, b.0) || (a.0 == b.0 && lex_lt(a.1, b.1))
}

/// `x` placed before the first pair of `s` that does not sort below it.
pub open spec fn insert_pair(x: (Seq<char>, Seq<char>), s: Seq<(Seq<char>, Seq<char>)>) -> Seq<(Seq<char>, Seq<char>)>
    decreases s.len(),
{
    if s.len() == 0 {
        seq![x]
    } else if pair_lt(s[0], x) {
        seq![s[0]] + insert_pair(x, s.drop_first())
    } else {
        seq![x] + s
    }
}

/// The pairs in ascending order, as a sort of them gives.
pub open spec fn sort_pairs(s: Seq<(Seq<char>, Seq<char>)>) -> Seq<(Seq<char>, Seq<char>)>
    decreases s.len(),
{
    if s.len() == 0 {
        seq![]
    } else {
        insert_pair(s.last(), sort_pairs(s.drop_last()))
    }
}

/// Where `x` first stands in `s`, from index `i` on.
pub open spec fn first_index(s: Seq<Seq<char>>, x: Seq<char>, i: int) -> Option<int>
    decreases s.len() - i,
{
    if i < 0 || i >= s.len() {
        None
    } else if s[i] == x {
        Some(i)
    } else {
        first_index(s, x, i + 1)
    }
}

/// The flags a script declares on by default, in order.
pub open spec fn default_flags(args: Seq<ScriptArg>) -> Seq<Seq<char>>
    decreases args.len(),
{
    if args.len() == 0 {
        seq![]
    } else if args.last().default_on {
        default_flags(args.drop_last()).push(args.last().flag@)
    } else {
        default_flags(args.drop_last())
    }
}

/// The toggles a script starts with: the flags it declares on by default.
pub fn default_args(meta: &ScriptMeta) -> (r: Vec<String>)
    ensures
        strings(r@) == default_flags(meta.args@),
{
    let mut r: Vec<String> = Vec::new();
    let mut i: usize = 0;
    while i < meta.args.len()
        invariant
            0 <= i <= meta.args@.len(),
            strings(r@) == default_flags(meta.args@.take(i as int)),
        decreases meta.args.len() - i,
    {
        proof {
            assert(meta.args@.take(i + 1).drop_last() =~= meta.args@.take(i as int));
            assert(meta.args@.take(i + 1).last() == meta.args@[i as int]);
        }
        if meta.args[i].default_on {
            let ghost r0 = r@;
            let f = meta.args[i].flag.clone();
            r.push(f);
            proof {
                assert(strings(r@) =~= strings(r0).push(meta.args@[i as int].flag@));
            }
        }
        i += 1;
    }
    proof {
        assert(meta.args@.take(i as int) =~= meta.args@);
    }
    r
}

/// Some pair of `s` holds key `k`.
pub open spec fn key_in(s: Seq<(Seq<char>, Seq<char>)>, k: Seq<char>) -> bool {
    exists|i: int| 0 <= i < s.len() && #[trigger] s[i].0 == k
}

/// The first pair of `s` for each key, in order: one value per key, the
/// value the key is held at.
pub open spec fn firsts(s: Seq<(Seq<char>, Seq<char>)>) -> Seq<(Seq<char>, Seq<char>)>
    decreases s.len(),
{
    if s.len() == 0 {
        seq![]
    } else if key_in(s.drop_last(), s.last().0) {
        firsts(s.drop_last())
    } else {
        firsts(s.drop_last()).push(s.last())
    }
}

/// `p` is the first pair of `s` with its key.
pub open spec fn first_entry(s: Seq<(Seq<char>, Seq<char>)>, p: (Seq<char>, Seq<char>)) -> bool {
    exists|i: int| 0 <= i < s.len() && #[trigger] s[i] == p && forall|j: int| 0 <= j < i ==> s[j].0 != p.0
}

/// The choices as the command line sends them: one per flag, the value the
/// flag is held at, in ascending order.
pub open spec fn choice_entries(s: Seq<(Seq<char>, Seq<char>)>) -> Seq<(Seq<char>, Seq<char>)> {
    sort_pairs(firsts(s))
}

proof fn lemma_firsts(s: Seq<(Seq<char>, Seq<char>)>)
    ensures
        firsts(s).no_duplicates(),
        forall|p: (Seq<char>, Seq<char>)| #[trigger] firsts(s).contains(p) <==> first_entry(s, p),
    decreases s.len(),
{
    if s.len() > 0 {
        let t = s.drop_last();
        let x = s.last();
        lemma_firsts(t);
        let f = firsts(t);
        assert forall|p: (Seq<char>, Seq<char>)| first_entry(t, p) implies first_entry(s, p) by {
            let i = choose|i: int| 0 <= i < t.len() && #[trigger] t[i] == p && forall|j: int| 0 <= j < i ==> t[j].0 != p.0;
            assert(s[i] == p);
            assert forall|j: int| 0 <= j < i implies s[j].0 != p.0 by {
                assert(s[j] == t[j]);
            }
        }
        if key_in(t, x.0) {
            assert forall|p: (Seq<char>, Seq<char>)| first_entry(s, p) implies first_entry(t, p) by {
                let i = choose|i: int| 0 <= i < s.len() && #[trigger] s[i] == p && forall|j: int| 0 <= j < i ==> s[j].0 != p.0;
                if i == s.len() - 1 {
                    let w = choose|w: int| 0 <= w < t.len() && #[trigger] t[w].0 == x.0;
                    assert(s[w].0 != p.0);
                    assert(s[w] == t[w]);
                }
                assert(t[i] == p);
                assert forall|j: int| 0 <= j < i implies t[j].0 != p.0 by {
                    assert(s[j] == t[j]);
                }
            }
        } else {
            assert forall|p: (Seq<char>, Seq<char>)| first_entry(s, p) && p != x implies first_entry(t, p) by {
                let i = choose|i: int| 0 <= i < s.len() && #[trigger] s[i] == p && forall|j: int| 0 <= j < i ==> s[j].0 != p.0;
                assert(i != s.len() - 1);
                assert(t[i] == p);
                assert forall|j: int| 0 <= j < i implies t[j].0 != p.0 by {
                    assert(s[j] == t[j]);
                }
            }
            assert(first_entry(s, x)) by {
                assert(s[s.len() - 1] == x);
                assert forall|j: int| 0 <= j < s.len() - 1 implies s[j].0 != x.0 by {
                    assert(s[j] == t[j]);
                    if s[j].0 == x.0 {
                        assert(t[j].0 == x.0);
                    }
                }
            }
            assert(!f.contains(x)) by {
                if f.contains(x) {
                    let i = choose|i: int| 0 <= i < t.len() && #[trigger] t[i] == x && forall|j: int| 0 <= j < i ==> t[j].0 != x.0;
                    assert(t[i].0 == x.0);
                }
            }
            let g = f.push(x);
            assert forall|i: int, j: int| 0 <= i < g.len() && 0 <= j < g.len() && i != j implies g[i] != g[j] by {
                if i < f.len() && j < f.len() {
                    assert(g[i] == f[i] && g[j] == f[j]);
                } else if i < f.len() {
                    assert(g[i] == f[i] && f.contains(f[i]));
                } else if j < f.len() {
                    assert(g[j] == f[j] && f.contains(f[j]));
                }
            }
            assert forall|p: (Seq<char>, Seq<char>)| #[trigger] g.contains(p) <==> first_entry(s, p) by {
                if g.contains(p) && p != x {
                    let i = choose|i: int| 0 <= i < g.len() && g[i] == p;
                    assert(f[i] == p);
                    assert(f.contains(p));
                }
                if first_entry(s, p) && p != x {
                    assert(f.contains(p));
                    let i = choose|i: int| 0 <= i < f.len() && f[i] == p;
                    assert(g[i] == p);
                }
                if p == x {
                    assert(g[g.len() - 1] == x);
                }
            }
        }
    }
}

proof fn lemma_first_occurrence(s: Seq<(Seq<char>, Seq<char>)>, k: Seq<char>)
    requires
        key_in(s, k),
    ensures
        exists|i: int| 0 <= i < s.len() && #[trigger] s[i].0 == k && forall|j: int| 0 <= j < i ==> s[j].0 != k,
    decreases s.len(),
{
    let t = s.drop_last();
    if key_in(t, k) {
        lemma_first_occurrence(t, k);
        let i = choose|i: int| 0 <= i < t.len() && #[trigger] t[i].0 == k && forall|j: int| 0 <= j < i ==> t[j].0 != k;
        assert(s[i].0 == k);
        assert forall|j: int| 0 <= j < i implies s[j].0 != k by {
            assert(s[j] == t[j]);
        }
    } else {
        let w = choose|w: int| 0 <= w < s.len() && #[trigger] s[w].0 == k;
        if w < s.len() - 1 {
            assert(t[w] == s[w]);
        }
        assert forall|j: int| 0 <= j < s.len() - 1 implies s[j].0 != k by {
            assert(s[j] == t[j]);
            if s[j].0 == k {
                assert(t[j].0 == k);
            }
        }
        assert(s[s.len() - 1].0 == k);
    }
}

proof fn lemma_first_entry_is_held(s: Seq<(Seq<char>, Seq<char>)>, p: (Seq<char>, Seq<char>))
    ensures
        first_entry(s, p) <==> (assoc(s).dom().contains(p.0) && assoc(s)[p.0] == p.1),
{
    if first_entry(s, p) {
        let i = choose|i: int| 0 <= i < s.len() && #[trigger] s[i] == p && forall|j: int| 0 <= j < i ==> s[j].0 != p.0;
        lemma_assoc_first(s, i);
    }
    if assoc(s).dom().contains(p.0) && assoc(s)[p.0] == p.1 {
        lemma_assoc_dom(s, p.0);
        assert(key_in(s, p.0));
        lemma_first_occurrence(s, p.0);
        let i = choose|i: int| 0 <= i < s.len() && #[trigger] s[i].0 == p.0 && forall|j: int| 0 <= j < i ==> s[j].0 != p.0;
        lemma_assoc_first(s, i);
        assert(s[i] == p);
    }
}

proof fn lemma_insert_at(x: (Seq<char>, Seq<char>), s: Seq<(Seq<char>, Seq<char>)>, k: int)
    requires
        0 <= k <= s.len(),
        forall|i: int| 0 <= i < k ==> pair_lt(#[trigger] s[i], x),
        k < s.len() ==> !pair_lt(s[k], x),
    ensures
        insert_pair(x, s) == s.take(k).push(x) + s.skip(k),
    decreases k,
{
    if k == 0 {
        assert(s.take(0).push(x) + s.skip(0) =~= seq![x] + s);
    } else {
        let t = s.drop_first();
        assert forall|i: int| 0 <= i < k - 1 implies pair_lt(#[trigger] t[i], x) by {
            assert(t[i] == s[i + 1]);
        }
        assert(pair_lt(s[0], x));
        lemma_insert_at(x, t, k - 1);
        assert(seq![s[0]] + (t.take(k - 1).push(x) + t.skip(k - 1)) =~= s.take(k).push(x) + s.skip(k));
    }
}

/// How many leading pairs of `s` sort below `x`: where `insert_pair` puts it.
pub open spec fn below_count(x: (Seq<char>, Seq<char>), s: Seq<(Seq<char>, Seq<char>)>) -> int
    decreases s.len(),
{
    if s.len() > 0 && pair_lt(s[0], x) {
        1 + below_count(x, s.drop_first())
    } else {
        0
    }
}

/// A pair sorts no higher than another.
pub open spec fn pair_le(a: (Seq<char>, Seq<char>), b: (Seq<char>, Seq<char>)) -> bool {
    !pair_lt(b, a)
}

proof fn lemma_below_count(x: (Seq<char>, Seq<char>), s: Seq<(Seq<char>, Seq<char>)>)
    ensures
        0 <= below_count(x, s) <= s.len(),
        forall|i: int| 0 <= i < below_count(x, s) ==> pair_lt(#[trigger] s[i], x),
        below_count(x, s) < s.len() ==> !pair_lt(s[below_count(x, s)], x),
    decreases s.len(),
{
    if s.len() > 0 && pair_lt(s[0], x) {
        let t = s.drop_first();
        lemma_below_count(x, t);
        assert forall|i: int| 0 <= i < below_count(x, s) implies pair_lt(#[trigger] s[i], x) by {
            if i > 0 {
                assert(s[i] == t[i - 1]);
            }
        }
        if below_count(x, s) < s.len() {
            assert(s[below_count(x, s)] == t[below_count(x, t)]);
        }
    }
}

proof fn lemma_pair_order(a: (Seq<char>, Seq<char>), b: (Seq<char>, Seq<char>), c: (Seq<char>, Seq<char>))
    ensures
        !pair_lt(a, a),
        pair_lt(a, b) ==> !pair_lt(b, a),
        pair_lt(a, b) && pair_lt(b, c) ==> pair_lt(a, c),
        a != b ==> pair_lt(a, b) || pair_lt(b, a),
{
    lemma_lex_lt_irreflexive(a.0);
    lemma_lex_lt_irreflexive(a.1);
    if lex_lt(a.0, b.0) {
        lemma_lex_lt_asymmetric(a.0, b.0);
    }
    if lex_lt(a.1, b.1) {
        lemma_lex_lt_asymmetric(a.1, b.1);
    }
    if pair_lt(a, b) && pair_lt(b, c) {
        if lex_lt(a.0, b.0) && lex_lt(b.0, c.0) {
            lemma_lex_lt_transitive(a.0, b.0, c.0);
        }
        if lex_lt(a.1, b.1) && lex_lt(b.1, c.1) {
            lemma_lex_lt_transitive(a.1, b.1, c.1);
        }
    }
    if a != b {
        if a.0 != b.0 {
            lemma_lex_lt_total(a.0, b.0);
        } else {
            assert(a.1 != b.1);
            lemma_lex_lt_total(a.1, b.1);
        }
    }
}

proof fn lemma_pair_le_total()
    ensures
        total_ordering(|a: (Seq<char>, Seq<char>), b: (Seq<char>, Seq<char>)| pair_le(a, b)),
{
    let leq = |a: (Seq<char>, Seq<char>), b: (Seq<char>, Seq<char>)| pair_le(a, b);
    assert forall|x: (Seq<char>, Seq<char>)| #[trigger] leq(x, x) by {
        lemma_pair_order(x, x, x);
    }
    assert forall|x: (Seq<char>, Seq<char>), y: (Seq<char>, Seq<char>)| #[trigger] leq(x, y) && #[trigger] leq(y, x) implies x == y by {
        lemma_pair_order(x, y, x);
    }
    assert forall|x: (Seq<char>, Seq<char>), y: (Seq<char>, Seq<char>), z: (Seq<char>, Seq<char>)| #[trigger] leq(x, y) && #[trigger] leq(y, z) implies leq(x, z) by {
        lemma_pair_order(z, x, y);
        lemma_pair_order(x, y, z);
        lemma_pair_order(y, z, x);
    }
    assert forall|x: (Seq<char>, Seq<char>), y: (Seq<char>, Seq<char>)| #[trigger] leq(x, y) || #[trigger] leq(y, x) by {
        lemma_pair_order(x, y, x);
    }
}

/// Inserting keeps a list in order and adds exactly the one pair.
proof fn lemma_insert_pair(x: (Seq<char>, Seq<char>), s: Seq<(Seq<char>, Seq<char>)>)
    requires
        sorted_by(s, |a: (Seq<char>, Seq<char>), b: (Seq<char>, Seq<char>)| pair_le(a, b)),
    ensures
        sorted_by(insert_pair(x, s), |a: (Seq<char>, Seq<char>), b: (Seq<char>, Seq<char>)| pair_le(a, b)),
        insert_pair(x, s).to_multiset() == s.to_multiset().insert(x),
{
    broadcast use vstd::seq_lib::group_to_multiset_ensures;

    let leq = |a: (Seq<char>, Seq<char>), b: (Seq<char>, Seq<char>)| pair_le(a, b);
    let k = below_count(x, s);
    lemma_below_count(x, s);
    lemma_insert_at(x, s, k);
    let r = insert_pair(x, s);
    assert(r =~= s.insert(k, x));
    lemma_pair_le_total();
    assert forall|i: int, j: int| 0 <= i < j < r.len() implies #[trigger] leq(r[i], r[j]) by {
        if j < k {
            assert(r[i] == s[i] && r[j] == s[j]);
        } else if j == k {
            assert(r[i] == s[i] && r[j] == x);
            lemma_pair_order(s[i], x, x);
        } else if i < k {
            assert(r[i] == s[i] && r[j] == s[j - 1]);
        } else if i == k {
            assert(r[i] == x && r[j] == s[j - 1]);
            assert(leq(x, s[k]));
            if j - 1 > k {
                assert(leq(s[k], s[j - 1]));
            }
        } else {
            assert(r[i] == s[i - 1] && r[j] == s[j - 1]);
        }
    }
}

proof fn lemma_sort_pairs(s: Seq<(Seq<char>, Seq<char>)>)
    ensures
        sorted_by(sort_pairs(s), |a: (Seq<char>, Seq<char>), b: (Seq<char>, Seq<char>)| pair_le(a, b)),
        sort_pairs(s).to_multiset() == s.to_multiset(),
    decreases s.len(),
{
    broadcast use vstd::seq_lib::group_to_multiset_ensures;

    if s.len() == 0 {
        assert(sort_pairs(s) =~= s);
    } else {
        lemma_sort_pairs(s.drop_last());
        lemma_insert_pair(s.last(), sort_pairs(s.drop_last()));
        assert(s.drop_last().push(s.last()) =~= s);
    }
}

fn pair_lt_of(a: &Choice, b: &Choice) -> (r: bool)
    ensures
        r == pair_lt((a.flag@, a.value@), (b.flag@, b.value@)),
{
    lex_lt_of(&chars_of(a.flag.as_str()), &chars_of(b.flag.as_str())) || (str_eq(a.flag.as_str(), b.flag.as_str())
        && lex_lt_of(&chars_of(a.value.as_str()), &chars_of(b.value.as_str())))
}

/// Keys paired with empty values, to be put in order like choices.
pub open spec fn keyed(keys: Seq<Seq<char>>) -> Seq<(Seq<char>, Seq<char>)> {
    keys.map_values(|k: Seq<char>| (k, Seq::<char>::empty()))
}

/// Each key once, in ascending order.
pub open spec fn key_order(keys: Seq<Seq<char>>) -> Seq<Seq<char>> {
    choice_entries(keyed(keys)).map_values(|p: (Seq<char>, Seq<char>)| p.0)
}

/// The pairs one per key, at the key's first pair, in ascending order.
fn choice_entries_of(pairs: &Vec<Choice>) -> (sorted: Vec<Choice>)
    ensures
        choice_pairs(sorted@) == choice_entries(choice_pairs(pairs@)),
{
    let ghost all = choice_pairs(pairs@);
    let mut sorted: Vec<Choice> = Vec::new();
    let mut m: usize = 0;
    proof {
        assert(choice_pairs(sorted@) =~= sort_pairs(firsts(all.take(0))));
    }
    while m < pairs.len()
        invariant
            m <= pairs.len(),
            all == choice_pairs(pairs@),
            choice_pairs(sorted@) == sort_pairs(firsts(all.take(m as int))),
        decreases pairs.len() - m,
    {
        let ghost t = all.take(m as int);
        let mut seen = false;
        let mut j: usize = 0;
        while j < m
            invariant
                j <= m < pairs.len(),
                all == choice_pairs(pairs@),
                t == all.take(m as int),
                seen == exists|w: int| 0 <= w < j && #[trigger] t[w].0 == all[m as int].0,
            decreases m - j,
        {
            if str_eq(pairs[j].flag.as_str(), pairs[m].flag.as_str()) {
                proof {
                    assert(t[j as int].0 == all[m as int].0);
                }
                seen = true;
            }
            j += 1;
        }
        proof {
            assert(all.take(m + 1).drop_last() =~= t);
            assert(all.take(m + 1).last() == all[m as int]);
            assert(seen == key_in(t, all[m as int].0));
            if !seen {
                assert(firsts(t).push(all[m as int]).drop_last() =~= firsts(t));
            }
        }
        if !seen {
            let c = pairs[m].clone();
            insert_choice(&mut sorted, c);
        }
        m += 1;
    }
    proof {
        assert(all.take(m as int) =~= all);
    }
    sorted
}

/// Puts one choice into a list kept in ascending order.
fn insert_choice(sorted: &mut Vec<Choice>, c: Choice)
    ensures
        choice_pairs(final(sorted)@) == insert_pair((c.flag@, c.value@), choice_pairs(old(sorted)@)),
{
    let ghost x = (c.flag@, c.value@);
    let ghost s = choice_pairs(sorted@);
    let mut k: usize = 0;
    while k < sorted.len() && pair_lt_of(&sorted[k], &c)
        invariant
            0 <= k <= sorted@.len(),
            s == choice_pairs(sorted@),
            x == (c.flag@, c.value@),
            forall|i: int| 0 <= i < k ==> pair_lt(#[trigger] s[i], x),
        decreases sorted.len() - k,
    {
        k += 1;
    }
    proof {
        lemma_insert_at(x, s, k as int);
    }
    sorted.insert(k, c);
    proof {
        assert(choice_pairs(sorted@) =~= s.take(k as int).push(x) + s.skip(k as int));
    }
}

pub open spec fn strings(v: Seq<String>) -> Seq<Seq<char>> {
    v.map_values(|s: String| s@)
}

pub open spec fn opt_view(o: Option<String>) -> Option<Seq<char>> {
    match o {
        Some(s) => Some(s@),
        None => None,
    }
}

/// Everything about one script: what it is configured to run with, and what
/// its last run did.
#[derive(PartialEq, Eq, Debug)]
pub struct ScriptState {
    pub enabled_args: Vec<String>,
    /// Flag and value, for the flags a script declares with a choice header,
    /// sorted by flag.
    pub chosen: Vec<Choice>,
    pub status: ScriptStatus,
    pub logs: Vec<LogMsg>,
    pub verdicts: Vec<Verdict>,
    pub active_step: Option<String>,
    pub step_history: Vec<String>,
    pub step_started: Option<i64>,
    /// Seconds already attributed to each stage. The stage the run stands on
    /// is not in here yet: its clock is still `step_started`.
    pub step_seconds: Vec<StageTime>,
    /// Trace output, by component, sorted by component.
    pub traces: Vec<TraceBlock>,
    pub in_trace: Option<String>,
    pub start_time: Option<i64>,
    pub end_time: Option<i64>,
}

/// The open stage's seconds banked at `now`.
pub open spec fn banked(s: ScriptState, now: i64) -> Map<Seq<char>, u64> {
    match (s.active_step, s.step_started) {
        (Some(a), Some(t)) => s.seconds_map().insert(
            a@,
            sat_add(held(s.seconds_map(), a@), spent_seconds(t, now)),
        ),
        _ => s.seconds_map(),
    }
}

/// Everything but the stage clock is as it was.
pub open spec fn same_but_clock(a: ScriptState, b: ScriptState) -> bool {
    &&& a.enabled_args == b.enabled_args
    &&& a.chosen == b.chosen
    &&& a.status == b.status
    &&& a.logs == b.logs
    &&& a.verdicts == b.verdicts
    &&& a.traces == b.traces
    &&& a.in_trace == b.in_trace
    &&& a.start_time == b.start_time
    &&& a.end_time == b.end_time
}

/// The stage clock is as it was.
pub open spec fn same_clock(a: ScriptState, b: ScriptState) -> bool {
    &&& a.active_step == b.active_step
    &&& a.step_history == b.step_history
    &&& a.step_started == b.step_started
    &&& a.step_seconds == b.step_seconds
}

impl ScriptState {
    pub open spec fn seconds_map(&self) -> Map<Seq<char>, u64> {
        assoc(stage_pairs(self.step_seconds@))
    }

    pub open spec fn chosen_map(&self) -> Map<Seq<char>, Seq<char>> {
        assoc(choice_pairs(self.chosen@))
    }

    pub open spec fn trace_map(&self) -> Map<Seq<char>, Seq<LogMsg>> {
        assoc(trace_pairs(self.traces@))
    }

    pub open spec fn active_view(&self) -> Option<Seq<char>> {
        opt_view(self.active_step)
    }

    /// A script never run: nothing configured, nothing recorded.
    pub open spec fn is_fresh(&self) -> bool {
        &&& self.enabled_args@.len() == 0
        &&& self.is_fresh_but_flags()
    }

    /// Nothing recorded and nothing chosen; the toggles may be set.
    pub open spec fn is_fresh_but_flags(&self) -> bool {
        &&& self.chosen@.len() == 0
        &&& self.status == ScriptStatus::Idle
        &&& self.logs@.len() == 0
        &&& self.verdicts@.len() == 0
        &&& self.active_step is None
        &&& self.step_history@.len() == 0
        &&& self.step_started is None
        &&& self.step_seconds@.len() == 0
        &&& self.traces@.len() == 0
        &&& self.in_trace is None
        &&& self.start_time is None
        &&& self.end_time is None
    }

    /// The same run, field by field, each list by its contents.
    pub open spec fn same_as(&self, o: ScriptState) -> bool {
        &&& strings(self.enabled_args@) == strings(o.enabled_args@)
        &&& choice_pairs(self.chosen@) == choice_pairs(o.chosen@)
        &&& self.status == o.status
        &&& self.logs@ == o.logs@
        &&& self.verdicts@ == o.verdicts@
        &&& self.active_step == o.active_step
        &&& strings(self.step_history@) == strings(o.step_history@)
        &&& self.step_started == o.step_started
        &&& stage_pairs(self.step_seconds@) == stage_pairs(o.step_seconds@)
        &&& trace_pairs(self.traces@) == trace_pairs(o.traces@)
        &&& self.in_trace == o.in_trace
        &&& self.start_time == o.start_time
        &&& self.end_time == o.end_time
    }

    pub fn has_started(&self) -> (b: bool)
        ensures
            b == self.start_time is Some,
    {
        self.start_time.is_some()
    }
}

impl Default for ScriptState {
    fn default() -> (s: Self)
        ensures
            s.is_fresh(),
    {
        ScriptState {
            enabled_args: Vec::new(),
            chosen: Vec::new(),
            status: ScriptStatus::Idle,
            logs: Vec::new(),
            verdicts: Vec::new(),
            active_step: None,
            step_history: Vec::new(),
            step_started: None,
            step_seconds: Vec::new(),
            traces: Vec::new(),
            in_trace: None,
            start_time: None,
            end_time: None,
        }
    }
}


/// Adds `spent` to what `times` holds for `step`, saturating.
fn add_seconds(times: &mut Vec<StageTime>, step: &String, spent: u64)
    ensures
        assoc(stage_pairs(final(times)@)) == assoc(stage_pairs(old(times)@)).insert(
            step@,
            sat_add(held(assoc(stage_pairs(old(times)@)), step@), spent),
        ),
{
    let ghost before = stage_pairs(times@);
    let keys = stage_keys(times);
    let k = chars_of(step.as_str());
    match find_key(&keys, &k) {
        Some(i) => {
            proof {
                assert forall|j: int| 0 <= j < i implies before[j].0 != before[i as int].0 by {
                    assert(keys@[j]@ == before[j].0);
                }
                lemma_assoc_first(before, i as int);
            }
            let cur = times[i].seconds;
            let total = cur.saturating_add(spent);
            let t = StageTime { step: times[i].step.clone(), seconds: total };
            times.set(i, t);
            proof {
                assert(stage_pairs(times@) =~= before.update(i as int, (before[i as int].0, total)));
                lemma_assoc_update(before, i as int, total);
            }
        },
        None => {
            proof {
                assert forall|j: int| 0 <= j < before.len() implies before[j].0 != step@ by {
                    assert(keys@[j]@ == before[j].0);
                }
                lemma_assoc_absent(before, step@);
            }
            let total = 0u64.saturating_add(spent);
            times.push(StageTime { step: step.clone(), seconds: total });
            proof {
                assert(stage_pairs(times@) =~= before.insert(before.len() as int, (step@, total)));
                lemma_assoc_insert(before, before.len() as int, (step@, total));
            }
        },
    }
}

impl ScriptState {
    /// Banks the open stage's elapsed seconds. Adds, because a chain can come
    /// back to a stage it already visited, and one node shows one number.
    fn close_open_step(&mut self, now: i64)
        ensures
            final(self).seconds_map() == banked(*old(self), now),
            final(self).step_started is None,
            final(self).active_step == old(self).active_step,
            final(self).step_history == old(self).step_history,
            same_but_clock(*final(self), *old(self)),
    {
        let step = self.active_step.clone();
        match (step, self.step_started) {
            (Some(step), Some(started)) => {
                let d: i128 = now as i128 - started as i128;
                let spent: u64 = if d > 0 {
                    (d / 1000) as u64
                } else {
                    0
                };
                proof {
                    assert(spent == spent_seconds(started, now));
                }
                add_seconds(&mut self.step_seconds, &step, spent);
            },
            _ => {},
        }
        self.step_started = None;
    }

    /// A stage was announced: the one before it is closed and this one starts.
    /// A stage is timed until the next stage starts, not until its own
    /// completion marker. The same stage announced again is one visit.
    pub fn begin_step(&mut self, step: String, now: i64)
        ensures
            old(self).active_view() == Some(step@) ==> *final(self) == *old(self),
            old(self).active_view() != Some(step@) ==> {
                &&& final(self).active_step == Some(step)
                &&& final(self).step_started == Some(now)
                &&& final(self).seconds_map() == banked(*old(self), now)
                &&& final(self).step_history == old(self).step_history
                &&& same_but_clock(*final(self), *old(self))
            },
    {
        let same = match &self.active_step {
            Some(a) => str_eq(a.as_str(), step.as_str()),
            None => false,
        };
        if same {
            return;
        }
        self.close_open_step(now);
        self.active_step = Some(step);
        self.step_started = Some(now);
    }

    /// A stage reported itself finished. The cursor does not move and the
    /// clock does not stop.
    pub fn finish_step(&mut self, step: String)
        ensures
            strings(final(self).step_history@) == if strings(old(self).step_history@).contains(step@) {
                strings(old(self).step_history@)
            } else {
                strings(old(self).step_history@).push(step@)
            },
            final(self).active_step == old(self).active_step,
            final(self).step_started == old(self).step_started,
            final(self).step_seconds == old(self).step_seconds,
            same_but_clock(*final(self), *old(self)),
    {
        let ghost h = strings(self.step_history@);
        let mut i: usize = 0;
        while i < self.step_history.len()
            invariant
                i <= self.step_history.len(),
                h == strings(self.step_history@),
                forall|j: int| 0 <= j < i ==> h[j] != step@,
            decreases self.step_history.len() - i,
        {
            if str_eq(self.step_history[i].as_str(), step.as_str()) {
                proof {
                    assert(h[i as int] == step@);
                }
                return;
            }
            i += 1;
        }
        self.step_history.push(step);
        proof {
            assert(strings(self.step_history@) =~= h.push(step@));
        }
    }

    /// The process ended, or was killed: the stage it stood on gets the time
    /// it actually spent there, and the cursor stays.
    pub fn stop_step_clock(&mut self, now: i64)
        ensures
            final(self).seconds_map() == banked(*old(self), now),
            final(self).step_started is None,
            final(self).active_step == old(self).active_step,
            final(self).step_history == old(self).step_history,
            same_but_clock(*final(self), *old(self)),
    {
        self.close_open_step(now);
    }

    /// A new pass over the chain, or a new run: the previous one is forgotten.
    pub fn restart_steps(&mut self)
        ensures
            final(self).active_step is None,
            final(self).step_started is None,
            final(self).step_history@.len() == 0,
            final(self).step_seconds@.len() == 0,
            same_but_clock(*final(self), *old(self)),
    {
        self.active_step = None;
        self.step_started = None;
        self.step_history.clear();
        self.step_seconds.clear();
    }

    /// Seconds attributed to a stage so far.
    pub fn seconds_of(&self, step: &str) -> (r: Option<u64>)
        ensures
            r == (if self.seconds_map().dom().contains(step@) {
                Some(self.seconds_map()[step@])
            } else {
                None
            }),
    {
        let ghost p = stage_pairs(self.step_seconds@);
        let keys = stage_keys(&self.step_seconds);
        let k = chars_of(step);
        match find_key(&keys, &k) {
            Some(i) => {
                proof {
                    assert forall|j: int| 0 <= j < i implies p[j].0 != p[i as int].0 by {
                        assert(keys@[j]@ == p[j].0);
                    }
                    lemma_assoc_first(p, i as int);
                }
                Some(self.step_seconds[i].seconds)
            },
            None => {
                proof {
                    assert forall|j: int| 0 <= j < p.len() implies p[j].0 != step@ by {
                        assert(keys@[j]@ == p[j].0);
                    }
                    lemma_assoc_absent(p, step@);
                }
                None
            },
        }
    }
}

impl ScriptState {
    /// Sets the value chosen for a flag, keeping the choices sorted by flag.
    pub fn set_choice(&mut self, flag: String, value: String)
        ensures
            final(self).chosen_map() == old(self).chosen_map().insert(flag@, value@),
            keys_sorted(choice_pairs(old(self).chosen@)) ==> keys_sorted(choice_pairs(final(self).chosen@)),
            final(self).enabled_args == old(self).enabled_args,
            final(self).status == old(self).status,
            final(self).logs == old(self).logs,
            final(self).verdicts == old(self).verdicts,
            final(self).traces == old(self).traces,
            final(self).in_trace == old(self).in_trace,
            final(self).start_time == old(self).start_time,
            final(self).end_time == old(self).end_time,
            same_clock(*final(self), *old(self)),
    {
        let ghost before = choice_pairs(self.chosen@);
        let keys = choice_keys(&self.chosen);
        let k = chars_of(flag.as_str());
        match find_key(&keys, &k) {
            Some(i) => {
                proof {
                    assert forall|j: int| 0 <= j < i implies before[j].0 != before[i as int].0 by {
                        assert(keys@[j]@ == before[j].0);
                    }
                }
                self.chosen.set(i, Choice { flag, value });
                proof {
                    assert(choice_pairs(self.chosen@) =~= before.update(i as int, (before[i as int].0, value@)));
                    lemma_assoc_update(before, i as int, value@);
                    if keys_sorted(before) {
                        lemma_sorted_update(before, i as int, value@);
                    }
                }
            },
            None => {
                let at = sorted_slot(&keys, &k);
                proof {
                    assert forall|j: int| 0 <= j < before.len() implies before[j].0 != flag@ by {
                        assert(keys@[j]@ == before[j].0);
                    }
                    assert forall|j: int| 0 <= j < at implies !lex_lt(flag@, #[trigger] before[j].0) by {
                        assert(keys@[j]@ == before[j].0);
                    }
                    if at < keys.len() {
                        assert(keys@[at as int]@ == before[at as int].0);
                    }
                }
                let ghost p = (flag@, value@);
                self.chosen.insert(at, Choice { flag, value });
                proof {
                    assert(choice_pairs(self.chosen@) =~= before.insert(at as int, p));
                    lemma_assoc_insert(before, at as int, p);
                    if keys_sorted(before) {
                        lemma_sorted_insert(before, at as int, p);
                    }
                }
            },
        }
    }

    /// The value chosen for a flag.
    pub fn chosen_value(&self, flag: &str) -> (r: Option<String>)
        ensures
            match r {
                Some(v) => self.chosen_map().dom().contains(flag@) && v@ == self.chosen_map()[flag@],
                None => !self.chosen_map().dom().contains(flag@),
            },
    {
        let ghost p = choice_pairs(self.chosen@);
        let keys = choice_keys(&self.chosen);
        let k = chars_of(flag);
        match find_key(&keys, &k) {
            Some(i) => {
                proof {
                    assert forall|j: int| 0 <= j < i implies p[j].0 != p[i as int].0 by {
                        assert(keys@[j]@ == p[j].0);
                    }
                    lemma_assoc_first(p, i as int);
                }
                Some(self.chosen[i].value.clone())
            },
            None => {
                proof {
                    assert forall|j: int| 0 <= j < p.len() implies p[j].0 != flag@ by {
                        assert(keys@[j]@ == p[j].0);
                    }
                    lemma_assoc_absent(p, flag@);
                }
                None
            },
        }
    }

    /// Turn a toggle off when it is on, on (at the end) when it is off.
    pub fn toggle_arg(&mut self, flag: String)
        ensures
            match first_index(strings(old(self).enabled_args@), flag@, 0) {
                Some(i) => strings(final(self).enabled_args@) == strings(old(self).enabled_args@).remove(i),
                None => strings(final(self).enabled_args@) == strings(old(self).enabled_args@).push(flag@),
            },
            *final(self) == (ScriptState { enabled_args: final(self).enabled_args, ..*old(self) }),
    {
        let ghost orig = strings(self.enabled_args@);
        let mut i: usize = 0;
        while i < self.enabled_args.len()
            invariant
                0 <= i <= self.enabled_args@.len(),
                *self == *old(self),
                orig == strings(old(self).enabled_args@),
                first_index(orig, flag@, 0) == first_index(orig, flag@, i as int),
            decreases self.enabled_args.len() - i,
        {
            if str_eq(self.enabled_args[i].as_str(), flag.as_str()) {
                proof {
                    assert(orig[i as int] == flag@);
                }
                self.enabled_args.remove(i);
                proof {
                    assert(strings(self.enabled_args@) =~= orig.remove(i as int));
                }
                return;
            }
            i += 1;
        }
        self.enabled_args.push(flag);
        proof {
            assert(strings(self.enabled_args@) =~= orig.push(flag@));
        }
    }

    /// The whole command line: the toggles, then each chosen flag once, at
    /// the value it is held at, as two argv entries, flag then value, in
    /// ascending order of flag whatever order the choices are held in. A
    /// choice with no value is left off rather than sent empty.
    pub fn command_args(&self) -> (r: Vec<String>)
        ensures
            strings(r@) == strings(self.enabled_args@) + choice_args(choice_entries(choice_pairs(self.chosen@))),
    {
        let mut r: Vec<String> = Vec::new();
        let mut i: usize = 0;
        while i < self.enabled_args.len()
            invariant
                i <= self.enabled_args.len(),
                strings(r@) == strings(self.enabled_args@).take(i as int),
            decreases self.enabled_args.len() - i,
        {
            let ghost r0 = r@;
            let a = self.enabled_args[i].clone();
            r.push(a);
            proof {
                assert(strings(r@) =~= strings(r0).push(a@));
                assert(strings(self.enabled_args@).take(i + 1) =~= strings(self.enabled_args@).take(i as int).push(a@));
            }
            i += 1;
        }
        proof {
            assert(strings(self.enabled_args@).take(i as int) =~= strings(self.enabled_args@));
        }
        let sorted = choice_entries_of(&self.chosen);
        let ghost c = choice_pairs(sorted@);
        let mut j: usize = 0;
        while j < sorted.len()
            invariant
                j <= sorted.len(),
                c == choice_pairs(sorted@),
                strings(r@) == strings(self.enabled_args@) + choice_args(c.take(j as int)),
            decreases sorted.len() - j,
        {
            proof {
                assert(c.take(j + 1).drop_last() =~= c.take(j as int));
            }
            let ghost r0 = r@;
            if !sorted[j].value.as_str().is_empty() {
                let f = sorted[j].flag.clone();
                let v = sorted[j].value.clone();
                r.push(f);
                r.push(v);
                proof {
                    assert(strings(r@) =~= strings(r0) + seq![f@, v@]);
                }
            } else {
                proof {
                    assert(strings(r@) =~= strings(r0) + seq![]);
                }
            }
            proof {
                assert(c.take(j + 1).last() == c[j as int]);
                assert(strings(r@) =~= strings(self.enabled_args@) + choice_args(c.take(j + 1)));
            }
            j += 1;
        }
        proof {
            assert(c.take(j as int) =~= c);
        }
        r
    }

    /// Files a line of trace output under its component, keeping the
    /// components sorted.
    pub fn push_trace(&mut self, component: String, line: LogMsg)
        ensures
            final(self).trace_map() == old(self).trace_map().insert(
                component@,
                (if old(self).trace_map().dom().contains(component@) {
                    old(self).trace_map()[component@]
                } else {
                    seq![]
                }).push(line),
            ),
            keys_sorted(trace_pairs(old(self).traces@)) ==> keys_sorted(trace_pairs(final(self).traces@)),
            final(self).enabled_args == old(self).enabled_args,
            final(self).chosen == old(self).chosen,
            final(self).status == old(self).status,
            final(self).logs == old(self).logs,
            final(self).verdicts == old(self).verdicts,
            final(self).in_trace == old(self).in_trace,
            final(self).start_time == old(self).start_time,
            final(self).end_time == old(self).end_time,
            same_clock(*final(self), *old(self)),
    {
        let ghost before = trace_pairs(self.traces@);
        let keys = trace_keys(&self.traces);
        let k = chars_of(component.as_str());
        match find_key(&keys, &k) {
            Some(i) => {
                proof {
                    assert forall|j: int| 0 <= j < i implies before[j].0 != before[i as int].0 by {
                        assert(keys@[j]@ == before[j].0);
                    }
                    lemma_assoc_first(before, i as int);
                }
                let mut block = self.traces.remove(i);
                let ghost lines = block.lines@.push(line);
                block.lines.push(line);
                self.traces.insert(i, block);
                proof {
                    assert(trace_pairs(self.traces@) =~= before.update(i as int, (before[i as int].0, lines)));
                    lemma_assoc_update(before, i as int, lines);
                    if keys_sorted(before) {
                        lemma_sorted_update(before, i as int, lines);
                    }
                }
            },
            None => {
                let at = sorted_slot(&keys, &k);
                proof {
                    assert forall|j: int| 0 <= j < before.len() implies before[j].0 != component@ by {
                        assert(keys@[j]@ == before[j].0);
                    }
                    lemma_assoc_absent(before, component@);
                    assert forall|j: int| 0 <= j < at implies !lex_lt(component@, #[trigger] before[j].0) by {
                        assert(keys@[j]@ == before[j].0);
                    }
                    if at < keys.len() {
                        assert(keys@[at as int]@ == before[at as int].0);
                    }
                }
                let ghost p = (component@, seq![line]);
                let mut lines: Vec<LogMsg> = Vec::new();
                lines.push(line);
                self.traces.insert(at, TraceBlock { component, lines });
                proof {
                    assert(trace_pairs(self.traces@) =~= before.insert(at as int, p));
                    lemma_assoc_insert(before, at as int, p);
                    if keys_sorted(before) {
                        lemma_sorted_insert(before, at as int, p);
                    }
                }
            },
        }
    }

    /// The lines filed under a component.
    pub fn trace(&self, component: &str) -> (r: Option<&Vec<LogMsg>>)
        ensures
            match r {
                Some(v) => self.trace_map().dom().contains(component@) && v@ == self.trace_map()[component@],
                None => !self.trace_map().dom().contains(component@),
            },
    {
        let ghost p = trace_pairs(self.traces@);
        let keys = trace_keys(&self.traces);
        let k = chars_of(component);
        match find_key(&keys, &k) {
            Some(i) => {
                proof {
                    assert forall|j: int| 0 <= j < i implies p[j].0 != p[i as int].0 by {
                        assert(keys@[j]@ == p[j].0);
                    }
                    lemma_assoc_first(p, i as int);
                }
                Some(&self.traces[i].lines)
            },
            None => {
                proof {
                    assert forall|j: int| 0 <= j < p.len() implies p[j].0 != component@ by {
                        assert(keys@[j]@ == p[j].0);
                    }
                    lemma_assoc_absent(p, component@);
                }
                None
            },
        }
    }

    /// The components with trace output, each once, in ascending order.
    pub fn trace_names(&self) -> (r: Vec<String>)
        ensures
            strings(r@) == key_order(trace_pairs(self.traces@).map_values(|p: (Seq<char>, Seq<LogMsg>)| p.0)),
    {
        let ghost keys = trace_pairs(self.traces@).map_values(|p: (Seq<char>, Seq<LogMsg>)| p.0);
        let mut named: Vec<Choice> = Vec::new();
        let mut i: usize = 0;
        while i < self.traces.len()
            invariant
                i <= self.traces.len(),
                keys == trace_pairs(self.traces@).map_values(|p: (Seq<char>, Seq<LogMsg>)| p.0),
                choice_pairs(named@) == keyed(keys.take(i as int)),
            decreases self.traces.len() - i,
        {
            let ghost n0 = named@;
            let c = Choice { flag: self.traces[i].component.clone(), value: String::new() };
            named.push(c);
            proof {
                assert(choice_pairs(named@) =~= choice_pairs(n0).push((keys[i as int], Seq::<char>::empty())));
                assert(keyed(keys.take(i + 1)) =~= keyed(keys.take(i as int)).push((keys[i as int], Seq::<char>::empty())));
            }
            i += 1;
        }
        proof {
            assert(keys.take(i as int) =~= keys);
        }
        let entries = choice_entries_of(&named);
        let ghost e = choice_pairs(entries@);
        let mut r: Vec<String> = Vec::new();
        let mut j: usize = 0;
        while j < entries.len()
            invariant
                j <= entries.len(),
                e == choice_pairs(entries@),
                e == choice_entries(keyed(keys)),
                strings(r@) == e.take(j as int).map_values(|p: (Seq<char>, Seq<char>)| p.0),
            decreases entries.len() - j,
        {
            let ghost r0 = r@;
            let n = entries[j].flag.clone();
            r.push(n);
            proof {
                assert(strings(r@) =~= strings(r0).push(n@));
                assert(e.take(j + 1).map_values(|p: (Seq<char>, Seq<char>)| p.0) =~= e.take(j as int).map_values(
                    |p: (Seq<char>, Seq<char>)| p.0,
                ).push(n@));
            }
            j += 1;
        }
        proof {
            assert(e.take(j as int) =~= e);
        }
        r
    }
}

fn clone_strings(v: &Vec<String>) -> (r: Vec<String>)
    ensures
        r@ == v@,
{
    let r = v.clone();
    proof {
        assert forall|i: int| 0 <= i < r.len() implies r@[i] == v@[i] by {
            assert(cloned::<String>(v[i], r[i]));
        }
        assert(r@ =~= v@);
    }
    r
}

impl Clone for ScriptState {
    fn clone(&self) -> (r: Self)
        ensures
            r.same_as(*self),
    {
        let chosen = self.chosen.clone();
        let logs = self.logs.clone();
        let verdicts = self.verdicts.clone();
        let step_seconds = self.step_seconds.clone();
        let traces = self.traces.clone();
        proof {
            assert forall|i: int| 0 <= i < chosen.len() implies chosen@[i] == self.chosen@[i] by {
                assert(cloned::<Choice>(self.chosen[i], chosen[i]));
            }
            assert(chosen@ =~= self.chosen@);
            assert forall|i: int| 0 <= i < logs.len() implies logs@[i] == self.logs@[i] by {
                assert(cloned::<LogMsg>(self.logs[i], logs[i]));
            }
            assert(logs@ =~= self.logs@);
            assert forall|i: int| 0 <= i < verdicts.len() implies verdicts@[i] == self.verdicts@[i] by {
                assert(cloned::<Verdict>(self.verdicts[i], verdicts[i]));
            }
            assert(verdicts@ =~= self.verdicts@);
            assert forall|i: int| 0 <= i < step_seconds.len() implies step_seconds@[i] == self.step_seconds@[i] by {
                assert(cloned::<StageTime>(self.step_seconds[i], step_seconds[i]));
            }
            assert(step_seconds@ =~= self.step_seconds@);
            assert forall|i: int| 0 <= i < traces.len() implies #[trigger] trace_pairs(traces@)[i] == trace_pairs(self.traces@)[i] by {
                assert(cloned::<TraceBlock>(self.traces[i], traces[i]));
            }
            assert(trace_pairs(traces@) =~= trace_pairs(self.traces@));
        }
        ScriptState {
            enabled_args: clone_strings(&self.enabled_args),
            chosen,
            status: self.status.clone(),
            logs,
            verdicts,
            active_step: self.active_step.clone(),
            step_history: clone_strings(&self.step_history),
            step_started: self.step_started,
            step_seconds,
            traces,
            in_trace: self.in_trace.clone(),
            start_time: self.start_time,
            end_time: self.end_time,
        }
    }
}

/// How a run's process ended, as the operating system reported it.
#[derive(Clone, Copy, PartialEq, Eq, Debug, Structural)]
pub enum Exit {
    /// It exited, with its code when it had one (a signal leaves none).
    Exited(Option<i32>),
    /// Waiting on it failed.
    WaitFailed,
}

/// The status a finished run is given.
pub open spec fn exit_status(e: Exit) -> ScriptStatus {
    match e {
        Exit::Exited(Some(0)) => ScriptStatus::Succeeded,
        Exit::Exited(Some(c)) => ScriptStatus::Failed(c),
        Exit::Exited(None) => ScriptStatus::Failed(-1i32),
        Exit::WaitFailed => ScriptStatus::AppError(arbitrary()),
    }
}

/// The exit code reported in the log, `-1` when there is none.
pub open spec fn exit_code(e: Exit) -> i32 {
    match e {
        Exit::Exited(Some(c)) => c,
        _ => -1i32,
    }
}

pub open spec fn exited_note(code: i32) -> Seq<char> {
    "Process exited with code "@ + dec_signed(code as int)
}

pub open spec fn unrecognised_note(content: Seq<char>) -> Seq<char> {
    "unrecognised CDW marker, ignored: "@ + trim(content)
}

pub open spec fn launch_note_spec(env: Seq<char>, script: Seq<char>, args: Seq<Seq<char>>) -> Seq<char>
    decreases args.len(),
{
    if args.len() == 0 {
        "$ bash -c \"export CDW_ENV="@ + env + "; source deploy/00-variables.sh && ... "@ + script
    } else {
        launch_note_spec(env, script, args.drop_last()) + " "@ + args.last()
    }
}

/// The first line of a run's log: the command as the shell receives it.
pub fn launch_note(env: Environment, script: &str, args: &Vec<String>) -> (r: String)
    ensures
        r@ == launch_note_spec(env_name(env), script@, strings(args@)) + "\""@,
{
    let mut v = lit("$ bash -c \"export CDW_ENV=");
    push_all(&mut v, &lit(env.as_str()));
    push_all(&mut v, &lit("; source deploy/00-variables.sh && ... "));
    push_all(&mut v, &lit(script));
    let mut i: usize = 0;
    proof {
        assert(strings(args@).take(0) =~= Seq::<Seq<char>>::empty());
    }
    while i < args.len()
        invariant
            i <= args.len(),
            v@ == launch_note_spec(env_name(env), script@, strings(args@).take(i as int)),
        decreases args.len() - i,
    {
        push_all(&mut v, &lit(" "));
        push_all(&mut v, &chars_of(args[i].as_str()));
        proof {
            assert(strings(args@).take(i + 1).drop_last() =~= strings(args@).take(i as int));
        }
        i += 1;
    }
    proof {
        assert(strings(args@).take(i as int) =~= strings(args@));
    }
    push_all(&mut v, &lit("\""));
    string_of(v.as_slice())
}

fn system_line(at: i64, text: Vec<char>) -> (m: LogMsg)
    ensures
        m.timestamp == at,
        m.stream == StreamType::System,
        m.content@ == text@,
{
    LogMsg { timestamp: at, stream: StreamType::System, content: string_of(text.as_slice()) }
}

impl ScriptState {
    /// A run starts: its earlier output, verdicts and stage clock are
    /// forgotten, and the launch line opens the log.
    pub fn start_run(&mut self, launch: LogMsg, now: i64)
        ensures
            final(self).status == ScriptStatus::Running,
            final(self).start_time == Some(now),
            final(self).end_time is None,
            final(self).logs@ == seq![launch],
            final(self).verdicts@.len() == 0,
            final(self).active_step is None,
            final(self).step_started is None,
            final(self).step_history@.len() == 0,
            final(self).step_seconds@.len() == 0,
            final(self).enabled_args == old(self).enabled_args,
            final(self).chosen == old(self).chosen,
            final(self).traces == old(self).traces,
            final(self).in_trace == old(self).in_trace,
    {
        self.status = ScriptStatus::Running;
        self.start_time = Some(now);
        self.end_time = None;
        self.logs.clear();
        self.logs.push(launch);
        self.verdicts.clear();
        self.restart_steps();
    }

    /// One line of the run's output: a marker moves the stepper or records a
    /// verdict, a line that looks like a verdict but reads as none gets a
    /// note, and the line itself is kept.
    pub fn take_line(&mut self, line: LogMsg, catalog: &StepCatalog, syntax: &MarkerSyntax)
        ensures
            final(self).logs@ == old(self).logs@ + (if payload_spec(*syntax, line.content@, MarkerKind::Result) is Some
                && parse_spec(line.content@, *catalog, *syntax) is None {
                seq![LogMsg { timestamp: line.timestamp, stream: StreamType::System, content: final(self).logs@[old(self).logs@.len() as int].content }]
            } else {
                seq![]
            }) + seq![line],
            payload_spec(*syntax, line.content@, MarkerKind::Result) is Some
                && parse_spec(line.content@, *catalog, *syntax) is None
                ==> final(self).logs@[old(self).logs@.len() as int].content@ == unrecognised_note(line.content@),
            match parse_spec(line.content@, *catalog, *syntax) {
                Some(MarkerView::Run(_)) => {
                    &&& final(self).active_step is None
                    &&& final(self).step_started is None
                    &&& final(self).step_history@.len() == 0
                    &&& final(self).step_seconds@.len() == 0
                    &&& final(self).verdicts == old(self).verdicts
                },
                Some(MarkerView::Step(s)) => {
                    &&& old(self).active_view() == Some(s) ==> same_clock(*final(self), *old(self))
                    &&& old(self).active_view() != Some(s) ==> {
                        &&& final(self).active_view() == Some(s)
                        &&& final(self).step_started == Some(line.timestamp)
                        &&& final(self).seconds_map() == banked(*old(self), line.timestamp)
                        &&& final(self).step_history == old(self).step_history
                    }
                    &&& final(self).verdicts == old(self).verdicts
                },
                Some(MarkerView::StepDone(s)) => {
                    &&& strings(final(self).step_history@) == if strings(old(self).step_history@).contains(s) {
                        strings(old(self).step_history@)
                    } else {
                        strings(old(self).step_history@).push(s)
                    }
                    &&& final(self).active_step == old(self).active_step
                    &&& final(self).step_started == old(self).step_started
                    &&& final(self).step_seconds == old(self).step_seconds
                    &&& final(self).verdicts == old(self).verdicts
                },
                Some(MarkerView::Result { ok, label }) => {
                    &&& final(self).verdicts@.len() == old(self).verdicts@.len() + 1
                    &&& final(self).verdicts@.drop_last() == old(self).verdicts@
                    &&& final(self).verdicts@.last().ok == ok
                    &&& final(self).verdicts@.last().label@ == label
                    &&& same_clock(*final(self), *old(self))
                },
                None => {
                    &&& same_clock(*final(self), *old(self))
                    &&& final(self).verdicts == old(self).verdicts
                },
            },
            final(self).enabled_args == old(self).enabled_args,
            final(self).chosen == old(self).chosen,
            final(self).status == old(self).status,
            final(self).traces == old(self).traces,
            final(self).in_trace == old(self).in_trace,
            final(self).start_time == old(self).start_time,
            final(self).end_time == old(self).end_time,
    {
        let ghost logs0 = self.logs@;
        match parse(line.content.as_str(), catalog, syntax) {
            Some(Marker::Run(_)) => {
                self.restart_steps();
            },
            Some(Marker::Step(step)) => {
                self.begin_step(step, line.timestamp);
            },
            Some(Marker::StepDone(step)) => {
                self.finish_step(step);
            },
            Some(Marker::Result { ok, label }) => {
                self.verdicts.push(Verdict { label, ok });
            },
            None => {},
        }
        proof {
            assert(self.logs@ == logs0);
        }
        if is_unrecognised(line.content.as_str(), catalog, syntax) {
            let mut text = lit("unrecognised CDW marker, ignored: ");
            push_all(&mut text, &trim_of(&chars_of(line.content.as_str())));
            self.logs.push(system_line(line.timestamp, text));
        }
        let ghost logs1 = self.logs@;
        self.logs.push(line);
        proof {
            assert(self.logs@ == logs1.push(line));
        }
    }

    /// The process ended. The stage it stood on is banked, the exit is
    /// logged, and the run's history entry is returned.
    pub fn finish(&mut self, script: &str, env: Environment, exit: Exit, now: i64) -> (h: HistoryEntry)
        ensures
            final(self).status == h.status,
            exit is WaitFailed ==> (h.status matches ScriptStatus::AppError(e) && e@ == "Failed to wait on process"@),
            !(exit is WaitFailed) ==> h.status == exit_status(exit),
            final(self).end_time == Some(now),
            final(self).seconds_map() == banked(*old(self), now),
            final(self).step_started is None,
            final(self).active_step == old(self).active_step,
            final(self).step_history == old(self).step_history,
            final(self).logs@.len() == old(self).logs@.len() + 1,
            final(self).logs@.drop_last() == old(self).logs@,
            final(self).logs@.last().timestamp == now,
            final(self).logs@.last().stream == StreamType::System,
            final(self).logs@.last().content@ == exited_note(exit_code(exit)),
            h.script_name@ == script@,
            h.environment == env,
            h.start_time == (match old(self).start_time {
                Some(t) => t,
                None => now,
            }),
            h.end_time == now,
            final(self).enabled_args == old(self).enabled_args,
            final(self).chosen == old(self).chosen,
            final(self).verdicts == old(self).verdicts,
            final(self).traces == old(self).traces,
            final(self).in_trace == old(self).in_trace,
            final(self).start_time == old(self).start_time,
    {
        let (status, code): (ScriptStatus, i32) = match exit {
            Exit::Exited(Some(c)) => if c == 0 {
                (ScriptStatus::Succeeded, 0)
            } else {
                (ScriptStatus::Failed(c), c)
            },
            Exit::Exited(None) => (ScriptStatus::Failed(-1), -1),
            Exit::WaitFailed => (
                ScriptStatus::AppError(string_of(lit("Failed to wait on process").as_slice())),
                -1,
            ),
        };
        self.end_time = Some(now);
        self.stop_step_clock(now);
        self.status = status.clone();
        let mut text = lit("Process exited with code ");
        push_all(&mut text, &dec_signed_of(code as i64));
        self.logs.push(system_line(now, text));
        let started = match self.start_time {
            Some(t) => t,
            None => now,
        };
        HistoryEntry {
            script_name: string_of(chars_of(script).as_slice()),
            environment: env,
            start_time: started,
            end_time: now,
            status,
        }
    }

    /// The user stopped the run.
    pub fn cancel(&mut self, now: i64)
        ensures
            final(self).status == ScriptStatus::Cancelled,
            final(self).end_time == Some(now),
            final(self).seconds_map() == banked(*old(self), now),
            final(self).step_started is None,
            final(self).active_step == old(self).active_step,
            final(self).step_history == old(self).step_history,
            final(self).logs@.len() == old(self).logs@.len() + 1,
            final(self).logs@.drop_last() == old(self).logs@,
            final(self).logs@.last().timestamp == now,
            final(self).logs@.last().stream == StreamType::System,
            final(self).logs@.last().content@ == "Process killed by user."@,
            final(self).enabled_args == old(self).enabled_args,
            final(self).chosen == old(self).chosen,
            final(self).verdicts == old(self).verdicts,
            final(self).traces == old(self).traces,
            final(self).in_trace == old(self).in_trace,
            final(self).start_time == old(self).start_time,
    {
        self.logs.push(system_line(now, lit("Process killed by user.")));
        self.status = ScriptStatus::Cancelled;
        self.end_time = Some(now);
        self.stop_step_clock(now);
    }

    /// The process could not be started.
    pub fn spawn_failed(&mut self, error: &str, now: i64)
        ensures
            final(self).status matches ScriptStatus::AppError(e) && e@ == error@,
            final(self).logs@.len() == old(self).logs@.len() + 1,
            final(self).logs@.drop_last() == old(self).logs@,
            final(self).logs@.last().timestamp == now,
            final(self).logs@.last().stream == StreamType::System,
            final(self).logs@.last().content@ == "Failed to spawn process: "@ + error@,
            final(self).enabled_args == old(self).enabled_args,
            final(self).chosen == old(self).chosen,
            final(self).verdicts == old(self).verdicts,
            final(self).traces == old(self).traces,
            final(self).in_trace == old(self).in_trace,
            final(self).start_time == old(self).start_time,
            final(self).end_time == old(self).end_time,
            same_clock(*final(self), *old(self)),
    {
        let mut text = lit("Failed to spawn process: ");
        push_all(&mut text, &chars_of(error));
        self.logs.push(system_line(now, text));
        self.status = ScriptStatus::AppError(string_of(chars_of(error).as_slice()));
    }
}

/// One script's state, under its repository-relative path.
#[derive(PartialEq, Eq, Debug)]
pub struct ScriptEntry {
    pub path: String,
    pub state: ScriptState,
}

/// The index of the first entry for a path.
pub open spec fn script_index(s: Seq<ScriptEntry>, path: Seq<char>) -> Option<int>
    decreases s.len(),
{
    if s.len() == 0 {
        None
    } else if s.last().path@ == path && script_index(s.drop_last(), path) is None {
        Some(s.len() - 1)
    } else {
        script_index(s.drop_last(), path)
    }
}

proof fn lemma_script_index_in_range(s: Seq<ScriptEntry>, path: Seq<char>)
    ensures
        script_index(s, path) matches Some(i) ==> 0 <= i < s.len(),
    decreases s.len(),
{
    if s.len() > 0 {
        lemma_script_index_in_range(s.drop_last(), path);
    }
}

proof fn lemma_script_index(s: Seq<ScriptEntry>, path: Seq<char>, i: int)
    requires
        0 <= i < s.len(),
        s[i].path@ == path,
        forall|j: int| 0 <= j < i ==> s[j].path@ != path,
    ensures
        script_index(s, path) == Some(i),
    decreases s.len(),
{
    if i < s.len() - 1 {
        lemma_script_index(s.drop_last(), path, i);
    } else {
        lemma_script_absent(s.drop_last(), path);
    }
}

proof fn lemma_script_absent(s: Seq<ScriptEntry>, path: Seq<char>)
    requires
        forall|j: int| 0 <= j < s.len() ==> s[j].path@ != path,
    ensures
        script_index(s, path) is None,
    decreases s.len(),
{
    if s.len() > 0 {
        lemma_script_absent(s.drop_last(), path);
    }
}

fn find_script(s: &Vec<ScriptEntry>, path: &str) -> (r: Option<usize>)
    ensures
        match r {
            Some(i) => script_index(s@, path@) == Some(i as int) && i < s.len(),
            None => script_index(s@, path@) is None,
        },
{
    let mut i: usize = 0;
    while i < s.len()
        invariant
            i <= s.len(),
            forall|j: int| 0 <= j < i ==> s@[j].path@ != path@,
        decreases s.len() - i,
    {
        if str_eq(s[i].path.as_str(), path) {
            proof {
                lemma_script_index(s@, path@, i as int);
            }
            return Some(i);
        }
        i += 1;
    }
    proof {
        lemma_script_absent(s@, path@);
    }
    None
}

/// The whole app: every script's state, the selection, and what is running.
#[derive(PartialEq, Eq, Debug)]
pub struct AppState {
    pub selected_env: Option<Environment>,
    pub selected_script: Option<String>,
    pub selected_meta: Option<ScriptMeta>,
    pub scripts: Vec<ScriptEntry>,
    pub running_script: Option<String>,
    pub catalog: StepCatalog,
    pub syntax: MarkerSyntax,
    pub history: Vec<HistoryEntry>,
}

/// How often the Azure sign-in reminder comes back: every 12 hours.
pub const AUTH_REMINDER_MS: i64 = 43_200_000;

/// The sign-in reminder is due at `now`: it has never been shown, or it was
/// last shown 12 hours or more before.
pub open spec fn auth_reminder_due_spec(last_shown: Option<i64>, now: i64) -> bool {
    match last_shown {
        Some(t) => now - t >= AUTH_REMINDER_MS,
        None => true,
    }
}

pub fn auth_reminder_due(last_shown: Option<i64>, now: i64) -> (b: bool)
    ensures
        b == auth_reminder_due_spec(last_shown, now),
{
    match last_shown {
        Some(t) => now as i128 - t as i128 >= AUTH_REMINDER_MS as i128,
        None => true,
    }
}

/// The word a run's status is shown as.
pub open spec fn status_label_spec(s: ScriptStatus) -> Seq<char> {
    match s {
        ScriptStatus::Idle => "Idle"@,
        ScriptStatus::Running => "Running"@,
        ScriptStatus::Succeeded => "Succeeded"@,
        ScriptStatus::Failed(_) => "Failed"@,
        ScriptStatus::Cancelled => "Cancelled"@,
        ScriptStatus::AppError(_) => "App Error"@,
    }
}

/// The word a run's status is shown as.
pub fn status_label(s: &ScriptStatus) -> (r: &'static str)
    ensures
        r@ == status_label_spec(*s),
{
    match s {
        ScriptStatus::Idle => "Idle",
        ScriptStatus::Running => "Running",
        ScriptStatus::Succeeded => "Succeeded",
        ScriptStatus::Failed(_) => "Failed",
        ScriptStatus::Cancelled => "Cancelled",
        ScriptStatus::AppError(_) => "App Error",
    }
}

/// A run that ended on its own terms is offered again as a rerun.
pub open spec fn is_rerun(s: ScriptStatus) -> bool {
    s is Succeeded || s is Failed || s is Cancelled
}

/// The text on the run button: a finished run is rerun, anything else run.
pub fn run_button_text(s: &ScriptStatus) -> (r: &'static str)
    ensures
        r@ == (if is_rerun(*s) { "Rerun Script"@ } else { "Run Script"@ }),
{
    match s {
        ScriptStatus::Succeeded | ScriptStatus::Failed(_) | ScriptStatus::Cancelled => "Rerun Script",
        _ => "Run Script",
    }
}

/// Another script than the selected one is mid-run.
pub open spec fn busy_with_spec(running: Option<String>, selected: Option<String>) -> Option<Seq<char>> {
    match running {
        Some(p) => if selected matches Some(q) && q@ == p@ {
            None
        } else {
            Some(p@)
        },
        None => None,
    }
}

impl AppState {
    /// Nothing selected, nothing run, with the given stage catalogue and markers.
    pub fn new(catalog: StepCatalog, syntax: MarkerSyntax) -> (s: Self)
        ensures
            s.selected_env is None,
            s.selected_script is None,
            s.selected_meta is None,
            s.scripts@.len() == 0,
            s.running_script is None,
            s.catalog == catalog,
            s.syntax == syntax,
            s.history@.len() == 0,
    {
        AppState {
            selected_env: None,
            selected_script: None,
            selected_meta: None,
            scripts: Vec::new(),
            running_script: None,
            catalog,
            syntax,
            history: Vec::new(),
        }
    }

    /// The script that is mid-run when it is not the selected one: while it
    /// runs, no other script can be started.
    pub fn busy_with(&self) -> (r: Option<&String>)
        ensures
            opt_view(match r { Some(p) => Some(*p), None => None }) == busy_with_spec(self.running_script, self.selected_script),
    {
        match &self.running_script {
            Some(p) => match &self.selected_script {
                Some(q) => if str_eq(q.as_str(), p.as_str()) {
                    None
                } else {
                    Some(p)
                },
                None => Some(p),
            },
            None => None,
        }
    }

    /// The run button is live: an environment is chosen and no other script
    /// is mid-run.
    pub fn can_run(&self) -> (b: bool)
        ensures
            b == (self.selected_env is Some && busy_with_spec(self.running_script, self.selected_script) is None),
    {
        self.selected_env.is_some() && self.busy_with().is_none()
    }

    /// Select a script. Its state is kept when it has one; a script touched for
    /// the first time starts fresh with its default-on flags as its toggles.
    pub fn select_script(&mut self, meta: ScriptMeta)
        ensures
            match script_index(old(self).scripts@, meta.path@) {
                Some(i) => final(self).scripts@ == old(self).scripts@,
                None => {
                    &&& final(self).scripts@.len() == old(self).scripts@.len() + 1
                    &&& final(self).scripts@.drop_last() == old(self).scripts@
                    &&& final(self).scripts@.last().path@ == meta.path@
                    &&& final(self).scripts@.last().state.is_fresh_but_flags()
                    &&& strings(final(self).scripts@.last().state.enabled_args@) == default_flags(meta.args@)
                },
            },
            final(self).selected_script matches Some(p) && p@ == meta.path@,
            final(self).selected_meta == Some(meta),
            final(self).selected_env == old(self).selected_env,
            final(self).running_script == old(self).running_script,
            final(self).catalog == old(self).catalog,
            final(self).syntax == old(self).syntax,
            final(self).history == old(self).history,
    {
        let fresh = self.script(meta.path.as_str()).is_none();
        let defaults = default_args(&meta);
        let ghost before = self.scripts@;
        let e = self.entry(meta.path.as_str());
        if fresh {
            e.enabled_args = defaults;
        }
        proof {
            if !fresh {
                lemma_script_index_in_range(before, meta.path@);
                let i = script_index(before, meta.path@)->0;
                assert(self.scripts@[i] == before[i]);
                assert(self.scripts@ =~= before);
            }
        }
        self.selected_script = Some(meta.path.clone());
        self.selected_meta = Some(meta);
    }

    /// One script's state, when it has one.
    pub fn script(&self, path: &str) -> (r: Option<&ScriptState>)
        ensures
            match script_index(self.scripts@, path@) {
                Some(i) => r == Some(&self.scripts@[i].state),
                None => r is None,
            },
    {
        match find_script(&self.scripts, path) {
            Some(i) => Some(&self.scripts[i].state),
            None => None,
        }
    }

    /// The selected script's state, or a fresh one for a script never run.
    pub fn current(&self) -> (r: ScriptState)
        ensures
            match self.selected_script {
                Some(p) => match script_index(self.scripts@, p@) {
                    Some(i) => r.same_as(self.scripts@[i].state),
                    None => r.is_fresh(),
                },
                None => r.is_fresh(),
            },
    {
        match &self.selected_script {
            Some(p) => match find_script(&self.scripts, p.as_str()) {
                Some(i) => self.scripts[i].state.clone(),
                None => ScriptState::default(),
            },
            None => ScriptState::default(),
        }
    }

    /// Mutable access to one script's state, created fresh on first touch.
    pub fn entry(&mut self, path: &str) -> (r: &mut ScriptState)
        ensures
            match script_index(old(self).scripts@, path@) {
                Some(i) => {
                    &&& *r == old(self).scripts@[i].state
                    &&& final(self).scripts@ == old(self).scripts@.update(
                        i,
                        ScriptEntry { path: old(self).scripts@[i].path, state: *final(r) },
                    )
                },
                None => {
                    &&& r.is_fresh()
                    &&& final(self).scripts@.len() == old(self).scripts@.len() + 1
                    &&& final(self).scripts@.drop_last() == old(self).scripts@
                    &&& final(self).scripts@.last().path@ == path@
                    &&& final(self).scripts@.last().state == *final(r)
                },
            },
            final(self).selected_env == old(self).selected_env,
            final(self).selected_script == old(self).selected_script,
            final(self).selected_meta == old(self).selected_meta,
            final(self).running_script == old(self).running_script,
            final(self).catalog == old(self).catalog,
            final(self).syntax == old(self).syntax,
            final(self).history == old(self).history,
    {
        let i = match find_script(&self.scripts, path) {
            Some(i) => i,
            None => {
                self.scripts.push(ScriptEntry { path: path.to_owned(), state: ScriptState::default() });
                self.scripts.len() - 1
            },
        };
        &mut self.scripts[i].state
    }
}

proof fn lemma_assoc_dom<V>(s: Seq<(Seq<char>, V)>, k: Seq<char>)
    requires
        assoc(s).dom().contains(k),
    ensures
        exists|j: int| 0 <= j < s.len() && #[trigger] s[j].0 == k,
    decreases s.len(),
{
    if s[0].0 != k {
        lemma_assoc_dom(s.drop_first(), k);
        let j = choose|j: int| 0 <= j < s.drop_first().len() && #[trigger] s.drop_first()[j].0 == k;
        assert(s[j + 1].0 == k);
    } else {
        assert(s[0].0 == k);
    }
}

/// The command line depends on the value each flag is held at, not on the
/// order the choices are held in: two states holding the same flags at the
/// same values, with the same toggles, pass the same arguments, each flag
/// once.
pub proof fn law_choice_order_does_not_matter(a: ScriptState, b: ScriptState)
    requires
        a.chosen_map() == b.chosen_map(),
        strings(a.enabled_args@) == strings(b.enabled_args@),
    ensures
        strings(a.enabled_args@) + choice_args(choice_entries(choice_pairs(a.chosen@)))
            == strings(b.enabled_args@) + choice_args(choice_entries(choice_pairs(b.chosen@))),
{
    broadcast use vstd::seq_lib::group_to_multiset_ensures;

    let pa = choice_pairs(a.chosen@);
    let pb = choice_pairs(b.chosen@);
    let ua = firsts(pa);
    let ub = firsts(pb);
    lemma_firsts(pa);
    lemma_firsts(pb);
    assert forall|p: (Seq<char>, Seq<char>)| #[trigger] ua.contains(p) <==> ub.contains(p) by {
        lemma_first_entry_is_held(pa, p);
        lemma_first_entry_is_held(pb, p);
    }
    ua.lemma_multiset_has_no_duplicates();
    ub.lemma_multiset_has_no_duplicates();
    assert(ua.to_multiset() =~= ub.to_multiset()) by {
        assert forall|p: (Seq<char>, Seq<char>)| #[trigger] ua.to_multiset().count(p) == ub.to_multiset().count(p) by {
            if ua.contains(p) {
                assert(ua.to_multiset().contains(p));
                assert(ub.to_multiset().contains(p));
            }
        }
    }
    lemma_sort_pairs(ua);
    lemma_sort_pairs(ub);
    lemma_pair_le_total();
    vstd::seq_lib::lemma_sorted_unique(
        sort_pairs(ua),
        sort_pairs(ub),
        |x: (Seq<char>, Seq<char>), y: (Seq<char>, Seq<char>)| pair_le(x, y),
    );
}

/// Banking the open stage only ever adds: no stage loses time it was
/// already given, and the one banked gains what was spent on it.
pub proof fn law_banking_only_adds(s: ScriptState, now: i64, k: Seq<char>)
    ensures
        held(banked(s, now), k) >= held(s.seconds_map(), k),
        s.active_step is Some && s.step_started is Some && s.active_step->0@ == k
            ==> held(banked(s, now), k) == sat_add(held(s.seconds_map(), k), spent_seconds(s.step_started->0, now)),
{
}
} // verus!
