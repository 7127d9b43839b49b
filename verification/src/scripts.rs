//! What a script declares about itself in its header comments.

use vstd::prelude::*;

use vstd::seq_lib::{to_multiset_build, to_multiset_insert};
use crate::marker_syntax::{payload_spec, MarkerKind, MarkerSyntax};
use crate::steps::{resolve_spec, StepCatalog, StepDef};
use crate::text::{
    str_eq,
    after_last_slash, after_last_slash_start, chars_of, contains, contains_of, ends_with, ends_with_of,
    eq_ignore_ascii_case, eq_ignore_ascii_case_of, eq_of, lines, lines_of, lit, rsplit_once, rsplit_once_of, slice,
    split, split_of, split_once, split_once_of, starts_with, strip_start, strip_start_of, string_of, trim, trim_of,
    to_lowercase, unicode_lower, views, lex_lt, lex_lt_of, lemma_lex_lt_transitive, lemma_lex_lt_asymmetric, Delim,
};

verus! {

/// A flag a script accepts, offered as a toggle.
#[derive(Clone, PartialEq, Eq, Debug)]
pub struct ScriptArg {
    pub flag: String,
    pub help: String,
    /// Pre-selected when the script is chosen.
    pub default_on: bool,
}

/// A flag that takes a value, offered as a list to choose from.
#[derive(Clone, PartialEq, Eq, Debug)]
pub struct ScriptChoice {
    pub flag: String,
    /// Repo-relative, as declared; empty for an inline list.
    pub source: String,
    /// The column read out of `source`.
    pub column: String,
    pub help: String,
    /// What the column (or the inline list) holds. Empty is a state: the
    /// file may not have been fetched yet.
    pub values: Vec<String>,
}

/// What a script says about the pipeline stages it can reach.
#[derive(Clone, PartialEq, Eq, Debug)]
pub enum DeclaredSteps {
    /// No declaration.
    Unknown,
    /// `steps=none`: explicitly touches no pipeline stage.
    NoSteps,
    /// The stages named, resolved.
    Only(Vec<String>),
}

/// One script, as the app understands it.
#[derive(Clone, PartialEq, Eq, Debug)]
pub struct ScriptMeta {
    /// Repo-relative, e.g. `tools/flows/x.py`.
    pub path: String,
    /// Sidebar group.
    pub category: String,
    pub declared_steps: DeclaredSteps,
    pub args: Vec<ScriptArg>,
    pub choices: Vec<ScriptChoice>,
    /// A one-line summary, taken from the header when given.
    pub summary: String,
    /// Not offered for running.
    pub library: bool,
}

pub struct ArgView {
    pub flag: Seq<char>,
    pub help: Seq<char>,
    pub default_on: bool,
}

pub struct ChoiceView {
    pub flag: Seq<char>,
    pub source: Seq<char>,
    pub column: Seq<char>,
    pub help: Seq<char>,
    pub values: Seq<Seq<char>>,
}

pub enum DeclaredView {
    Unknown,
    NoSteps,
    Only(Seq<Seq<char>>),
}

pub struct MetaView {
    pub path: Seq<char>,
    pub category: Seq<char>,
    pub declared: DeclaredView,
    pub args: Seq<ArgView>,
    pub choices: Seq<ChoiceView>,
    pub summary: Seq<char>,
    pub library: bool,
}

pub open spec fn strings_view(v: Seq<String>) -> Seq<Seq<char>> {
    v.map_values(|s: String| s@)
}

impl View for ScriptArg {
    type V = ArgView;

    open spec fn view(&self) -> ArgView {
        ArgView { flag: self.flag@, help: self.help@, default_on: self.default_on }
    }
}

impl View for ScriptChoice {
    type V = ChoiceView;

    open spec fn view(&self) -> ChoiceView {
        ChoiceView {
            flag: self.flag@,
            source: self.source@,
            column: self.column@,
            help: self.help@,
            values: strings_view(self.values@),
        }
    }
}

impl View for DeclaredSteps {
    type V = DeclaredView;

    open spec fn view(&self) -> DeclaredView {
        match self {
            DeclaredSteps::Unknown => DeclaredView::Unknown,
            DeclaredSteps::NoSteps => DeclaredView::NoSteps,
            DeclaredSteps::Only(v) => DeclaredView::Only(strings_view(v@)),
        }
    }
}

impl View for ScriptMeta {
    type V = MetaView;

    open spec fn view(&self) -> MetaView {
        MetaView {
            path: self.path@,
            category: self.category@,
            declared: self.declared_steps@,
            args: self.args@.map_values(|a: ScriptArg| a@),
            choices: self.choices@.map_values(|c: ScriptChoice| c@),
            summary: self.summary@,
            library: self.library,
        }
    }
}

/// How many lines from the top are scanned for the header.
pub const HEADER_LINES: usize = 60;

/// A file every script author knows is a library, never a runnable script.
pub open spec fn known_library(file: Seq<char>) -> bool {
    file == "cdw_client.py"@
}

/// `key=value`, the key trimmed and lowercased, the value trimmed.
pub open spec fn pair_of(piece: Seq<char>) -> Option<(Seq<char>, Seq<char>)> {
    match split_once(piece, Delim::One('=')) {
        Some((k, v)) => Some((unicode_lower(trim(k)), trim(v))),
        None => None,
    }
}

pub open spec fn pairs_of_pieces(ps: Seq<Seq<char>>) -> Seq<(Seq<char>, Seq<char>)>
    decreases ps.len(),
{
    if ps.len() == 0 {
        Seq::empty()
    } else {
        match pair_of(ps.last()) {
            Some(p) => pairs_of_pieces(ps.drop_last()).push(p),
            None => pairs_of_pieces(ps.drop_last()),
        }
    }
}

/// The `key=value` pairs of a `;`-separated header, in order; pieces
/// without `=` are skipped.
pub open spec fn pairs_spec(payload: Seq<char>) -> Seq<(Seq<char>, Seq<char>)> {
    pairs_of_pieces(split(payload, Delim::One(';')))
}

pub open spec fn pairs_view(v: Seq<(String, String)>) -> Seq<(Seq<char>, Seq<char>)> {
    v.map_values(|p: (String, String)| (p.0@, p.1@))
}

pub fn parse_pairs(payload: &str) -> (r: Vec<(String, String)>)
    ensures
        pairs_view(r@) == pairs_spec(payload@),
{
    let pieces = split_of(&chars_of(payload), Delim::One(';'));
    let ghost ps = split(payload@, Delim::One(';'));
    let mut r: Vec<(String, String)> = Vec::new();
    let mut i: usize = 0;
    while i < pieces.len()
        invariant
            0 <= i <= pieces@.len(),
            views(pieces@) == ps,
            ps.len() == pieces@.len(),
            pairs_view(r@) == pairs_of_pieces(ps.take(i as int)),
        decreases pieces.len() - i,
    {
        proof {
            assert(ps.take(i + 1).drop_last() =~= ps.take(i as int));
            assert(ps.take(i + 1).last() == pieces@[i as int]@);
        }
        match split_once_of(&pieces[i], Delim::One('=')) {
            Some((k, v)) => {
                let key = to_lowercase(string_of(trim_of(&k).as_slice()).as_str());
                let value = string_of(trim_of(&v).as_slice());
                let ghost before = r@;
                r.push((key, value));
                proof {
                    assert(pairs_view(r@) =~= pairs_view(before).push((key@, value@)));
                }
            },
            None => {},
        }
        i += 1;
    }
    proof {
        assert(ps.take(ps.len() as int) =~= ps);
    }
    r
}

/// The step ids the comma-separated names resolve to, unknown names dropped.
pub open spec fn resolved_names(steps: Seq<StepDef>, parts: Seq<Seq<char>>) -> Seq<Seq<char>>
    decreases parts.len(),
{
    if parts.len() == 0 {
        Seq::empty()
    } else {
        match resolve_spec(steps, trim(parts.last())) {
            Some(id) => resolved_names(steps, parts.drop_last()).push(id),
            None => resolved_names(steps, parts.drop_last()),
        }
    }
}

/// A `steps=` value: `none` claims no stage; otherwise the names that
/// resolve, and a list of nothing but typos is no claim at all.
pub open spec fn declared_from(steps: Seq<StepDef>, value: Seq<char>) -> DeclaredView {
    if eq_ignore_ascii_case(value, "none"@) {
        DeclaredView::NoSteps
    } else if resolved_names(steps, split(value, Delim::One(','))).len() == 0 {
        DeclaredView::Unknown
    } else {
        DeclaredView::Only(resolved_names(steps, split(value, Delim::One(','))))
    }
}

pub open spec fn apply_pair(m: MetaView, key: Seq<char>, value: Seq<char>, steps: Seq<StepDef>) -> MetaView {
    if key == "category"@ {
        MetaView { category: value, ..m }
    } else if key == "summary"@ {
        MetaView { summary: value, ..m }
    } else if key == "library"@ {
        MetaView { library: eq_ignore_ascii_case(value, "true"@), ..m }
    } else if key == "steps"@ {
        MetaView { declared: declared_from(steps, value), ..m }
    } else {
        m
    }
}

pub open spec fn apply_pairs(m: MetaView, ps: Seq<(Seq<char>, Seq<char>)>, steps: Seq<StepDef>) -> MetaView
    decreases ps.len(),
{
    if ps.len() == 0 {
        m
    } else {
        apply_pair(apply_pairs(m, ps.drop_last(), steps), ps.last().0, ps.last().1, steps)
    }
}

/// `--flag  help text`: a flag must start with `-`.
pub open spec fn arg_spec(payload: Seq<char>) -> Option<ArgView> {
    let p = trim(payload);
    let (flag, help) = match split_once(p, Delim::Space) {
        Some(x) => x,
        None => (p, Seq::empty()),
    };
    if starts_with(flag, "-"@) {
        Some(ArgView { flag, help: trim(help), default_on: false })
    } else {
        None
    }
}

/// The trimmed, non-empty entries of an inline `a|b` list.
pub open spec fn inline_values(pieces: Seq<Seq<char>>) -> Seq<Seq<char>>
    decreases pieces.len(),
{
    if pieces.len() == 0 {
        Seq::empty()
    } else if trim(pieces.last()).len() == 0 {
        inline_values(pieces.drop_last())
    } else {
        inline_values(pieces.drop_last()).push(trim(pieces.last()))
    }
}

/// One choice header: `--case @tools/m.csv:column  help`, or an inline
/// list of at least two values, `--indicator RO|RW  help`. A file-sourced
/// choice comes back with no values; `fill_choice_values` reads them.
pub open spec fn choice_spec(payload: Seq<char>) -> Option<ChoiceView> {
    let p = trim(payload);
    match split_once(p, Delim::Space) {
        None => None,
        Some((flag, rest0)) => {
            let rest = trim(rest0);
            if !starts_with(flag, "-"@) {
                None
            } else if !starts_with(rest, "@"@) {
                let (list, help) = match split_once(rest, Delim::Space) {
                    Some(x) => x,
                    None => (rest, Seq::empty()),
                };
                let values = inline_values(split(list, Delim::One('|')));
                if values.len() < 2 {
                    None
                } else {
                    Some(ChoiceView { flag, source: Seq::empty(), column: Seq::empty(), help: trim(help), values })
                }
            } else {
                match rsplit_once(rest.skip(1), Delim::One(':')) {
                    None => None,
                    Some((source, tail)) => {
                        let (column, help) = match split_once(tail, Delim::Space) {
                            Some(x) => x,
                            None => (tail, Seq::empty()),
                        };
                        if source.len() == 0 || column.len() == 0 {
                            None
                        } else {
                            Some(ChoiceView { flag, source, column, help: trim(help), values: Seq::empty() })
                        }
                    },
                }
            }
        },
    }
}

/// One header line applied: a script header's pairs, else an argument,
/// else a choice.
pub open spec fn apply_line(m: MetaView, line: Seq<char>, steps: Seq<StepDef>, syntax: MarkerSyntax) -> MetaView {
    if payload_spec(syntax, line, MarkerKind::ScriptHeader) is Some {
        apply_pairs(m, pairs_spec(payload_spec(syntax, line, MarkerKind::ScriptHeader)->0), steps)
    } else if payload_spec(syntax, line, MarkerKind::ArgHeader) is Some {
        match arg_spec(payload_spec(syntax, line, MarkerKind::ArgHeader)->0) {
            Some(a) => MetaView { args: m.args.push(a), ..m },
            None => m,
        }
    } else if payload_spec(syntax, line, MarkerKind::ChoiceHeader) is Some {
        match choice_spec(payload_spec(syntax, line, MarkerKind::ChoiceHeader)->0) {
            Some(c) => MetaView { choices: m.choices.push(c), ..m },
            None => m,
        }
    } else {
        m
    }
}

pub open spec fn apply_lines(m: MetaView, ls: Seq<Seq<char>>, steps: Seq<StepDef>, syntax: MarkerSyntax) -> MetaView
    decreases ls.len(),
{
    if ls.len() == 0 {
        m
    } else {
        apply_line(apply_lines(m, ls.drop_last(), steps, syntax), ls.last(), steps, syntax)
    }
}

/// A script before its header is read: category `Other`, nothing claimed,
/// a library only if its file name is a known library.
pub open spec fn initial_meta(path: Seq<char>) -> MetaView {
    MetaView {
        path,
        category: "Other"@,
        declared: DeclaredView::Unknown,
        args: Seq::empty(),
        choices: Seq::empty(),
        summary: Seq::empty(),
        library: known_library(after_last_slash(path)),
    }
}

pub open spec fn header_window(ls: Seq<Seq<char>>) -> Seq<Seq<char>> {
    if ls.len() <= HEADER_LINES {
        ls
    } else {
        ls.take(HEADER_LINES as int)
    }
}

/// A script's declaration: its first `HEADER_LINES` lines applied in order.
pub open spec fn parse_meta_spec(text: Seq<char>, path: Seq<char>, steps: Seq<StepDef>, syntax: MarkerSyntax) -> MetaView {
    apply_lines(initial_meta(path), header_window(lines(text)), steps, syntax)
}

fn resolved_names_of(catalog: &StepCatalog, parts: &Vec<Vec<char>>) -> (r: Vec<String>)
    ensures
        strings_view(r@) == resolved_names(catalog.steps@, views(parts@)),
{
    let ghost ps = views(parts@);
    let mut r: Vec<String> = Vec::new();
    let mut i: usize = 0;
    while i < parts.len()
        invariant
            0 <= i <= parts@.len(),
            ps == views(parts@),
            ps.len() == parts@.len(),
            strings_view(r@) == resolved_names(catalog.steps@, ps.take(i as int)),
        decreases parts.len() - i,
    {
        proof {
            assert(ps.take(i + 1).drop_last() =~= ps.take(i as int));
            assert(ps.take(i + 1).last() == parts@[i as int]@);
        }
        let name = string_of(trim_of(&parts[i]).as_slice());
        match catalog.resolve(name.as_str()) {
            Some(id) => {
                let ghost before = r@;
                r.push(id);
                proof {
                    assert(strings_view(r@) =~= strings_view(before).push(r@.last()@));
                }
            },
            None => {},
        }
        i += 1;
    }
    proof {
        assert(ps.take(ps.len() as int) =~= ps);
    }
    r
}

fn declared_of(catalog: &StepCatalog, value: &Vec<char>) -> (d: DeclaredSteps)
    ensures
        d@ == declared_from(catalog.steps@, value@),
{
    if eq_ignore_ascii_case_of(value, &lit("none")) {
        return DeclaredSteps::NoSteps;
    }
    let names = resolved_names_of(catalog, &split_of(value, Delim::One(',')));
    if names.len() == 0 {
        DeclaredSteps::Unknown
    } else {
        DeclaredSteps::Only(names)
    }
}

fn apply_pair_exec(m: &mut ScriptMeta, key: &String, value: &String, catalog: &StepCatalog)
    ensures
        final(m)@ == apply_pair(old(m)@, key@, value@, catalog.steps@),
{
    let k = chars_of(key.as_str());
    let v = chars_of(value.as_str());
    if eq_of(&k, &lit("category")) {
        m.category = value.clone();
    } else if eq_of(&k, &lit("summary")) {
        m.summary = value.clone();
    } else if eq_of(&k, &lit("library")) {
        m.library = eq_ignore_ascii_case_of(&v, &lit("true"));
    } else if eq_of(&k, &lit("steps")) {
        m.declared_steps = declared_of(catalog, &v);
    }
}

fn apply_pairs_exec(m: &mut ScriptMeta, ps: &Vec<(String, String)>, catalog: &StepCatalog)
    ensures
        final(m)@ == apply_pairs(old(m)@, pairs_view(ps@), catalog.steps@),
{
    let ghost m0 = m@;
    let ghost pv = pairs_view(ps@);
    let mut i: usize = 0;
    while i < ps.len()
        invariant
            0 <= i <= ps@.len(),
            pv == pairs_view(ps@),
            pv.len() == ps@.len(),
            m@ == apply_pairs(m0, pv.take(i as int), catalog.steps@),
        decreases ps.len() - i,
    {
        proof {
            assert(pv.take(i + 1).drop_last() =~= pv.take(i as int));
            assert(pv.take(i + 1).last() == (ps@[i as int].0@, ps@[i as int].1@));
        }
        apply_pair_exec(m, &ps[i].0, &ps[i].1, catalog);
        i += 1;
    }
    proof {
        assert(pv.take(pv.len() as int) =~= pv);
    }
}

fn arg_of(payload: &str) -> (r: Option<ScriptArg>)
    ensures
        r matches Some(a) ==> arg_spec(payload@) == Some(a@),
        r is None ==> arg_spec(payload@) is None,
{
    let p = trim_of(&chars_of(payload));
    let (flag, help) = match split_once_of(&p, Delim::Space) {
        Some(x) => x,
        None => (p, Vec::new()),
    };
    if flag.len() > 0 && flag[0] == '-' {
        proof {
            reveal_strlit("-");
            assert(flag@.subrange(0, 1) =~= "-"@);
        }
        Some(ScriptArg {
            flag: string_of(flag.as_slice()),
            help: string_of(trim_of(&help).as_slice()),
            default_on: false,
        })
    } else {
        proof {
            reveal_strlit("-");
            if starts_with(flag@, "-"@) {
                assert(flag@.subrange(0, 1)[0] == flag@[0]);
            }
        }
        None
    }
}

fn inline_values_of(pieces: &Vec<Vec<char>>) -> (r: Vec<String>)
    ensures
        strings_view(r@) == inline_values(views(pieces@)),
{
    let ghost ps = views(pieces@);
    let mut r: Vec<String> = Vec::new();
    let mut i: usize = 0;
    while i < pieces.len()
        invariant
            0 <= i <= pieces@.len(),
            ps == views(pieces@),
            ps.len() == pieces@.len(),
            strings_view(r@) == inline_values(ps.take(i as int)),
        decreases pieces.len() - i,
    {
        proof {
            assert(ps.take(i + 1).drop_last() =~= ps.take(i as int));
            assert(ps.take(i + 1).last() == pieces@[i as int]@);
        }
        let t = trim_of(&pieces[i]);
        if t.len() > 0 {
            let ghost before = r@;
            r.push(string_of(t.as_slice()));
            proof {
                assert(strings_view(r@) =~= strings_view(before).push(t@));
            }
        }
        i += 1;
    }
    proof {
        assert(ps.take(ps.len() as int) =~= ps);
    }
    r
}

fn first_is(v: &Vec<char>, c: char) -> (b: bool)
    ensures
        b == starts_with(v@, seq![c]),
{
    if v.len() > 0 && v[0] == c {
        proof {
            assert(v@.subrange(0, 1) =~= seq![c]);
        }
        true
    } else {
        proof {
            if starts_with(v@, seq![c]) {
                assert(v@.subrange(0, 1)[0] == v@[0]);
            }
        }
        false
    }
}

fn choice_of(payload: &str) -> (r: Option<ScriptChoice>)
    ensures
        r matches Some(c) ==> choice_spec(payload@) == Some(c@),
        r is None ==> choice_spec(payload@) is None,
{
    proof {
        reveal_strlit("-");
        reveal_strlit("@");
        assert("-"@ =~= seq!['-']);
        assert("@"@ =~= seq!['@']);
    }
    let p = trim_of(&chars_of(payload));
    let (flag, rest0) = match split_once_of(&p, Delim::Space) {
        Some(x) => x,
        None => return None,
    };
    let rest = trim_of(&rest0);
    if !first_is(&flag, '-') {
        return None;
    }
    if !first_is(&rest, '@') {
        let (list, help) = match split_once_of(&rest, Delim::Space) {
            Some(x) => x,
            None => (rest, Vec::new()),
        };
        let values = inline_values_of(&split_of(&list, Delim::One('|')));
        if values.len() < 2 {
            return None;
        }
        return Some(ScriptChoice {
            flag: string_of(flag.as_slice()),
            source: String::new(),
            column: String::new(),
            help: string_of(trim_of(&help).as_slice()),
            values,
        });
    }
    let spec_part = slice(&rest, 1, rest.len());
    proof {
        assert(spec_part@ =~= rest@.skip(1));
    }
    let (source, tail) = match rsplit_once_of(&spec_part, Delim::One(':')) {
        Some(x) => x,
        None => return None,
    };
    let (column, help) = match split_once_of(&tail, Delim::Space) {
        Some(x) => x,
        None => (tail, Vec::new()),
    };
    if source.len() == 0 || column.len() == 0 {
        return None;
    }
    let r = ScriptChoice {
        flag: string_of(flag.as_slice()),
        source: string_of(source.as_slice()),
        column: string_of(column.as_slice()),
        help: string_of(trim_of(&help).as_slice()),
        values: Vec::new(),
    };
    proof {
        assert(strings_view(r.values@) =~= Seq::<Seq<char>>::empty());
    }
    Some(r)
}

fn apply_line_exec(m: &mut ScriptMeta, line: &str, catalog: &StepCatalog, syntax: &MarkerSyntax)
    ensures
        final(m)@ == apply_line(old(m)@, line@, catalog.steps@, *syntax),
{
    if let Some(payload) = syntax.payload(line, MarkerKind::ScriptHeader) {
        let ps = parse_pairs(payload);
        apply_pairs_exec(m, &ps, catalog);
    } else if let Some(payload) = syntax.payload(line, MarkerKind::ArgHeader) {
        match arg_of(payload) {
            Some(a) => {
                let ghost before = m.args@;
                m.args.push(a);
                proof {
                    assert(m.args@.map_values(|a: ScriptArg| a@) =~= before.map_values(
                        |a: ScriptArg| a@,
                    ).push(m.args@.last()@));
                }
            },
            None => {},
        }
    } else if let Some(payload) = syntax.payload(line, MarkerKind::ChoiceHeader) {
        match choice_of(payload) {
            Some(c) => {
                let ghost before = m.choices@;
                m.choices.push(c);
                proof {
                    assert(m.choices@.map_values(|c: ScriptChoice| c@) =~= before.map_values(
                        |c: ScriptChoice| c@,
                    ).push(m.choices@.last()@));
                }
            },
            None => {},
        }
    }
}

fn initial_meta_of(repo_relative: &str) -> (m: ScriptMeta)
    ensures
        m@ == initial_meta(repo_relative@),
{
    let path = chars_of(repo_relative);
    let start = after_last_slash_start(&path);
    let file = slice(&path, start, path.len());
    proof {
        assert(file@ =~= after_last_slash(repo_relative@));
        reveal_strlit("Other");
    }
    let m = ScriptMeta {
        path: string_of(path.as_slice()),
        category: string_of(lit("Other").as_slice()),
        declared_steps: DeclaredSteps::Unknown,
        args: Vec::new(),
        choices: Vec::new(),
        summary: String::new(),
        library: eq_of(&file, &lit("cdw_client.py")),
    };
    proof {
        assert(m@.args =~= Seq::<ArgView>::empty());
        assert(m@.choices =~= Seq::<ChoiceView>::empty());
    }
    m
}

fn apply_window(m: &mut ScriptMeta, ls: &Vec<Vec<char>>, n: usize, catalog: &StepCatalog, syntax: &MarkerSyntax)
    requires
        n <= ls@.len(),
    ensures
        final(m)@ == apply_lines(old(m)@, views(ls@).take(n as int), catalog.steps@, *syntax),
{
    let ghost m0 = m@;
    let ghost window = views(ls@).take(n as int);
    let mut i: usize = 0;
    while i < n
        invariant
            0 <= i <= n <= ls@.len(),
            window == views(ls@).take(n as int),
            m@ == apply_lines(m0, window.take(i as int), catalog.steps@, *syntax),
        decreases n - i,
    {
        proof {
            assert(window.take(i + 1).drop_last() =~= window.take(i as int));
            assert(window.take(i + 1).last() == ls@[i as int]@);
        }
        let line = string_of(ls[i].as_slice());
        apply_line_exec(m, line.as_str(), catalog, syntax);
        i += 1;
    }
    proof {
        assert(window.take(n as int) =~= window);
    }
}

/// Read one script's declaration from its text. `repo_relative` is the path
/// the runner is handed. Choices that name a file come back without values.
pub fn parse_meta(text: &str, repo_relative: &str, catalog: &StepCatalog, syntax: &MarkerSyntax) -> (m: ScriptMeta)
    ensures
        m@ == parse_meta_spec(text@, repo_relative@, catalog.steps@, *syntax),
{
    let mut m = initial_meta_of(repo_relative);
    let ls = lines_of(&chars_of(text));
    let n = if ls.len() <= HEADER_LINES { ls.len() } else { HEADER_LINES };
    proof {
        assert(header_window(lines(text@)) =~= views(ls@).take(n as int));
    }
    apply_window(&mut m, &ls, n, catalog, syntax);
    m
}

pub open spec fn file_name_spec(path: Seq<char>) -> Seq<char> {
    after_last_slash(path)
}

pub open spec fn steps_spec(d: DeclaredView) -> Option<Seq<Seq<char>>> {
    match d {
        DeclaredView::Unknown => None,
        DeclaredView::NoSteps => Some(Seq::empty()),
        DeclaredView::Only(v) => Some(v),
    }
}

impl ScriptMeta {
    /// The file's own name, without its folder.
    pub fn file_name(&self) -> (r: &str)
        ensures
            r@ == file_name_spec(self.path@),
    {
        let path = chars_of(self.path.as_str());
        let start = after_last_slash_start(&path);
        self.path.as_str().substring_char(start, path.len())
    }

    /// The stages to draw, or `None` to draw the whole chain.
    pub fn steps(&self) -> (r: Option<&[String]>)
        ensures
            r matches Some(v) ==> steps_spec(self.declared_steps@) == Some(strings_view(v@)),
            r is None ==> steps_spec(self.declared_steps@) is None,
    {
        match &self.declared_steps {
            DeclaredSteps::Unknown => None,
            DeclaredSteps::NoSteps => {
                let empty: &[String] = &[];
                proof {
                    assert(strings_view(empty@) =~= Seq::<Seq<char>>::empty());
                }
                Some(empty)
            },
            DeclaredSteps::Only(steps) => Some(steps.as_slice()),
        }
    }

    /// True when the script says it reaches no pipeline stage.
    pub fn has_no_steps(&self) -> (b: bool)
        ensures
            b == (self.declared_steps@ is NoSteps),
    {
        match self.declared_steps {
            DeclaredSteps::NoSteps => true,
            _ => false,
        }
    }

    /// `py` or `sh`, from the extension.
    pub fn language(&self) -> (r: &'static str)
        ensures
            r@ == (if ends_with(self.path@, ".py"@) {
                "py"@
            } else {
                "sh"@
            }),
    {
        if ends_with_of(&chars_of(self.path.as_str()), &lit(".py")) {
            "py"
        } else {
            "sh"
        }
    }
}

/// The first header cell, from `i` on, that trims to `column`.
pub open spec fn column_index_from(cells: Seq<Seq<char>>, column: Seq<char>, i: int) -> Option<int>
    decreases cells.len() - i,
{
    if i < 0 || i >= cells.len() {
        None
    } else if trim(cells[i]) == column {
        Some(i)
    } else {
        column_index_from(cells, column, i + 1)
    }
}

/// The value a row holds in column `idx`: present, trimmed and non-empty.
pub open spec fn cell_value(row: Seq<char>, delim: char, idx: int) -> Option<Seq<char>> {
    if trim(row).len() == 0 {
        None
    } else if 0 <= idx < split(row, Delim::One(delim)).len() && trim(split(row, Delim::One(delim))[idx]).len() > 0 {
        Some(trim(split(row, Delim::One(delim))[idx]))
    } else {
        None
    }
}

/// The values of column `idx`, in file order, each once.
pub open spec fn column_values(rows: Seq<Seq<char>>, delim: char, idx: int) -> Seq<Seq<char>>
    decreases rows.len(),
{
    if rows.len() == 0 {
        Seq::empty()
    } else {
        let acc = column_values(rows.drop_last(), delim, idx);
        match cell_value(rows.last(), delim, idx) {
            Some(v) => if acc.contains(v) {
                acc
            } else {
                acc.push(v)
            },
            None => acc,
        }
    }
}

/// The header with a leading byte-order mark dropped.
pub open spec fn header_of(ls: Seq<Seq<char>>) -> Seq<char> {
    strip_start(ls[0], Delim::One('\u{feff}'))
}

/// `;` when the header holds one, else `,`: sniffed from the header only.
pub open spec fn delim_of(header: Seq<char>) -> char {
    if contains(header, ";"@) {
        ';'
    } else {
        ','
    }
}

/// One column of a delimited text, by the name its header gives it.
pub open spec fn read_column_spec(text: Seq<char>, column: Seq<char>) -> Seq<Seq<char>> {
    let ls = lines(text);
    if ls.len() == 0 {
        Seq::empty()
    } else {
        let header = header_of(ls);
        let d = delim_of(header);
        match column_index_from(split(header, Delim::One(d)), column, 0) {
            None => Seq::empty(),
            Some(idx) => column_values(ls.skip(1), d, idx),
        }
    }
}

fn contains_string(v: &Vec<String>, x: &Vec<char>) -> (b: bool)
    ensures
        b == strings_view(v@).contains(x@),
{
    let mut i: usize = 0;
    while i < v.len()
        invariant
            0 <= i <= v@.len(),
            forall|k: int| 0 <= k < i ==> v@[k]@ != x@,
        decreases v.len() - i,
    {
        if eq_of(&chars_of(v[i].as_str()), x) {
            proof {
                assert(strings_view(v@)[i as int] == x@);
            }
            return true;
        }
        i += 1;
    }
    proof {
        if strings_view(v@).contains(x@) {
            let k = choose|k: int| 0 <= k < strings_view(v@).len() && strings_view(v@)[k] == x@;
            assert(v@[k]@ == x@);
        }
    }
    false
}

fn cell_value_of(row: &Vec<char>, delim: char, idx: usize) -> (r: Option<Vec<char>>)
    ensures
        r matches Some(v) ==> cell_value(row@, delim, idx as int) == Some(v@),
        r is None ==> cell_value(row@, delim, idx as int) is None,
{
    if trim_of(row).len() == 0 {
        return None;
    }
    let cells = split_of(row, Delim::One(delim));
    if idx < cells.len() {
        proof {
            assert(views(cells@)[idx as int] == cells@[idx as int]@);
        }
        let v = trim_of(&cells[idx]);
        if v.len() > 0 {
            return Some(v);
        }
    }
    None
}

fn column_index_of(cells: &Vec<Vec<char>>, want: &Vec<char>) -> (r: Option<usize>)
    ensures
        r matches Some(k) ==> column_index_from(views(cells@), want@, 0) == Some(k as int),
        r is None ==> column_index_from(views(cells@), want@, 0) is None,
{
    let ghost cv = views(cells@);
    let mut idx: usize = 0;
    while idx < cells.len()
        invariant
            0 <= idx <= cells@.len(),
            cv == views(cells@),
            cv.len() == cells@.len(),
            column_index_from(cv, want@, 0) == column_index_from(cv, want@, idx as int),
        decreases cells.len() - idx,
    {
        proof {
            assert(cv[idx as int] == cells@[idx as int]@);
        }
        if eq_of(&trim_of(&cells[idx]), want) {
            return Some(idx);
        }
        idx += 1;
    }
    None
}

/// One column of a delimited text: its values in file order, blank rows
/// skipped, each value once. A column the header does not name yields none.
pub fn read_column(text: &str, column: &str) -> (r: Vec<String>)
    ensures
        strings_view(r@) == read_column_spec(text@, column@),
{
    let ls = lines_of(&chars_of(text));
    let ghost lv = lines(text@);
    if ls.len() == 0 {
        return Vec::new();
    }
    proof {
        assert(lv[0] == ls@[0]@);
    }
    let header = strip_start_of(&ls[0], Delim::One('\u{feff}'));
    let semi = lit(";");
    let delim = if contains_of(&header, &semi) { ';' } else { ',' };
    let cells = split_of(&header, Delim::One(delim));
    let want = chars_of(column);
    let ghost cv = views(cells@);
    let idx = column_index_of(&cells, &want);
    proof {
        assert(header@ == header_of(lv));
        assert(semi@ == ";"@);
        assert(delim == delim_of(header@));
        assert(cv == split(header_of(lv), Delim::One(delim)));
    }
    let idx = match idx {
        Some(k) => k,
        None => return Vec::new(),
    };
    let ghost rows = lv.skip(1);
    let mut out: Vec<String> = Vec::new();
    let mut i: usize = 1;
    while i < ls.len()
        invariant
            1 <= i <= ls@.len(),
            views(ls@) == lv,
            rows == lv.skip(1),
            strings_view(out@) == column_values(rows.take(i - 1), delim, idx as int),
        decreases ls.len() - i,
    {
        proof {
            assert(rows.take(i as int).drop_last() =~= rows.take(i - 1));
            assert(rows.take(i as int).last() == ls@[i as int]@);
        }
        match cell_value_of(&ls[i], delim, idx) {
            Some(v) => {
                if !contains_string(&out, &v) {
                    let ghost before = out@;
                    out.push(string_of(v.as_slice()));
                    proof {
                        assert(strings_view(out@) =~= strings_view(before).push(v@));
                    }
                }
            },
            None => {},
        }
        i += 1;
    }
    proof {
        assert(rows.take(i - 1) =~= rows);
        assert(read_column_spec(text@, column@) == column_values(rows, delim, idx as int));
    }
    out
}

/// Fill a file-sourced choice from the text of its source file; a file that
/// could not be read leaves the choice present with no values.
pub fn fill_choice_values(choice: &mut ScriptChoice, file_text: Option<&str>)
    ensures
        final(choice).flag == old(choice).flag,
        final(choice).source == old(choice).source,
        final(choice).column == old(choice).column,
        final(choice).help == old(choice).help,
        strings_view(final(choice).values@) == (match file_text {
            Some(t) => read_column_spec(t@, old(choice).column@),
            None => Seq::empty(),
        }),
{
    match file_text {
        Some(t) => {
            choice.values = read_column(t, choice.column.as_str());
        },
        None => {
            choice.values = Vec::new();
            proof {
                assert(strings_view(choice.values@) =~= Seq::<Seq<char>>::empty());
            }
        },
    }
}

/// Sidebar order of the known categories; everything else after them.
pub open spec fn category_rank_spec(category: Seq<char>) -> u8 {
    if category == "Flows"@ {
        0
    } else if category == "Verification"@ {
        1
    } else if category == "Simulation"@ {
        2
    } else if category == "Maintenance"@ {
        3
    } else {
        9
    }
}

pub fn category_rank(category: &str) -> (r: u8)
    ensures
        r == category_rank_spec(category@),
{
    let c = chars_of(category);
    if eq_of(&c, &lit("Flows")) {
        0
    } else if eq_of(&c, &lit("Verification")) {
        1
    } else if eq_of(&c, &lit("Simulation")) {
        2
    } else if eq_of(&c, &lit("Maintenance")) {
        3
    } else {
        9
    }
}


/// The sidebar order: category rank, then category, then path.
pub open spec fn meta_lt(a: ScriptMeta, b: ScriptMeta) -> bool {
    let (ra, rb) = (category_rank_spec(a.category@), category_rank_spec(b.category@));
    ||| ra < rb
    ||| ra == rb && lex_lt(a.category@, b.category@)
    ||| ra == rb && a.category@ == b.category@ && lex_lt(a.path@, b.path@)
}

proof fn lemma_meta_lt_transitive(a: ScriptMeta, b: ScriptMeta, c: ScriptMeta)
    requires
        meta_lt(a, b),
        meta_lt(b, c),
    ensures
        meta_lt(a, c),
{
    if lex_lt(a.category@, b.category@) && lex_lt(b.category@, c.category@) {
        lemma_lex_lt_transitive(a.category@, b.category@, c.category@);
    }
    if lex_lt(a.path@, b.path@) && lex_lt(b.path@, c.path@) {
        lemma_lex_lt_transitive(a.path@, b.path@, c.path@);
    }
}

proof fn lemma_meta_lt_irreflexive(a: ScriptMeta)
    ensures
        !meta_lt(a, a),
{
    if lex_lt(a.category@, a.category@) {
        lemma_lex_lt_asymmetric(a.category@, a.category@);
    }
    if lex_lt(a.path@, a.path@) {
        lemma_lex_lt_asymmetric(a.path@, a.path@);
    }
}

fn meta_lt_exec(a: &ScriptMeta, b: &ScriptMeta) -> (r: bool)
    ensures
        r == meta_lt(*a, *b),
{
    let ra = category_rank(a.category.as_str());
    let rb = category_rank(b.category.as_str());
    if ra != rb {
        return ra < rb;
    }
    let ca = chars_of(a.category.as_str());
    let cb = chars_of(b.category.as_str());
    if lex_lt_of(&ca, &cb) {
        return true;
    }
    if !eq_of(&ca, &cb) {
        return false;
    }
    lex_lt_of(&chars_of(a.path.as_str()), &chars_of(b.path.as_str()))
}

/// No later script sorts before an earlier one.
pub open spec fn sorted_by_meta(s: Seq<ScriptMeta>) -> bool {
    forall|i: int, j: int| 0 <= i < j < s.len() ==> !meta_lt(#[trigger] s[j], #[trigger] s[i])
}

/// The scripts in sidebar order; scripts that tie keep their order.
pub fn sort_scripts(found: Vec<ScriptMeta>) -> (r: Vec<ScriptMeta>)
    ensures
        r@.to_multiset() == found@.to_multiset(),
        sorted_by_meta(r@),
{
    let mut input = found;
    let ghost orig = input@;
    proof {
        assert(orig.len() == input.len());
    }
    let mut out: Vec<ScriptMeta> = Vec::new();
    let mut taken: usize = 0;
    proof {
        assert(orig.take(0) =~= Seq::<ScriptMeta>::empty());
        assert(out@ =~= Seq::<ScriptMeta>::empty());
    }
    let mut rest: Vec<ScriptMeta> = Vec::new();
    // Reverse the input so items can be popped in their original order.
    while input.len() > 0
        invariant
            orig == input@ + rest@.reverse(),
        decreases input.len(),
    {
        let x = input.pop().unwrap();
        let ghost before = rest@;
        rest.push(x);
        proof {
            assert(rest@.reverse() =~= seq![x] + before.reverse());
            assert(orig =~= input@ + rest@.reverse());
        }
    }
    proof {
        assert(orig =~= rest@.reverse());
    }
    while rest.len() > 0
        invariant
            rest@.reverse() == orig.skip(taken as int),
            taken <= orig.len(),
            orig.len() <= usize::MAX,
            out@.to_multiset() == orig.take(taken as int).to_multiset(),
            sorted_by_meta(out@),
        decreases rest.len(),
    {
        let ghost old_rest = rest@;
        proof {
            assert(old_rest.reverse().len() > 0);
            assert(taken < orig.len());
        }
        let x = rest.pop().unwrap();
        proof {
            assert(old_rest.reverse()[0] == old_rest.last());
            assert(orig.skip(taken as int)[0] == x);
            assert(rest@ =~= old_rest.drop_last());
            assert(rest@.reverse() =~= old_rest.reverse().drop_first());
            assert(orig.skip(taken as int).drop_first() =~= orig.skip(taken + 1));
        }
        let mut p: usize = 0;
        while p < out.len() && !meta_lt_exec(&x, &out[p])
            invariant
                0 <= p <= out@.len(),
                forall|k: int| 0 <= k < p ==> !meta_lt(x, #[trigger] out@[k]),
            decreases out.len() - p,
        {
            p += 1;
        }
        let ghost before = out@;
        out.insert(p, x);
        proof {
            to_multiset_insert(before, p as int, x);
            assert(orig.take(taken + 1) =~= orig.take(taken as int).push(x));
            to_multiset_build(orig.take(taken as int), x);
            assert forall|i: int, j: int| 0 <= i < j < out@.len() implies !meta_lt(
                #[trigger] out@[j],
                #[trigger] out@[i],
            ) by {
                if j == p {
                    assert(out@[i] == before[i]);
                } else if i == p {
                    assert(out@[j] == before[j - 1]);
                    if p < before.len() {
                        assert(meta_lt(x, before[p as int]));
                        if meta_lt(before[j - 1], x) {
                            lemma_meta_lt_transitive(before[j - 1], x, before[p as int]);
                            lemma_meta_lt_irreflexive(before[p as int]);
                            if j - 1 > p {
                                assert(!meta_lt(before[j - 1], before[p as int]));
                            }
                        }
                    }
                } else {
                    let bi = if i < p { i } else { i - 1 };
                    let bj = if j < p { j } else { j - 1 };
                    assert(out@[i] == before[bi]);
                    assert(out@[j] == before[bj]);
                }
            }
        }
        taken = taken + 1;
    }
    proof {
        assert(orig.take(taken as int) =~= orig);
    }
    out
}

/// Consecutive scripts of one category gathered under that category.
pub open spec fn group_spec(s: Seq<ScriptMeta>) -> Seq<(Seq<char>, Seq<ScriptMeta>)>
    decreases s.len(),
{
    if s.len() == 0 {
        Seq::empty()
    } else {
        let g = group_spec(s.drop_last());
        let m = s.last();
        if g.len() > 0 && g.last().0 == m.category@ {
            g.update(g.len() - 1, (g.last().0, g.last().1.push(m)))
        } else {
            g.push((m.category@, seq![m]))
        }
    }
}

pub open spec fn groups_view(r: Seq<(String, Vec<ScriptMeta>)>) -> Seq<(Seq<char>, Seq<ScriptMeta>)> {
    r.map_values(|g: (String, Vec<ScriptMeta>)| (g.0@, g.1@))
}

pub open spec fn open_group(i: int, label: Seq<char>, cur: Seq<ScriptMeta>) -> Seq<(Seq<char>, Seq<ScriptMeta>)> {
    if i == 0 {
        Seq::empty()
    } else {
        seq![(label, cur)]
    }
}

/// The scripts that are offered for running: libraries left out.
pub open spec fn runnable(s: Seq<ScriptMeta>) -> Seq<ScriptMeta>
    decreases s.len(),
{
    if s.len() == 0 {
        Seq::empty()
    } else if s.last().library {
        runnable(s.drop_last())
    } else {
        runnable(s.drop_last()).push(s.last())
    }
}

fn runnable_of(found: Vec<ScriptMeta>) -> (r: Vec<ScriptMeta>)
    ensures
        r@ == runnable(found@),
{
    let mut rest: Vec<ScriptMeta> = Vec::new();
    let mut input = found;
    let ghost orig = input@;
    while input.len() > 0
        invariant
            orig == input@ + rest@.reverse(),
        decreases input.len(),
    {
        let x = input.pop().unwrap();
        let ghost before = rest@;
        rest.push(x);
        proof {
            assert(rest@.reverse() =~= seq![x] + before.reverse());
            assert(orig =~= input@ + rest@.reverse());
        }
    }
    let mut out: Vec<ScriptMeta> = Vec::new();
    let ghost mut i: int = 0;
    proof {
        assert(orig =~= rest@.reverse());
        assert(orig.take(0) =~= Seq::<ScriptMeta>::empty());
    }
    while rest.len() > 0
        invariant
            0 <= i <= orig.len(),
            rest@.reverse() == orig.skip(i),
            out@ == runnable(orig.take(i)),
        decreases rest.len(),
    {
        let ghost old_rest = rest@;
        proof {
            assert(old_rest.reverse().len() > 0);
        }
        let m = rest.pop().unwrap();
        proof {
            assert(old_rest.reverse()[0] == old_rest.last());
            assert(orig.skip(i)[0] == m);
            assert(rest@ =~= old_rest.drop_last());
            assert(rest@.reverse() =~= old_rest.reverse().drop_first());
            assert(orig.skip(i).drop_first() =~= orig.skip(i + 1));
            assert(orig.take(i + 1).drop_last() =~= orig.take(i));
            assert(orig.take(i + 1).last() == m);
        }
        if !m.library {
            out.push(m);
        }
        proof {
            i = i + 1;
        }
    }
    proof {
        assert(orig.take(i) =~= orig);
    }
    out
}

/// The scripts found under the tools directory, grouped for the sidebar:
/// libraries left out, groups in category order (Flows, Verification,
/// Simulation, Maintenance, then the rest by name), scripts within a group
/// by path.
pub fn discover(found: Vec<ScriptMeta>) -> (r: Vec<(String, Vec<ScriptMeta>)>)
    ensures
        exists|s: Seq<ScriptMeta>|
            s.to_multiset() == runnable(found@).to_multiset() && sorted_by_meta(s) && groups_view(r@)
                == group_spec(s),
{
    let sorted = sort_scripts(runnable_of(found));
    let ghost s = sorted@;
    proof {
        assert(s.len() == sorted.len());
    }
    let mut rest: Vec<ScriptMeta> = Vec::new();
    let mut input = sorted;
    while input.len() > 0
        invariant
            s == input@ + rest@.reverse(),
            s.len() <= usize::MAX,
        decreases input.len(),
    {
        let x = input.pop().unwrap();
        let ghost before = rest@;
        rest.push(x);
        proof {
            assert(rest@.reverse() =~= seq![x] + before.reverse());
            assert(s =~= input@ + rest@.reverse());
        }
    }
    proof {
        assert(s =~= rest@.reverse());
    }
    let mut groups: Vec<(String, Vec<ScriptMeta>)> = Vec::new();
    let mut cur: Vec<ScriptMeta> = Vec::new();
    let mut label = String::new();
    let mut i: usize = 0;
    proof {
        assert(s.take(0) =~= Seq::<ScriptMeta>::empty());
        assert(groups_view(groups@) =~= Seq::<(Seq<char>, Seq<ScriptMeta>)>::empty());
    }
    while rest.len() > 0
        invariant
            rest@.reverse() == s.skip(i as int),
            i <= s.len(),
            s.len() <= usize::MAX,
            group_spec(s.take(i as int)) == groups_view(groups@) + open_group(i as int, label@, cur@),
            i > 0 ==> cur@.len() > 0 && cur@.last().category@ == label@,
        decreases rest.len(),
    {
        let ghost old_rest = rest@;
        proof {
            assert(old_rest.reverse().len() > 0);
        }
        let m = rest.pop().unwrap();
        proof {
            assert(old_rest.reverse()[0] == old_rest.last());
            assert(s.skip(i as int)[0] == m);
            assert(rest@ =~= old_rest.drop_last());
            assert(rest@.reverse() =~= old_rest.reverse().drop_first());
            assert(s.skip(i as int).drop_first() =~= s.skip(i + 1));
            assert(s.take(i + 1).drop_last() =~= s.take(i as int));
            assert(s.take(i + 1).last() == m);
        }
        let ghost gv = groups_view(groups@);
        if i > 0 && m.category == label {
            let ghost oc = cur@;
            cur.push(m);
            proof {
                let g = gv + seq![(label@, oc)];
                assert(g.update(g.len() - 1, (g.last().0, g.last().1.push(m))) =~= gv + seq![
                    (label@, cur@),
                ]);
            }
        } else {
            if i > 0 {
                let mut done: Vec<ScriptMeta> = Vec::new();
                std::mem::swap(&mut done, &mut cur);
                let mut old_label = String::new();
                std::mem::swap(&mut old_label, &mut label);
                groups.push((old_label, done));
                proof {
                    assert(groups_view(groups@) =~= gv + seq![(old_label@, done@)]);
                }
            }
            label = m.category.clone();
            cur = Vec::new();
            cur.push(m);
            proof {
                assert(group_spec(s.take(i + 1)) =~= groups_view(groups@) + seq![(label@, cur@)]);
            }
        }
        i = i + 1;
    }
    if i > 0 {
        let ghost gv = groups_view(groups@);
        groups.push((label, cur));
        proof {
            assert(groups_view(groups@) =~= gv + open_group(i as int, label@, cur@));
        }
    } else {
        proof {
            assert(groups_view(groups@) + open_group(i as int, label@, cur@) =~= groups_view(groups@));
        }
    }
    proof {
        assert(s.take(i as int) =~= s);
    }
    groups
}


/// A directory the script walk enters: not hidden, not generated (`__pycache__`).
pub fn walks_into(dir_name: &str) -> (b: bool)
    ensures
        b == !(starts_with(dir_name@, "."@) || starts_with(dir_name@, "__"@)),
{
    let n = chars_of(dir_name);
    !(crate::text::starts_with_of(&n, &lit(".")) || crate::text::starts_with_of(&n, &lit("__")))
}

/// A file's extension as `Path::extension` reads it: after the last dot,
/// unless that dot starts the name.
pub open spec fn extension(name: Seq<char>) -> Option<Seq<char>> {
    match crate::text::last_hit(name, Delim::One('.')) {
        Some(i) => if i > 0 { Some(name.skip(i + 1)) } else { None },
        None => None,
    }
}

/// A file the walk offers: a Python or shell script.
pub fn is_script_name(file_name: &str) -> (b: bool)
    ensures
        b == (extension(file_name@) == Some("py"@) || extension(file_name@) == Some("sh"@)),
{
    let n = chars_of(file_name);
    match crate::text::last_hit_of(&n, Delim::One('.')) {
        Some(i) => if i > 0 {
            let ext = slice(&n, i + 1, n.len());
            proof {
                assert(ext@ =~= n@.skip(i + 1));
            }
            eq_of(&ext, &lit("py")) || eq_of(&ext, &lit("sh"))
        } else {
            false
        },
        None => false,
    }
}

/// The language filter over the script list.
#[derive(Clone, Copy, PartialEq, Eq, Debug, Structural)]
pub enum Language {
    All,
    Python,
    Shell,
}

impl Language {
    /// Whether a script passes the filter: every script, or those of one language.
    pub fn matches(&self, meta: &ScriptMeta) -> (b: bool)
        ensures
            b == match *self {
                Language::All => true,
                Language::Python => ends_with(meta.path@, ".py"@),
                Language::Shell => !ends_with(meta.path@, ".py"@),
            },
    {
        proof {
            reveal_strlit("py");
            reveal_strlit("sh");
            assert("py"@[0] != "sh"@[0]);
        }
        match self {
            Language::All => true,
            Language::Python => str_eq(meta.language(), "py"),
            Language::Shell => str_eq(meta.language(), "sh"),
        }
    }
}

/// An argument header whose first word is a dash flag is never dropped: the
/// line adds exactly one toggle, with that flag, the rest of the line as its
/// help, and off by default; nothing else about the script changes.
pub proof fn law_a_dash_flag_header_is_offered(m: MetaView, line: Seq<char>, steps: Seq<StepDef>, syntax: MarkerSyntax)
    requires
        payload_spec(syntax, line, MarkerKind::ScriptHeader) is None,
        payload_spec(syntax, line, MarkerKind::ArgHeader) is Some,
        ({
            let t = trim(payload_spec(syntax, line, MarkerKind::ArgHeader)->0);
            let w = match split_once(t, Delim::Space) {
                Some(x) => x.0,
                None => t,
            };
            w.len() > 0 && w[0] == '-'
        }),
    ensures
        ({
            let t = trim(payload_spec(syntax, line, MarkerKind::ArgHeader)->0);
            let (w, rest) = match split_once(t, Delim::Space) {
                Some(x) => x,
                None => (t, Seq::<char>::empty()),
            };
            let r = apply_line(m, line, steps, syntax);
            &&& r.args.len() == m.args.len() + 1
            &&& r.args.drop_last() == m.args
            &&& r.args.last().flag == w
            &&& r.args.last().help == trim(rest)
            &&& !r.args.last().default_on
            &&& r == MetaView { args: r.args, ..m }
        }),
{
    reveal_strlit("-");
    let t = trim(payload_spec(syntax, line, MarkerKind::ArgHeader)->0);
    let w = match split_once(t, Delim::Space) {
        Some(x) => x.0,
        None => t,
    };
    assert(w.subrange(0, 1) =~= "-"@);
    let r = apply_line(m, line, steps, syntax);
    assert(r.args.drop_last() =~= m.args);
}

proof fn lemma_pairs_keep_args(m: MetaView, ps: Seq<(Seq<char>, Seq<char>)>, steps: Seq<StepDef>)
    ensures
        apply_pairs(m, ps, steps).args == m.args,
        apply_pairs(m, ps, steps).path == m.path,
    decreases ps.len(),
{
    if ps.len() > 0 {
        lemma_pairs_keep_args(m, ps.drop_last(), steps);
    }
}

proof fn lemma_lines_keep_flags_off(m: MetaView, ls: Seq<Seq<char>>, steps: Seq<StepDef>, syntax: MarkerSyntax)
    requires
        forall|i: int| 0 <= i < m.args.len() ==> !(#[trigger] m.args[i]).default_on,
    ensures
        forall|i: int|
            0 <= i < apply_lines(m, ls, steps, syntax).args.len() ==> !(#[trigger] apply_lines(
                m,
                ls,
                steps,
                syntax,
            ).args[i]).default_on,
        apply_lines(m, ls, steps, syntax).path == m.path,
    decreases ls.len(),
{
    if ls.len() > 0 {
        lemma_lines_keep_flags_off(m, ls.drop_last(), steps, syntax);
        let b = apply_lines(m, ls.drop_last(), steps, syntax);
        let line = ls.last();
        if payload_spec(syntax, line, MarkerKind::ScriptHeader) is Some {
            lemma_pairs_keep_args(b, pairs_spec(payload_spec(syntax, line, MarkerKind::ScriptHeader)->0), steps);
        }
    }
}

/// No flag is on by default: every toggle a script's header declares starts
/// off, and the declaration keeps the path it was read from.
pub proof fn law_no_flag_is_on_by_default(text: Seq<char>, path: Seq<char>, steps: Seq<StepDef>, syntax: MarkerSyntax)
    ensures
        forall|i: int|
            0 <= i < parse_meta_spec(text, path, steps, syntax).args.len() ==> !(#[trigger] parse_meta_spec(
                text,
                path,
                steps,
                syntax,
            ).args[i]).default_on,
        parse_meta_spec(text, path, steps, syntax).path == path,
{
    lemma_lines_keep_flags_off(initial_meta(path), header_window(lines(text)), steps, syntax);
}

} // verus!
