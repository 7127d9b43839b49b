//! The markers the app looks for in script output: a flat, editable list of
//! tokens, each bound to the kind of behaviour it triggers.

use vstd::prelude::*;
use crate::text::{
    chars_of, find, find_of, first_hit, first_hit_of, push_all, slice, strip_end, strip_end_of, strip_start,
    strip_start_of, string_of, trim, trim_bounds, trim_of, Delim,
};

verus! {

/// What the app does when it sees a marker.
#[derive(Clone, Copy, PartialEq, Eq, Debug, Structural)]
pub enum MarkerKind {
    /// Lights a stage: `[TOKEN: Raw]`.
    StepStarted,
    /// Marks it complete.
    StepFinished,
    /// A new pass; the stepper restarts rather than appearing to jump back.
    Run,
    /// A verdict the run reached about itself, passed or failed.
    Result,
    /// A header line in a script: `# TOKEN: category=...`.
    ScriptHeader,
    /// A header line declaring one flag: `# TOKEN: --apply  help`.
    ArgHeader,
    /// A header line declaring a flag that takes a value from a list.
    ChoiceHeader,
}

pub open spec fn is_header_kind(k: MarkerKind) -> bool {
    k == MarkerKind::ScriptHeader || k == MarkerKind::ArgHeader || k == MarkerKind::ChoiceHeader
}

impl MarkerKind {
    /// Every kind, in the order the settings tab lists them.
    pub fn all() -> (r: Vec<MarkerKind>)
        ensures
            r@ == seq![
                MarkerKind::StepStarted,
                MarkerKind::StepFinished,
                MarkerKind::Run,
                MarkerKind::Result,
                MarkerKind::ScriptHeader,
                MarkerKind::ArgHeader,
                MarkerKind::ChoiceHeader,
            ],
    {
        let mut r = Vec::new();
        r.push(MarkerKind::StepStarted);
        r.push(MarkerKind::StepFinished);
        r.push(MarkerKind::Run);
        r.push(MarkerKind::Result);
        r.push(MarkerKind::ScriptHeader);
        r.push(MarkerKind::ArgHeader);
        r.push(MarkerKind::ChoiceHeader);
        r
    }

    pub fn label(&self) -> (r: &'static str)
        ensures
            r@ == (match *self {
                MarkerKind::StepStarted => "Step started"@,
                MarkerKind::StepFinished => "Step finished"@,
                MarkerKind::Run => "Run"@,
                MarkerKind::Result => "Result"@,
                MarkerKind::ScriptHeader => "Script header"@,
                MarkerKind::ArgHeader => "Argument header"@,
                MarkerKind::ChoiceHeader => "Choice header"@,
            }),
    {
        match self {
            MarkerKind::StepStarted => "Step started",
            MarkerKind::StepFinished => "Step finished",
            MarkerKind::Run => "Run",
            MarkerKind::Result => "Result",
            MarkerKind::ScriptHeader => "Script header",
            MarkerKind::ArgHeader => "Argument header",
            MarkerKind::ChoiceHeader => "Choice header",
        }
    }

    pub fn example(&self) -> (r: &'static str)
        ensures
            r@ == (match *self {
                MarkerKind::StepStarted | MarkerKind::StepFinished => "[TOKEN: Raw]"@,
                MarkerKind::Run => "[TOKEN: flow_1]"@,
                MarkerKind::Result => "[TOKEN: PASS flow_1]"@,
                MarkerKind::ScriptHeader => "# TOKEN: category=Flows; steps=..."@,
                MarkerKind::ArgHeader => "# TOKEN: --apply  help text"@,
                MarkerKind::ChoiceHeader => "# TOKEN: --case @tools/list.csv:column  help text"@,
            }),
    {
        match self {
            MarkerKind::StepStarted | MarkerKind::StepFinished => "[TOKEN: Raw]",
            MarkerKind::Run => "[TOKEN: flow_1]",
            MarkerKind::Result => "[TOKEN: PASS flow_1]",
            MarkerKind::ScriptHeader => "# TOKEN: category=Flows; steps=...",
            MarkerKind::ArgHeader => "# TOKEN: --apply  help text",
            MarkerKind::ChoiceHeader => "# TOKEN: --case @tools/list.csv:column  help text",
        }
    }

    /// Headers run to the end of the line; the rest are bracketed.
    pub fn is_header(&self) -> (b: bool)
        ensures
            b == is_header_kind(*self),
    {
        match self {
            MarkerKind::ScriptHeader | MarkerKind::ArgHeader | MarkerKind::ChoiceHeader => true,
            _ => false,
        }
    }
}

#[derive(Clone, PartialEq, Eq, Debug)]
pub struct MarkerDef {
    /// Without brackets or the colon: `CDW_STEP`, not `[CDW_STEP:`.
    pub token: String,
    pub kind: MarkerKind,
}

#[derive(Clone, PartialEq, Eq, Debug)]
pub struct MarkerSyntax {
    pub markers: Vec<MarkerDef>,
}

/// What one marker token finds in a line: a header's text after `TOKEN:`,
/// or a bracketed marker's trimmed text between `[TOKEN:` and the next `]`.
pub open spec fn def_payload(token: Seq<char>, line: Seq<char>, header: bool) -> Option<Seq<char>> {
    if header {
        match find(line, token.push(':')) {
            Some(i) => Some(line.skip(i + token.len() + 1)),
            None => None,
        }
    } else {
        let open = seq!['['] + token.push(':');
        match find(line, open) {
            Some(start) => {
                let rest = line.skip(start + open.len());
                match first_hit(rest, Delim::One(']')) {
                    Some(end) => Some(trim(rest.take(end))),
                    None => None,
                }
            },
            None => None,
        }
    }
}

/// The payload of the first marker of `kind`, from index `i` of the list on,
/// with a non-empty token that finds one in `line`.
pub open spec fn payload_from(defs: Seq<MarkerDef>, line: Seq<char>, kind: MarkerKind, i: int) -> Option<
    Seq<char>,
>
    decreases defs.len() - i,
{
    if i < 0 || i >= defs.len() {
        None
    } else if defs[i].kind == kind && defs[i].token@.len() > 0 && def_payload(
        defs[i].token@,
        line,
        is_header_kind(kind),
    ) is Some {
        def_payload(defs[i].token@, line, is_header_kind(kind))
    } else {
        payload_from(defs, line, kind, i + 1)
    }
}

pub open spec fn payload_spec(syntax: MarkerSyntax, line: Seq<char>, kind: MarkerKind) -> Option<Seq<char>> {
    payload_from(syntax.markers@, line, kind, 0)
}

/// `clean_token`: trimmed, then leading `[`s, trailing `]`s and trailing `:`s
/// dropped, then trimmed again.
pub open spec fn clean_token_spec(raw: Seq<char>) -> Seq<char> {
    trim(strip_end(strip_end(strip_start(trim(raw), Delim::One('[')), Delim::One(']')), Delim::One(':')))
}

pub open spec fn is_default_def(d: MarkerDef, token: &str, kind: MarkerKind) -> bool {
    d.token@ == token@ && d.kind == kind
}

/// The markers a fresh install starts with.
pub open spec fn is_default_syntax(s: MarkerSyntax) -> bool {
    let m = s.markers@;
    &&& m.len() == 7
    &&& is_default_def(m[0], "CDW_STEP", MarkerKind::StepStarted)
    &&& is_default_def(m[1], "CDW_STEP_DONE", MarkerKind::StepFinished)
    &&& is_default_def(m[2], "CDW_RUN", MarkerKind::Run)
    &&& is_default_def(m[3], "CDW_RESULT", MarkerKind::Result)
    &&& is_default_def(m[4], "CDW_SCRIPT", MarkerKind::ScriptHeader)
    &&& is_default_def(m[5], "CDW_ARG", MarkerKind::ArgHeader)
    &&& is_default_def(m[6], "CDW_CHOICE", MarkerKind::ChoiceHeader)
}

fn default_def(token: &str, kind: MarkerKind) -> (d: MarkerDef)
    ensures
        is_default_def(d, token, kind),
{
    MarkerDef { token: string_of(chars_of(token).as_slice()), kind }
}

impl MarkerSyntax {
    /// The default marker list.
    pub fn defaults() -> (s: Self)
        ensures
            is_default_syntax(s),
    {
        let mut markers: Vec<MarkerDef> = Vec::new();
        markers.push(default_def("CDW_STEP", MarkerKind::StepStarted));
        markers.push(default_def("CDW_STEP_DONE", MarkerKind::StepFinished));
        markers.push(default_def("CDW_RUN", MarkerKind::Run));
        markers.push(default_def("CDW_RESULT", MarkerKind::Result));
        markers.push(default_def("CDW_SCRIPT", MarkerKind::ScriptHeader));
        markers.push(default_def("CDW_ARG", MarkerKind::ArgHeader));
        markers.push(default_def("CDW_CHOICE", MarkerKind::ChoiceHeader));
        MarkerSyntax { markers }
    }

    /// The payload of the first marker of `kind` that `line` carries. Empty
    /// tokens match nothing, and a bracket that is never closed is no marker.
    pub fn payload<'a>(&self, line: &'a str, kind: MarkerKind) -> (r: Option<&'a str>)
        ensures
            r matches Some(p) ==> payload_spec(*self, line@, kind) == Some(p@),
            r is None ==> payload_spec(*self, line@, kind) is None,
    {
        let chars = chars_of(line);
        let header = kind.is_header();
        let mut i: usize = 0;
        while i < self.markers.len()
            invariant
                0 <= i <= self.markers@.len(),
                chars@ == line@,
                header == is_header_kind(kind),
                payload_spec(*self, line@, kind) == payload_from(self.markers@, line@, kind, i as int),
            decreases self.markers.len() - i,
        {
            let def = &self.markers[i];
            if def.kind == kind && !def.token.as_str().is_empty() {
                let mut pat: Vec<char> = Vec::new();
                if !header {
                    pat.push('[');
                }
                push_all(&mut pat, &chars_of(def.token.as_str()));
                pat.push(':');
                proof {
                    assert(def.token@.len() > 0);
                }
                match find_of(&chars, &pat) {
                    Some(start) => {
                        let after = start + pat.len();
                        if header {
                            proof {
                                assert(pat@ =~= def.token@.push(':'));
                            }
                            return Some(line.substring_char(after, chars.len()));
                        } else {
                            proof {
                                assert(pat@ =~= seq!['['] + def.token@.push(':'));
                            }
                            let rest = slice(&chars, after, chars.len());
                            match first_hit_of(&rest, Delim::One(']')) {
                                Some(end) => {
                                    let inner = slice(&rest, 0, end);
                                    let (a, b) = trim_bounds(&inner);
                                    proof {
                                        assert(rest@.take(end as int) =~= inner@);
                                        assert(inner@.subrange(a as int, b as int) =~= chars@.subrange(
                                            after + a,
                                            after + b,
                                        ));
                                    }
                                    return Some(line.substring_char(after + a, after + b));
                                },
                                None => {},
                            }
                        }
                    },
                    None => {},
                }
            }
            i += 1;
        }
        None
    }

    /// Strip what a user is likely to paste: `[CDW_STEP:` becomes `CDW_STEP`.
    pub fn clean_token(raw: &str) -> (r: String)
        ensures
            r@ == clean_token_spec(raw@),
    {
        let t = trim_of(&chars_of(raw));
        let a = strip_start_of(&t, Delim::One('['));
        let b = strip_end_of(&a, Delim::One(']'));
        let c = strip_end_of(&b, Delim::One(':'));
        let d = trim_of(&c);
        string_of(d.as_slice())
    }
}

proof fn lemma_push_keeps_found(defs: Seq<MarkerDef>, d: MarkerDef, line: Seq<char>, kind: MarkerKind, i: int)
    requires
        0 <= i,
        payload_from(defs, line, kind, i) is Some,
    ensures
        payload_from(defs.push(d), line, kind, i) == payload_from(defs, line, kind, i),
    decreases defs.len() - i,
{
    if i < defs.len() {
        assert(defs.push(d)[i] == defs[i]);
        if !(defs[i].kind == kind && defs[i].token@.len() > 0 && def_payload(
            defs[i].token@,
            line,
            is_header_kind(kind),
        ) is Some) {
            lemma_push_keeps_found(defs, d, line, kind, i + 1);
        }
    }
}

proof fn lemma_blank_tokens_find_nothing(defs: Seq<MarkerDef>, line: Seq<char>, kind: MarkerKind, i: int)
    requires
        0 <= i,
        forall|j: int| 0 <= j < defs.len() && #[trigger] defs[j].kind == kind ==> defs[j].token@.len() == 0,
    ensures
        payload_from(defs, line, kind, i) is None,
    decreases defs.len() - i,
{
    if i < defs.len() {
        lemma_blank_tokens_find_nothing(defs, line, kind, i + 1);
    }
}

/// Adding a marker never displaces one that already matched: whatever a line
/// yielded before the new marker was appended, it still yields.
pub proof fn law_adding_a_marker_displaces_nothing(
    before: MarkerSyntax,
    after: MarkerSyntax,
    added: MarkerDef,
    line: Seq<char>,
    kind: MarkerKind,
)
    requires
        after.markers@ == before.markers@.push(added),
        payload_spec(before, line, kind) is Some,
    ensures
        payload_spec(after, line, kind) == payload_spec(before, line, kind),
{
    lemma_push_keeps_found(before.markers@, added, line, kind, 0);
}

/// A marker with an empty token matches nothing rather than everything: a
/// list whose every marker of a kind is blank finds no payload of that kind
/// in any line, and an empty list finds none of any kind.
pub proof fn law_blank_tokens_match_nothing(s: MarkerSyntax, line: Seq<char>, kind: MarkerKind)
    requires
        forall|j: int|
            0 <= j < s.markers@.len() && #[trigger] s.markers@[j].kind == kind
                ==> s.markers@[j].token@.len() == 0,
    ensures
        payload_spec(s, line, kind) is None,
{
    lemma_blank_tokens_find_nothing(s.markers@, line, kind, 0);
}

impl Default for MarkerSyntax {
    fn default() -> (s: Self)
        ensures
            is_default_syntax(s),
    {
        MarkerSyntax::defaults()
    }
}

} // verus!
