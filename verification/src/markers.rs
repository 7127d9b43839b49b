//! Reading one line of script output as a marker.

use vstd::prelude::*;
use crate::marker_syntax::{payload_spec, MarkerKind, MarkerSyntax};
use crate::steps::{norm, normalise_chars, resolve_spec, StepCatalog};
use crate::text::{chars_of, lit, eq_of, split_once, split_once_of, string_of, trim, trim_of, Delim};

verus! {

/// One understood marker.
#[derive(Clone, PartialEq, Debug)]
pub enum Marker {
    /// A step has started.
    Step(String),
    /// A step has finished.
    StepDone(String),
    /// A new pass over the chain; the stepper starts over.
    Run(String),
    /// A run's verdict about itself.
    Result { ok: bool, label: String },
}

/// A marker with its text as character sequences.
pub enum MarkerView {
    Step(Seq<char>),
    StepDone(Seq<char>),
    Run(Seq<char>),
    Result { ok: bool, label: Seq<char> },
}

impl View for Marker {
    type V = MarkerView;

    open spec fn view(&self) -> MarkerView {
        match self {
            Marker::Step(s) => MarkerView::Step(s@),
            Marker::StepDone(s) => MarkerView::StepDone(s@),
            Marker::Run(s) => MarkerView::Run(s@),
            Marker::Result { ok, label } => MarkerView::Result { ok: *ok, label: label@ },
        }
    }
}

pub open spec fn is_pass_word(w: Seq<char>) -> bool {
    w == "pass"@ || w == "passed"@ || w == "ok"@ || w == "success"@
}

pub open spec fn is_fail_word(w: Seq<char>) -> bool {
    w == "fail"@ || w == "failed"@ || w == "error"@
}

/// A verdict payload: its first word, folded, must be a known verdict word;
/// the rest, trimmed, is the label.
pub open spec fn verdict_spec(raw: Seq<char>) -> Option<MarkerView> {
    let (word, rest) = match split_once(raw, Delim::Space) {
        Some(p) => p,
        None => (raw, Seq::empty()),
    };
    if is_pass_word(norm(word)) {
        Some(MarkerView::Result { ok: true, label: trim(rest) })
    } else if is_fail_word(norm(word)) {
        Some(MarkerView::Result { ok: false, label: trim(rest) })
    } else {
        None
    }
}

/// What a line means. A completion is looked for before a start, so a start
/// token that is a prefix of the completion token cannot shadow it.
pub open spec fn parse_spec(line: Seq<char>, catalog: StepCatalog, syntax: MarkerSyntax) -> Option<
    MarkerView,
> {
    if payload_spec(syntax, line, MarkerKind::StepFinished) is Some {
        match resolve_spec(catalog.steps@, payload_spec(syntax, line, MarkerKind::StepFinished)->0) {
            Some(id) => Some(MarkerView::StepDone(id)),
            None => None,
        }
    } else if payload_spec(syntax, line, MarkerKind::StepStarted) is Some {
        match resolve_spec(catalog.steps@, payload_spec(syntax, line, MarkerKind::StepStarted)->0) {
            Some(id) => Some(MarkerView::Step(id)),
            None => None,
        }
    } else if payload_spec(syntax, line, MarkerKind::Run) is Some {
        Some(MarkerView::Run(payload_spec(syntax, line, MarkerKind::Run)->0))
    } else if payload_spec(syntax, line, MarkerKind::Result) is Some {
        verdict_spec(payload_spec(syntax, line, MarkerKind::Result)->0)
    } else {
        None
    }
}

fn word_in(w: &Vec<char>, a: &str) -> (b: bool)
    ensures
        b == (w@ == a@),
{
    eq_of(w, &lit(a))
}

fn verdict(raw: &str) -> (r: Option<Marker>)
    ensures
        r matches Some(m) ==> verdict_spec(raw@) == Some(m@),
        r is None ==> verdict_spec(raw@) is None,
{
    let chars = chars_of(raw);
    let (word, rest) = match split_once_of(&chars, Delim::Space) {
        Some(p) => p,
        None => (chars, Vec::new()),
    };
    let w = normalise_chars(&word);
    let label = string_of(trim_of(&rest).as_slice());
    if word_in(&w, "pass") || word_in(&w, "passed") || word_in(&w, "ok") || word_in(&w, "success") {
        Some(Marker::Result { ok: true, label })
    } else if word_in(&w, "fail") || word_in(&w, "failed") || word_in(&w, "error") {
        Some(Marker::Result { ok: false, label })
    } else {
        None
    }
}

/// Parse one line of script output.
pub fn parse(line: &str, catalog: &StepCatalog, syntax: &MarkerSyntax) -> (r: Option<Marker>)
    ensures
        r matches Some(m) ==> parse_spec(line@, *catalog, *syntax) == Some(m@),
        r is None ==> parse_spec(line@, *catalog, *syntax) is None,
{
    if let Some(raw) = syntax.payload(line, MarkerKind::StepFinished) {
        return match catalog.resolve(raw) {
            Some(id) => Some(Marker::StepDone(id)),
            None => None,
        };
    }
    if let Some(raw) = syntax.payload(line, MarkerKind::StepStarted) {
        return match catalog.resolve(raw) {
            Some(id) => Some(Marker::Step(id)),
            None => None,
        };
    }
    if let Some(raw) = syntax.payload(line, MarkerKind::Run) {
        return Some(Marker::Run(string_of(chars_of(raw).as_slice())));
    }
    if let Some(raw) = syntax.payload(line, MarkerKind::Result) {
        return verdict(raw);
    }
    None
}

/// True when a line carries a verdict token but no readable verdict. A step
/// marker naming an unconfigured step is not reported.
pub fn is_unrecognised(line: &str, catalog: &StepCatalog, syntax: &MarkerSyntax) -> (b: bool)
    ensures
        b == (payload_spec(*syntax, line@, MarkerKind::Result) is Some && parse_spec(
            line@,
            *catalog,
            *syntax,
        ) is None),
{
    syntax.payload(line, MarkerKind::Result).is_some() && parse(line, catalog, syntax).is_none()
}

/// A line that carries a completion marker is never read as a start, whatever
/// the tokens are; with the default tokens the start token is a prefix of the
/// completion token, and the completion still wins.
pub proof fn law_a_completion_is_never_read_as_a_start(line: Seq<char>, catalog: StepCatalog, syntax: MarkerSyntax)
    requires
        payload_spec(syntax, line, MarkerKind::StepFinished) is Some,
    ensures
        !(parse_spec(line, catalog, syntax) matches Some(MarkerView::Step(_))),
{
}

/// A verdict is never guessed: every verdict read from a line says pass only
/// when its first word is a pass word and fail only when it is a fail word.
pub proof fn law_a_verdict_is_never_guessed(line: Seq<char>, catalog: StepCatalog, syntax: MarkerSyntax)
    requires
        parse_spec(line, catalog, syntax) matches Some(MarkerView::Result { .. }),
    ensures
        payload_spec(syntax, line, MarkerKind::Result) is Some,
        ({
            let raw = payload_spec(syntax, line, MarkerKind::Result)->0;
            let word = match split_once(raw, Delim::Space) {
                Some(p) => p.0,
                None => raw,
            };
            let ok = parse_spec(line, catalog, syntax)->0->ok;
            &&& ok ==> is_pass_word(norm(word))
            &&& !ok ==> is_fail_word(norm(word))
        }),
{
}

} // verus!
