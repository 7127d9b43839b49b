//! Small presentation rules of the desktop screens: the colour a script's
//! name carries, the icon of its group, and how short spans read.

use vstd::prelude::*;
use crate::state::{LogMsg, ScriptStatus, StreamType};
use crate::text::{chars_of, contains, contains_of, dec, dec_of, lit, push_all, string_of};
use crate::format::pad2;

verus! {

pub open spec fn name_class_spec(status: Option<ScriptStatus>, running: bool) -> Seq<char> {
    if running {
        "hidden min-w-0 truncate text-body-strong text-accent md:block"@
    } else {
        match status {
            Some(ScriptStatus::Succeeded) => "hidden min-w-0 truncate text-body text-success md:block"@,
            Some(ScriptStatus::Failed(c)) => if 300 <= c <= 499 {
                "hidden min-w-0 truncate text-body text-warn md:block"@
            } else {
                "hidden min-w-0 truncate text-body text-danger md:block"@
            },
            Some(ScriptStatus::AppError(_)) => "hidden min-w-0 truncate text-body text-danger md:block"@,
            Some(ScriptStatus::Cancelled) => "hidden min-w-0 truncate text-body text-warn md:block"@,
            _ => "hidden min-w-0 truncate text-body md:block"@,
        }
    }
}

/// The classes a script's name carries in the sidebar: green passed, red
/// failed, amber for a cancelled run or an exit code from 300 to 499,
/// neutral for a script never run; a running script shows as running.
pub fn name_class(status: Option<&ScriptStatus>, running: bool) -> (r: &'static str)
    ensures
        r@ == name_class_spec(match status {
            Some(s) => Some(*s),
            None => None,
        }, running),
{
    if running {
        return "hidden min-w-0 truncate text-body-strong text-accent md:block";
    }
    match status {
        Some(ScriptStatus::Succeeded) => "hidden min-w-0 truncate text-body text-success md:block",
        Some(ScriptStatus::Failed(c)) => if 300 <= *c && *c <= 499 {
            "hidden min-w-0 truncate text-body text-warn md:block"
        } else {
            "hidden min-w-0 truncate text-body text-danger md:block"
        },
        Some(ScriptStatus::AppError(_)) => "hidden min-w-0 truncate text-body text-danger md:block",
        Some(ScriptStatus::Cancelled) => "hidden min-w-0 truncate text-body text-warn md:block",
        _ => "hidden min-w-0 truncate text-body md:block",
    }
}

/// An icon per category, so the narrow rail still tells the groups apart.
pub fn category_icon(category: &str) -> (r: &'static str)
    ensures
        r@ == if category@ == "Flows"@ {
            "ph-flow-arrow"@
        } else if category@ == "Verification"@ {
            "ph-magnifying-glass"@
        } else if category@ == "Simulation"@ {
            "ph-flask"@
        } else if category@ == "Maintenance"@ {
            "ph-wrench"@
        } else {
            "ph-file-code"@
        },
{
    if crate::text::str_eq(category, "Flows") {
        "ph-flow-arrow"
    } else if crate::text::str_eq(category, "Verification") {
        "ph-magnifying-glass"
    } else if crate::text::str_eq(category, "Simulation") {
        "ph-flask"
    } else if crate::text::str_eq(category, "Maintenance") {
        "ph-wrench"
    } else {
        "ph-file-code"
    }
}

pub open spec fn is_error_line(l: LogMsg) -> bool {
    l.stream == StreamType::Stderr || contains(l.content@, "[ERROR]"@) || contains(l.content@, "[CRITICAL]"@)
}

/// A component whose trace holds a line on stderr, or a line carrying an
/// `[ERROR]` or `[CRITICAL]` tag, is flagged.
pub fn has_error(lines: &[LogMsg]) -> (b: bool)
    ensures
        b == exists|i: int| 0 <= i < lines@.len() && is_error_line(#[trigger] lines@[i]),
{
    let mut i: usize = 0;
    while i < lines.len()
        invariant
            i <= lines@.len(),
            forall|j: int| 0 <= j < i ==> !is_error_line(#[trigger] lines@[j]),
        decreases lines@.len() - i,
    {
        let c = chars_of(lines[i].content.as_str());
        if lines[i].stream == StreamType::Stderr || contains_of(&c, &lit("[ERROR]")) || contains_of(&c, &lit("[CRITICAL]")) {
            proof {
                assert(is_error_line(lines@[i as int]));
            }
            return true;
        }
        i += 1;
    }
    false
}

/// `45s`, `2m 05s`: a stage's elapsed time on the stepper.
pub open spec fn elapsed_spec(secs: nat) -> Seq<char> {
    if secs < 60 {
        dec(secs) + "s"@
    } else {
        dec(secs / 60) + "m "@ + pad2(secs % 60) + "s"@
    }
}

pub fn format_elapsed(secs: u64) -> (r: String)
    ensures
        r@ == elapsed_spec(secs as nat),
{
    let mut v: Vec<char>;
    if secs < 60 {
        v = dec_of(secs as u128);
        push_all(&mut v, &lit("s"));
    } else {
        v = dec_of((secs / 60) as u128);
        push_all(&mut v, &lit("m "));
        if secs % 60 < 10 {
            v.push('0');
        }
        push_all(&mut v, &dec_of((secs % 60) as u128));
        push_all(&mut v, &lit("s"));
    }
    string_of(v.as_slice())
}

/// `41s`, `2m 5s`: a run's duration in the history list.
pub open spec fn duration_spec(secs: int) -> Seq<char> {
    if secs < 60 {
        crate::text::dec_signed(secs) + "s"@
    } else {
        dec((secs / 60) as nat) + "m "@ + dec((secs % 60) as nat) + "s"@
    }
}

pub fn format_duration(secs: i64) -> (r: String)
    ensures
        r@ == duration_spec(secs as int),
{
    let mut v: Vec<char>;
    if secs < 60 {
        v = crate::text::dec_signed_of(secs);
        push_all(&mut v, &lit("s"));
    } else {
        v = dec_of((secs / 60) as u128);
        push_all(&mut v, &lit("m "));
        push_all(&mut v, &dec_of((secs % 60) as u128));
        push_all(&mut v, &lit("s"));
    }
    string_of(v.as_slice())
}

} // verus!
