//! The monitoring probe: what it is asked, the shell line that asks it, and
//! how its output is read.

use vstd::prelude::*;
use crate::text::{
    to_lowercase, to_uppercase, unicode_lower, unicode_upper,
    chars_of, lines, lines_of, lit, push_all, starts_with, strip_start, strip_start_of, string_of,
    views, Delim,
};

verus! {

/// One probe call's answer.
#[derive(Clone, Debug, PartialEq)]
pub enum Probe<T> {
    /// The probe answered with `status: "ok"`.
    Answer { data: T },
    Auth { message: String },
    Unavailable { message: String },
    Error { message: String },
}

#[derive(Clone, Debug, PartialEq)]
pub enum Request {
    Overview,
    Trace(String),
    DeadLetters,
    Timing,
}

pub open spec fn request_args(r: Request) -> Seq<Seq<char>> {
    match r {
        Request::Overview => seq!["overview"@],
        Request::Trace(q) => seq!["trace"@, q@],
        Request::DeadLetters => seq!["deadletters"@],
        Request::Timing => seq!["timing"@],
    }
}

pub open spec fn strings_view(v: Seq<String>) -> Seq<Seq<char>> {
    v.map_values(|s: String| s@)
}

impl Request {
    /// The probe's command-line arguments for this request.
    pub fn args(&self) -> (r: Vec<String>)
        ensures
            strings_view(r@) == request_args(*self),
    {
        let mut r: Vec<String> = Vec::new();
        match self {
            Request::Overview => r.push(string_of(lit("overview").as_slice())),
            Request::Trace(q) => {
                r.push(string_of(lit("trace").as_slice()));
                r.push(q.clone());
            },
            Request::DeadLetters => r.push(string_of(lit("deadletters").as_slice())),
            Request::Timing => r.push(string_of(lit("timing").as_slice())),
        }
        proof {
            assert(strings_view(r@) =~= request_args(*self));
        }
        r
    }
}

/// Each `'` replaced by `'\''`.
pub open spec fn escape_quotes(s: Seq<char>) -> Seq<char>
    decreases s.len(),
{
    if s.len() == 0 {
        Seq::empty()
    } else if s.last() == '\'' {
        escape_quotes(s.drop_last()) + seq!['\'', '\\', '\'', '\'']
    } else {
        escape_quotes(s.drop_last()).push(s.last())
    }
}

/// A single-quoted shell word that reads back as exactly `s`.
pub open spec fn quote_spec(s: Seq<char>) -> Seq<char> {
    seq!['\''] + escape_quotes(s) + seq!['\'']
}

/// Characters that end a shell word, or start something other than text,
/// when they stand outside quotes.
pub open spec fn is_shell_special(c: char) -> bool {
    c == ' ' || c == '\t' || c == '\n' || c == ';' || c == '&' || c == '|' || c == '<' || c == '>'
        || c == '(' || c == ')' || c == '$' || c == '`' || c == '"' || c == '*' || c == '?'
        || c == '[' || c == '#' || c == '~'
}

/// The text after `p`, when there is one.
pub open spec fn after(p: Seq<char>, r: Option<Seq<char>>) -> Option<Seq<char>> {
    match r {
        Some(x) => Some(p + x),
        None => None,
    }
}

/// How `sh` reads text as a single word: single quotes keep everything up
/// to the next quote, a backslash outside quotes keeps the next character.
/// `None` when the text is not one plain word: a quote left open, or a
/// character outside quotes that would end the word or expand.
pub open spec fn shell_word(t: Seq<char>, quoted: bool) -> Option<Seq<char>>
    decreases t.len(),
{
    if t.len() == 0 {
        if quoted { None } else { Some(seq![]) }
    } else if quoted {
        if t[0] == '\'' {
            shell_word(t.drop_first(), false)
        } else {
            after(seq![t[0]], shell_word(t.drop_first(), true))
        }
    } else if t[0] == '\'' {
        shell_word(t.drop_first(), true)
    } else if t[0] == '\\' {
        if t.len() >= 2 {
            after(seq![t[1]], shell_word(t.skip(2), false))
        } else {
            None
        }
    } else if is_shell_special(t[0]) {
        None
    } else {
        after(seq![t[0]], shell_word(t.drop_first(), false))
    }
}

proof fn lemma_escaped_reads_back(s: Seq<char>, rest: Seq<char>)
    ensures
        shell_word(escape_quotes(s) + rest, true) == after(s, shell_word(rest, true)),
    decreases s.len(),
{
    if s.len() == 0 {
        assert(escape_quotes(s) + rest =~= rest);
        assert(s =~= Seq::<char>::empty());
        match shell_word(rest, true) {
            Some(x) => assert(s + x =~= x),
            None => {},
        }
    } else {
        let c = s.last();
        let init = s.drop_last();
        let tail = if c == '\'' { seq!['\'', '\\', '\'', '\''] + rest } else { seq![c] + rest };
        assert(escape_quotes(s) + rest =~= escape_quotes(init) + tail);
        lemma_escaped_reads_back(init, tail);
        if c == '\'' {
            let t2 = seq!['\\', '\'', '\''] + rest;
            let t3 = seq!['\''] + rest;
            assert(tail.drop_first() =~= t2);
            assert(tail[0] == '\'');
            assert(shell_word(tail, true) == shell_word(t2, false));
            assert(t2.skip(2) =~= t3);
            assert(t2[0] == '\\' && t2[1] == '\'');
            assert(shell_word(t2, false) == after(seq!['\''], shell_word(t3, false)));
            assert(t3.drop_first() =~= rest);
            assert(t3[0] == '\'');
            assert(shell_word(t3, false) == shell_word(rest, true));
        } else {
            assert(tail.drop_first() =~= rest);
        }
        match shell_word(rest, true) {
            Some(x) => {
                assert(init + (seq![c] + x) =~= s + x);
            },
            None => {},
        }
    }
}

/// Whatever the text, its quoted form reads back in `sh` as exactly that
/// text, as one word: nothing in it can end the quoting.
pub proof fn law_quoted_text_reads_back(s: Seq<char>)
    ensures
        shell_word(quote_spec(s), false) == Some(s),
{
    let q = quote_spec(s);
    assert(q.drop_first() =~= escape_quotes(s) + seq!['\'']);
    assert(q[0] == '\'');
    assert(shell_word(q, false) == shell_word(q.drop_first(), true));
    lemma_escaped_reads_back(s, seq!['\'']);
    let e = seq!['\''];
    assert(e.drop_first() =~= Seq::<char>::empty());
    assert(e[0] == '\'');
    assert(shell_word(e, true) == shell_word(e.drop_first(), false));
    assert(shell_word(e, true) == Some(Seq::<char>::empty()));
    assert(s + Seq::<char>::empty() =~= s);
}

pub fn quote_chars(s: &Vec<char>) -> (r: Vec<char>)
    ensures
        r@ == quote_spec(s@),
{
    let mut r: Vec<char> = Vec::new();
    r.push('\'');
    let mut i: usize = 0;
    while i < s.len()
        invariant
            0 <= i <= s.len(),
            r@ == seq!['\''] + escape_quotes(s@.take(i as int)),
        decreases s.len() - i,
    {
        proof {
            assert(s@.take(i + 1).drop_last() =~= s@.take(i as int));
        }
        let ghost before = r@;
        if s[i] == '\'' {
            r.push('\'');
            r.push('\\');
            r.push('\'');
            r.push('\'');
            proof {
                assert(r@ =~= seq!['\''] + escape_quotes(s@.take(i + 1)));
            }
        } else {
            r.push(s[i]);
            proof {
                assert(r@ =~= seq!['\''] + escape_quotes(s@.take(i + 1)));
            }
        }
        i += 1;
    }
    proof {
        assert(s@.take(s.len() as int) =~= s@);
    }
    r.push('\'');
    r
}

/// Quote one shell word so nothing in it can end the quoting.
pub fn quote(arg: &str) -> (r: String)
    ensures
        r@ == quote_spec(arg@),
{
    string_of(quote_chars(&chars_of(arg)).as_slice())
}

/// ` 'a' 'b'`: each argument quoted, each preceded by a space.
pub open spec fn quoted_args(args: Seq<Seq<char>>) -> Seq<char>
    decreases args.len(),
{
    if args.len() == 0 {
        Seq::empty()
    } else {
        quoted_args(args.drop_last()) + seq![' '] + quote_spec(args.last())
    }
}

pub fn quoted_args_of(args: &Vec<String>) -> (r: Vec<char>)
    ensures
        r@ == quoted_args(strings_view(args@)),
{
    let mut r: Vec<char> = Vec::new();
    let mut i: usize = 0;
    while i < args.len()
        invariant
            0 <= i <= args.len(),
            r@ == quoted_args(strings_view(args@).take(i as int)),
        decreases args.len() - i,
    {
        proof {
            assert(strings_view(args@).take(i + 1).drop_last() =~= strings_view(args@).take(i as int));
            assert(strings_view(args@).take(i + 1).last() == args@[i as int]@);
        }
        r.push(' ');
        push_all(&mut r, &quote_chars(&chars_of(args[i].as_str())));
        i += 1;
    }
    proof {
        assert(strings_view(args@).take(args.len() as int) =~= strings_view(args@));
    }
    r
}

/// The `bash -c` text that runs the probe for `env`: the environment's own
/// Azure CLI profile when it has one, the platform variables silenced, then
/// the probe with its quoted arguments.
pub open spec fn probe_command_spec(env: Seq<char>, request: Request, probe: Seq<char>, profile: Option<Seq<char>>) -> Seq<char> {
    let prefix = match profile {
        Some(dir) => "export AZURE_CONFIG_DIR="@ + quote_spec(dir) + "; "@,
        None => Seq::empty(),
    };
    prefix + "export CDW_ENV="@ + quote_spec(env)
        + "; source deploy/00-variables.sh >/dev/null 2>&1 && exec .venv/bin/python "@
        + quote_spec(probe) + quoted_args(request_args(request))
}

pub open spec fn opt_view(o: Option<&str>) -> Option<Seq<char>> {
    match o {
        Some(s) => Some(s@),
        None => None,
    }
}

pub fn command_line(env: &str, request: &Request, probe: &str, profile: Option<&str>) -> (r: String)
    ensures
        r@ == probe_command_spec(env@, *request, probe@, opt_view(profile)),
{
    let mut out: Vec<char> = Vec::new();
    match profile {
        Some(dir) => {
            push_all(&mut out, &lit("export AZURE_CONFIG_DIR="));
            push_all(&mut out, &quote_chars(&chars_of(dir)));
            push_all(&mut out, &lit("; "));
        },
        None => {},
    }
    push_all(&mut out, &lit("export CDW_ENV="));
    push_all(&mut out, &quote_chars(&chars_of(env)));
    push_all(&mut out, &lit("; source deploy/00-variables.sh >/dev/null 2>&1 && exec .venv/bin/python "));
    push_all(&mut out, &quote_chars(&chars_of(probe)));
    let args = request.args();
    push_all(&mut out, &quoted_args_of(&args));
    proof {
        assert(out@ =~= probe_command_spec(env@, *request, probe@, opt_view(profile)));
    }
    string_of(out.as_slice())
}

/// The index of the last line, counting back from `k`, whose text after
/// leading whitespace starts with `{`.
pub open spec fn last_json_from(ls: Seq<Seq<char>>, k: int) -> Option<int>
    decreases k,
{
    if k <= 0 || k > ls.len() {
        None
    } else if starts_with(strip_start(ls[k - 1], Delim::Space), seq!['{']) {
        Some(k - 1)
    } else {
        last_json_from(ls, k - 1)
    }
}

/// The probe's answer: the last stdout line that opens a JSON object, past
/// whatever SDK warnings precede it.
pub open spec fn answer_line_spec(stdout: Seq<char>) -> Option<Seq<char>> {
    match last_json_from(lines(stdout), lines(stdout).len() as int) {
        Some(k) => Some(lines(stdout)[k]),
        None => None,
    }
}

pub fn answer_line(stdout: &str) -> (r: Option<String>)
    ensures
        r matches Some(l) ==> answer_line_spec(stdout@) == Some(l@),
        r is None ==> answer_line_spec(stdout@) is None,
{
    let ls = lines_of(&chars_of(stdout));
    let ghost lv = lines(stdout@);
    let mut k: usize = ls.len();
    while k > 0
        invariant
            0 <= k <= ls@.len(),
            views(ls@) == lv,
            lv == lines(stdout@),
            lv.len() == ls@.len(),
            last_json_from(lv, lv.len() as int) == last_json_from(lv, k as int),
        decreases k,
    {
        proof {
            assert(lv[k - 1] == ls@[k - 1]@);
        }
        let t = strip_start_of(&ls[k - 1], Delim::Space);
        if t.len() > 0 && t[0] == '{' {
            proof {
                assert(t@.subrange(0, 1) =~= seq!['{']);
                assert(starts_with(t@, seq!['{']));
            }
            return Some(string_of(ls[k - 1].as_slice()));
        }
        proof {
            if starts_with(t@, seq!['{']) {
                assert(t@.subrange(0, 1)[0] == t@[0]);
                assert(t@[0] == seq!['{'][0]);
            }
        }
        k -= 1;
    }
    None
}

/// ` ⏎ `-joined lines.
pub open spec fn join_returns(ls: Seq<Seq<char>>) -> Seq<char>
    decreases ls.len(),
{
    if ls.len() == 0 {
        Seq::empty()
    } else if ls.len() == 1 {
        ls[0]
    } else {
        join_returns(ls.drop_last()) + " ⏎ "@ + ls.last()
    }
}

/// The last (at most six) lines.
pub open spec fn tail6(ls: Seq<Seq<char>>) -> Seq<Seq<char>> {
    if ls.len() <= 6 {
        ls
    } else {
        ls.skip(ls.len() - 6)
    }
}

/// What is reported when the probe printed no answer: its last stderr lines,
/// so the cause is on screen rather than nothing.
pub open spec fn no_answer_spec(stderr: Seq<char>) -> Seq<char> {
    let tail = tail6(lines(stderr));
    if tail.len() == 0 {
        "The probe exited without a result."@
    } else {
        "The probe exited without a result: "@ + join_returns(tail)
    }
}

pub fn no_answer_message(stderr: &str) -> (r: String)
    ensures
        r@ == no_answer_spec(stderr@),
{
    let ls = lines_of(&chars_of(stderr));
    let ghost lv = lines(stderr@);
    let from: usize = if ls.len() <= 6 { 0 } else { ls.len() - 6 };
    let ghost tail = tail6(lv);
    proof {
        assert(tail =~= views(ls@).skip(from as int));
    }
    if from == ls.len() {
        return string_of(lit("The probe exited without a result.").as_slice());
    }
    let mut out = lit("The probe exited without a result: ");
    let ghost head = out@;
    push_all(&mut out, &ls[from]);
    let mut i: usize = from + 1;
    proof {
        assert(tail.take(1).drop_last() =~= Seq::<Seq<char>>::empty());
        assert(out@ == head + join_returns(tail.take((i - from) as int)));
    }
    while i < ls.len()
        invariant
            0 <= from < i <= ls@.len(),
            views(ls@) == lv,
            tail == views(ls@).skip(from as int),
            out@ == head + join_returns(tail.take((i - from) as int)),
        decreases ls.len() - i,
    {
        proof {
            assert(tail.take((i + 1 - from) as int).drop_last() =~= tail.take((i - from) as int));
            assert(tail.take((i + 1 - from) as int).last() == ls@[i as int]@);
        }
        push_all(&mut out, &lit(" ⏎ "));
        push_all(&mut out, &ls[i]);
        i += 1;
    }
    proof {
        assert(tail.take((i - from) as int) =~= tail);
    }
    string_of(out.as_slice())
}


/// The Azure CLI profile directories, under `~/.azure`, an environment may
/// have: its name upper-cased, then lower-cased. The first that exists is used.
pub fn azure_profile_names(env: &str) -> (r: Vec<String>)
    ensures
        strings_view(r@) == seq!["sbm-"@ + unicode_upper(env@), "sbm-"@ + unicode_lower(env@)],
{
    let mut upper = lit("sbm-");
    push_all(&mut upper, &chars_of(to_uppercase(env).as_str()));
    let mut lower = lit("sbm-");
    push_all(&mut lower, &chars_of(to_lowercase(env).as_str()));
    let mut r: Vec<String> = Vec::new();
    r.push(string_of(upper.as_slice()));
    r.push(string_of(lower.as_slice()));
    proof {
        assert(strings_view(r@) =~= seq!["sbm-"@ + unicode_upper(env@), "sbm-"@ + unicode_lower(env@)]);
    }
    r
}
} // verus!
