//! The shell line that runs one script against an environment.

use vstd::prelude::*;
use crate::probe::{quote_spec, quoted_args, quoted_args_of, strings_view};
use crate::text::{chars_of, ends_with, ends_with_of, lit, push_all, string_of};

verus! {

/// Runs scripts; the spawning itself lives with the application, which
/// hands this library's command line to `bash -c`.
pub struct ScriptRunner;

/// The `bash -c` text for one script: the environment exported, the
/// platform variables sourced, then the script `exec`ed (so cancelling the
/// returned process stops the script itself) with each argument quoted on
/// its own. Python runs unbuffered from the project's virtualenv.
pub open spec fn script_command_spec(script: Seq<char>, env: Seq<char>, args: Seq<Seq<char>>) -> Seq<char> {
    let run = if ends_with(script, ".py"@) {
        "exec .venv/bin/python -u "@ + script + quoted_args(args)
    } else {
        "exec bash "@ + script + quoted_args(args)
    };
    "export CDW_ENV="@ + env + "; source deploy/00-variables.sh && "@ + run
}

pub fn command_line(script_path: &str, env_str: &str, args: &Vec<String>) -> (r: String)
    ensures
        r@ == script_command_spec(script_path@, env_str@, strings_view(args@)),
{
    let script = chars_of(script_path);
    let quoted = quoted_args_of(args);
    let mut out = lit("export CDW_ENV=");
    push_all(&mut out, &chars_of(env_str));
    push_all(&mut out, &lit("; source deploy/00-variables.sh && "));
    if ends_with_of(&script, &lit(".py")) {
        push_all(&mut out, &lit("exec .venv/bin/python -u "));
    } else {
        push_all(&mut out, &lit("exec bash "));
    }
    push_all(&mut out, &script);
    push_all(&mut out, &quoted);
    proof {
        assert(out@ =~= script_command_spec(script_path@, env_str@, strings_view(args@)));
    }
    string_of(out.as_slice())
}

/// Whatever the script, its arguments reach it: the command line exports the
/// environment and sources the platform variables first, and ends with every
/// argument quoted on its own, in order; one more argument adds exactly a
/// space and that argument quoted to the end of the line.
pub proof fn law_every_argument_reaches_the_script(script: Seq<char>, env: Seq<char>, args: Seq<Seq<char>>)
    ensures
        ({
            let r = script_command_spec(script, env, args);
            let q = quoted_args(args);
            let head = "export CDW_ENV="@ + env + "; source deploy/00-variables.sh && exec "@;
            &&& r.len() >= head.len() + q.len()
            &&& r.take(head.len() as int) == head
            &&& r.skip(r.len() - q.len()) == q
        }),
        args.len() > 0 ==> script_command_spec(script, env, args) == script_command_spec(
            script,
            env,
            args.drop_last(),
        ) + seq![' '] + quote_spec(args.last()),
{
    reveal_strlit("export CDW_ENV=");
    reveal_strlit("; source deploy/00-variables.sh && ");
    reveal_strlit("; source deploy/00-variables.sh && exec ");
    reveal_strlit("exec .venv/bin/python -u ");
    reveal_strlit("exec bash ");
    let r = script_command_spec(script, env, args);
    let q = quoted_args(args);
    let head = "export CDW_ENV="@ + env + "; source deploy/00-variables.sh && exec "@;
    let mid = "export CDW_ENV="@ + env + "; source deploy/00-variables.sh && "@;
    if ends_with(script, ".py"@) {
        let run = "exec .venv/bin/python -u "@ + script;
        assert(r =~= mid + run + q);
        assert(r.take(head.len() as int) =~= head);
        assert(r.skip(r.len() - q.len()) =~= q);
    } else {
        let run = "exec bash "@ + script;
        assert(r =~= mid + run + q);
        assert(r.take(head.len() as int) =~= head);
        assert(r.skip(r.len() - q.len()) =~= q);
    }
    if args.len() > 0 {
        assert(script_command_spec(script, env, args) =~= script_command_spec(script, env, args.drop_last()) + seq![' ']
            + quote_spec(args.last()));
    }
}

} // verus!
