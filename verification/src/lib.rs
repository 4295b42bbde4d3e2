//! A small command interpreter core: a POSIX-like tokenizer with quoting and
//! escaping, redirection extraction, command classification, executable
//! resolution over a search path, and a dispatcher that turns a classified
//! command into a directive for the surrounding process.

use vstd::prelude::*;
use vstd::string::StrSliceExecFns;
use vstd::string::StringExecFns;

pub mod cmd;
pub mod error;
pub mod parser;
pub mod text;
pub mod writer;

verus! {

use crate::cmd::Command;
use crate::cmd::Directive;
use crate::cmd::Env;
use crate::cmd::spec_first_or_empty;
use crate::cmd::spec_is_classified;
use crate::cmd::spec_rest;
use crate::cmd::spec_run;
use crate::parser::Extraction;
use crate::parser::Inputs;
use crate::parser::opt_view;
use crate::parser::spec_extract_line;
use crate::text::spec_starts_with;
use crate::writer::WriterBuilder;

/// Whether every name opens with the prefix `p`.
pub open spec fn spec_all_start_with(names: Seq<Seq<char>>, p: Seq<char>) -> bool {
    forall|j: int| 0 <= j < names.len() ==> spec_starts_with(#[trigger] names[j], p)
}

/// Whether a command classifies the tokens `toks`: its kind names the first
/// token and its arguments are the rest.
pub open spec fn spec_classified(toks: Seq<Seq<char>>, cmd: Command) -> bool {
    &&& spec_is_classified(spec_first_or_empty(toks), cmd.kind)
    &&& cmd.args.deep_view() == spec_rest(toks)
}

/// Whether the sink configuration `b` is the one the extraction `ex` asks
/// for: on each channel the appending target wins over the truncating one.
pub open spec fn spec_writer_of(ex: Extraction, b: WriterBuilder) -> bool {
    &&& b.stdout_append == (ex.stdout_append is Some)
    &&& opt_view(b.stdout) == if ex.stdout_append is Some {
        ex.stdout_append
    } else {
        ex.stdout_new
    }
    &&& b.stderr_append == (ex.stderr_append is Some)
    &&& opt_view(b.stderr) == if ex.stderr_append is Some {
        ex.stderr_append
    } else {
        ex.stderr_new
    }
}

/// Processes one input line: parses it, fixes the sink configuration its
/// redirections ask for, classifies the positional tokens and dispatches the
/// command under `env`.
pub fn exec_cmd(inputs: &str, env: &Env) -> (r: (WriterBuilder, Directive))
    ensures
        spec_writer_of(spec_extract_line(inputs@), r.0),
        exists|cmd: Command|
            #[trigger] spec_classified(spec_extract_line(inputs@).args, cmd) && spec_run(
                cmd,
                *env,
                r.1,
            ),
{
    let input = Inputs::parse(inputs);
    let builder = input.writer();
    let cmd = Command::new(input.args);
    let ghost gcmd = cmd;
    let directive = cmd.run(env);
    proof {
        assert(spec_classified(spec_extract_line(inputs@).args, gcmd) && spec_run(
            gcmd,
            *env,
            directive,
        ));
    }
    (builder, directive)
}

/// Whether every name of `names` (given their shared prefix `p` of length
/// `i`) goes on with the character `c` at position `i`.
fn extends_all(names: &Vec<String>, i: usize, c: char) -> (r: bool)
    requires
        i < usize::MAX,
    ensures
        r == forall|j: int|
            0 <= j < names.deep_view().len() ==> (#[trigger] names.deep_view()[j]).len() > i
                && names.deep_view()[j][i as int] == c,
{
    let ghost dv = names.deep_view();
    let mut j: usize = 0;
    while j < names.len()
        invariant
            j <= dv.len(),
            dv == names.deep_view(),
            forall|k: int| 0 <= k < j ==> (#[trigger] dv[k]).len() > i && dv[k][i as int] == c,
        decreases dv.len() - j,
    {
        let nm = names[j].as_str();
        proof {
            assert(dv[j as int] == names@[j as int]@);
        }
        if nm.unicode_len() <= i {
            return false;
        }
        if nm.get_char(i) != c {
            return false;
        }
        j = j + 1;
    }
    true
}

/// The longest prefix of the first name that every name opens with; empty
/// when there are no names.
pub fn common_parts(names: &Vec<String>) -> (r: String)
    ensures
        names.deep_view().len() == 0 ==> r@ == Seq::<char>::empty(),
        names.deep_view().len() > 0 ==> {
            let dv = names.deep_view();
            &&& r@.len() <= dv[0].len()
            &&& r@ == dv[0].take(r@.len() as int)
            &&& spec_all_start_with(dv, r@)
            &&& r@.len() < dv[0].len() ==> !spec_all_start_with(dv, dv[0].take(r@.len() as int + 1))
        },
{
    let ghost dv = names.deep_view();
    if names.len() == 0 {
        return String::new();
    }
    let first = &names[0];
    let n: usize = first.as_str().unicode_len();
    let mut i: usize = 0;
    proof {
        assert(spec_all_start_with(dv, dv[0].take(0))) by {
            assert forall|j: int| 0 <= j < dv.len() implies spec_starts_with(
                #[trigger] dv[j],
                dv[0].take(0),
            ) by {
                assert(dv[j].subrange(0, 0) =~= dv[0].take(0));
            }
        }
    }
    loop
        invariant
            i <= n,
            n == dv[0].len(),
            dv == names.deep_view(),
            names@.len() > 0,
            first@ == dv[0],
            spec_all_start_with(dv, dv[0].take(i as int)),
        ensures
            i <= n,
            spec_all_start_with(dv, dv[0].take(i as int)),
            i < n ==> !spec_all_start_with(dv, dv[0].take(i + 1)),
        decreases n - i,
    {
        if i == n {
            break ;
        }
        let c = first.as_str().get_char(i);
        if !extends_all(names, i, c) {
            proof {
                let p = dv[0].take(i + 1);
                assert(exists|j: int|
                    0 <= j < dv.len() && !((#[trigger] dv[j]).len() > i && dv[j][i as int] == c))
                    by {
                    if forall|j: int|
                        0 <= j < dv.len() ==> ((#[trigger] dv[j]).len() > i && dv[j][i as int]
                            == c) {
                        assert(false);
                    }
                }
                let j = choose|j: int|
                    0 <= j < dv.len() && !((#[trigger] dv[j]).len() > i && dv[j][i as int] == c);
                assert(!spec_all_start_with(dv, p)) by {
                    if spec_all_start_with(dv, p) {
                        assert(spec_starts_with(dv[j], p));
                        assert(dv[j].len() >= p.len());
                        assert(dv[j].subrange(0, p.len() as int)[i as int] == dv[j][i as int]);
                        assert(p[i as int] == dv[0][i as int]);
                    }
                }
            }
            break ;
        }
        proof {
            let p = dv[0].take(i + 1);
            assert(spec_all_start_with(dv, p)) by {
                assert forall|j: int| 0 <= j < dv.len() implies spec_starts_with(
                    #[trigger] dv[j],
                    p,
                ) by {
                    assert(spec_starts_with(dv[j], dv[0].take(i as int)));
                    assert(dv[j].subrange(0, p.len() as int) =~= p) by {
                        assert forall|k: int| 0 <= k < p.len() implies dv[j].subrange(
                            0,
                            p.len() as int,
                        )[k] == p[k] by {
                            if k < i {
                                assert(dv[j].subrange(0, i as int)[k] == dv[j][k]);
                                assert(dv[0].take(i as int)[k] == dv[0][k]);
                            } else {
                                assert(dv[j][i as int] == c);
                            }
                        }
                    }
                }
            }
        }
        i = i + 1;
    }
    let r = String::from_str(first.as_str().substring_char(0, i));
    proof {
        assert(first@.subrange(0, i as int) =~= dv[0].take(i as int));
    }
    r
}

} // verus!
