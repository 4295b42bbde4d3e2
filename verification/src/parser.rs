//! Parsing an input line: tokenization, and extraction of the redirection
//! operators `>`, `1>`, `>>`, `1>>`, `2>` and `2>>` from the token stream.
//!
//! Each operator consumes the token after it as its target path; the operator
//! and target never reach the positional arguments. When one operator appears
//! several times, the last occurrence wins — a trailing operator with no
//! target leaves its slot unset.

use vstd::prelude::*;

pub mod args;

verus! {

use crate::parser::args::Args;
use crate::parser::args::lemma_tokens_step;
use crate::parser::args::spec_tokens;
use crate::text::str_eq;

/// The view of an optional owned string.
pub open spec fn opt_view(o: Option<String>) -> Option<Seq<char>> {
    match o {
        None => None,
        Some(x) => Some(x@),
    }
}

/// What extraction has produced: the positional arguments and the four
/// redirection slots.
#[verifier::ext_equal]
pub ghost struct Extraction {
    pub args: Seq<Seq<char>>,
    pub stdout_new: Option<Seq<char>>,
    pub stdout_append: Option<Seq<char>>,
    pub stderr_new: Option<Seq<char>>,
    pub stderr_append: Option<Seq<char>>,
}

/// An extraction state assembled from its five parts.
pub open spec fn st_of(
    args: Seq<Seq<char>>,
    stdout_new: Option<Seq<char>>,
    stdout_append: Option<Seq<char>>,
    stderr_new: Option<Seq<char>>,
    stderr_append: Option<Seq<char>>,
) -> Extraction {
    Extraction { args, stdout_new, stdout_append, stderr_new, stderr_append }
}

/// The state before any token has been seen.
pub open spec fn spec_empty_extraction() -> Extraction {
    st_of(Seq::<Seq<char>>::empty(), None, None, None, None)
}

/// Runs extraction over `toks` starting from `st`: operators capture the
/// following token (or clear their slot at the end of the line), everything
/// else is a positional argument.
pub open spec fn spec_extract(st: Extraction, toks: Seq<Seq<char>>) -> Extraction
    decreases toks.len(),
{
    if toks.len() == 0 {
        st
    } else {
        let t = toks[0];
        let target = if toks.len() >= 2 {
            Some(toks[1])
        } else {
            None
        };
        let after = if toks.len() >= 2 {
            toks.skip(2)
        } else {
            toks.skip(1)
        };
        if t == ">"@ || t == "1>"@ {
            spec_extract(Extraction { stdout_new: target, ..st }, after)
        } else if t == ">>"@ || t == "1>>"@ {
            spec_extract(Extraction { stdout_append: target, ..st }, after)
        } else if t == "2>"@ {
            spec_extract(Extraction { stderr_new: target, ..st }, after)
        } else if t == "2>>"@ {
            spec_extract(Extraction { stderr_append: target, ..st }, after)
        } else {
            spec_extract(Extraction { args: st.args.push(t), ..st }, toks.skip(1))
        }
    }
}

/// The extraction of a whole input line.
pub open spec fn spec_extract_line(s: Seq<char>) -> Extraction {
    spec_extract(spec_empty_extraction(), spec_tokens(s))
}

/// One parsed input line: the positional arguments, and the target of each
/// redirection slot if the line set one.
pub struct Inputs {
    pub args: Vec<String>,
    pub stdout_new: Option<String>,
    pub stdout_append: Option<String>,
    pub stderr_new: Option<String>,
    pub stderr_append: Option<String>,
}

impl Inputs {
    /// The current extraction state an `Inputs` under construction stands
    /// for.
    pub open spec fn extraction(&self) -> Extraction {
        st_of(
            self.args.deep_view(),
            opt_view(self.stdout_new),
            opt_view(self.stdout_append),
            opt_view(self.stderr_new),
            opt_view(self.stderr_append),
        )
    }

    /// Tokenizes `input` and extracts its redirections.
    pub fn parse(input: &str) -> (r: Inputs)
        ensures
            r.extraction() == spec_extract_line(input@),
    {
        let ghost goal = spec_extract_line(input@);
        let mut args = Args::new(input);
        let mut tokens: Vec<String> = Vec::new();
        let mut stdout_new: Option<String> = None;
        let mut stdout_append: Option<String> = None;
        let mut stderr_new: Option<String> = None;
        let mut stderr_append: Option<String> = None;
        proof {
            assert(tokens.deep_view() =~= Seq::<Seq<char>>::empty());
        }
        loop
            invariant
                spec_extract(
                    st_of(
                        tokens.deep_view(),
                        opt_view(stdout_new),
                        opt_view(stdout_append),
                        opt_view(stderr_new),
                        opt_view(stderr_append),
                    ),
                    spec_tokens(args.inner@),
                ) == goal,
            ensures
                spec_extract(
                    st_of(
                        tokens.deep_view(),
                        opt_view(stdout_new),
                        opt_view(stdout_append),
                        opt_view(stderr_new),
                        opt_view(stderr_append),
                    ),
                    spec_tokens(args.inner@),
                ) == goal,
                args.inner@.len() == 0,
            decreases args.inner@.len(),
        {
            let ghost inner0 = args.inner@;
            let ghost dv0 = tokens.deep_view();
            let topt = args.next();
            let t = match topt {
                None => { break ; },
                Some(t) => t,
            };
            proof {
                lemma_tokens_step(inner0);
            }
            let ghost toks0 = spec_tokens(inner0);
            if str_eq(t.as_str(), ">") || str_eq(t.as_str(), "1>") {
                let ghost inner1 = args.inner@;
                stdout_new = args.next();
                proof {
                    lemma_extract_target_step(toks0, inner1);
                }
            } else if str_eq(t.as_str(), ">>") || str_eq(t.as_str(), "1>>") {
                let ghost inner1 = args.inner@;
                stdout_append = args.next();
                proof {
                    lemma_extract_target_step(toks0, inner1);
                }
            } else if str_eq(t.as_str(), "2>") {
                let ghost inner1 = args.inner@;
                stderr_new = args.next();
                proof {
                    lemma_extract_target_step(toks0, inner1);
                }
            } else if str_eq(t.as_str(), "2>>") {
                let ghost inner1 = args.inner@;
                stderr_append = args.next();
                proof {
                    lemma_extract_target_step(toks0, inner1);
                }
            } else {
                tokens.push(t);
                proof {
                    assert(tokens.deep_view() =~= dv0.push(toks0[0]));
                    assert(toks0.skip(1) =~= spec_tokens(args.inner@));
                }
            }
        }
        proof {
            assert(spec_tokens(args.inner@) =~= Seq::<Seq<char>>::empty());
        }
        Inputs { args: tokens, stdout_new, stdout_append, stderr_new, stderr_append }
    }

    /// The sink configuration this line asks for. A truncating target is
    /// applied first, so when both forms were given for one channel the
    /// appending one decides.
    pub fn writer(&self) -> (r: crate::writer::WriterBuilder)
        ensures
            r.stdout_append == (self.stdout_append is Some),
            opt_view(r.stdout) == if self.stdout_append is Some {
                opt_view(self.stdout_append)
            } else {
                opt_view(self.stdout_new)
            },
            r.stderr_append == (self.stderr_append is Some),
            opt_view(r.stderr) == if self.stderr_append is Some {
                opt_view(self.stderr_append)
            } else {
                opt_view(self.stderr_new)
            },
    {
        let mut builder = crate::writer::WriterBuilder::default();
        if let Some(path) = &self.stdout_new {
            builder = builder.stdout_new(path.as_str());
        }
        if let Some(path) = &self.stdout_append {
            builder = builder.stdout_append(path.as_str());
        }
        if let Some(path) = &self.stderr_new {
            builder = builder.stderr_new(path.as_str());
        }
        if let Some(path) = &self.stderr_append {
            builder = builder.stderr_append(path.as_str());
        }
        builder
    }
}

/// Whether `t` is one of the six redirection operator tokens.
pub open spec fn spec_is_op(t: Seq<char>) -> bool {
    t == ">"@ || t == "1>"@ || t == ">>"@ || t == "1>>"@ || t == "2>"@ || t == "2>>"@
}

/// Whether no token of `ts` is a redirection operator.
pub open spec fn spec_no_ops(ts: Seq<Seq<char>>) -> bool {
    forall|j: int| 0 <= j < ts.len() ==> !spec_is_op(#[trigger] ts[j])
}

/// The positional arguments extraction takes from `toks`, regardless of the
/// state it starts in.
pub open spec fn spec_extracted_args(toks: Seq<Seq<char>>) -> Seq<Seq<char>>
    decreases toks.len(),
{
    if toks.len() == 0 {
        Seq::<Seq<char>>::empty()
    } else if spec_is_op(toks[0]) {
        if toks.len() >= 2 {
            spec_extracted_args(toks.skip(2))
        } else {
            spec_extracted_args(toks.skip(1))
        }
    } else {
        seq![toks[0]] + spec_extracted_args(toks.skip(1))
    }
}

/// Extraction appends `spec_extracted_args(toks)` — never an operator token —
/// to whatever arguments the starting state already holds.
pub proof fn lemma_extract_args(st: Extraction, toks: Seq<Seq<char>>)
    ensures
        spec_extract(st, toks).args == st.args + spec_extracted_args(toks),
        spec_no_ops(spec_extracted_args(toks)),
    decreases toks.len(),
{
    if toks.len() == 0 {
        assert(st.args + Seq::<Seq<char>>::empty() =~= st.args);
    } else {
        let t = toks[0];
        if spec_is_op(t) {
            if toks.len() >= 2 {
                let target = Some(toks[1]);
                if t == ">"@ || t == "1>"@ {
                    lemma_extract_args(Extraction { stdout_new: target, ..st }, toks.skip(2));
                } else if t == ">>"@ || t == "1>>"@ {
                    lemma_extract_args(Extraction { stdout_append: target, ..st }, toks.skip(2));
                } else if t == "2>"@ {
                    lemma_extract_args(Extraction { stderr_new: target, ..st }, toks.skip(2));
                } else {
                    lemma_extract_args(Extraction { stderr_append: target, ..st }, toks.skip(2));
                }
            } else {
                if t == ">"@ || t == "1>"@ {
                    lemma_extract_args(Extraction { stdout_new: None, ..st }, toks.skip(1));
                } else if t == ">>"@ || t == "1>>"@ {
                    lemma_extract_args(Extraction { stdout_append: None, ..st }, toks.skip(1));
                } else if t == "2>"@ {
                    lemma_extract_args(Extraction { stderr_new: None, ..st }, toks.skip(1));
                } else {
                    lemma_extract_args(Extraction { stderr_append: None, ..st }, toks.skip(1));
                }
            }
        } else {
            let st2 = Extraction { args: st.args.push(t), ..st };
            lemma_extract_args(st2, toks.skip(1));
            assert(st.args.push(t) + spec_extracted_args(toks.skip(1)) =~= st.args + (seq![t]
                + spec_extracted_args(toks.skip(1))));
            let rest = spec_extracted_args(toks.skip(1));
            assert forall|j: int|
                0 <= j < (seq![t] + rest).len() implies !spec_is_op(
                #[trigger] (seq![t] + rest)[j],
            ) by {
                if j > 0 {
                    assert((seq![t] + rest)[j] == rest[j - 1]);
                }
            }
        }
    }
}

/// Over operator-free tokens extraction only appends them as arguments: every
/// redirection slot keeps the value it started with.
pub proof fn lemma_extract_no_ops(st: Extraction, ts: Seq<Seq<char>>)
    requires
        spec_no_ops(ts),
    ensures
        spec_extract(st, ts) == st_of(
            st.args + ts,
            st.stdout_new,
            st.stdout_append,
            st.stderr_new,
            st.stderr_append,
        ),
    decreases ts.len(),
{
    if ts.len() == 0 {
        assert(st.args + ts =~= st.args);
        assert(spec_extract(st, ts) =~= st_of(
            st.args + ts,
            st.stdout_new,
            st.stdout_append,
            st.stderr_new,
            st.stderr_append,
        ));
    } else {
        let t = ts[0];
        let st2 = Extraction { args: st.args.push(t), ..st };
        assert(forall|j: int| 0 <= j < ts.skip(1).len() ==> #[trigger] ts.skip(1)[j] == ts[j + 1]);
        lemma_extract_no_ops(st2, ts.skip(1));
        assert(st.args.push(t) + ts.skip(1) =~= st.args + ts);
    }
}

/// Extraction is stable: the positional arguments one extraction produces
/// hold no operator token, so extracting them again returns them unchanged
/// and sets no redirection slot. The argument values survive a round trip
/// through the extractor, though the quoting of the input line is gone.
pub proof fn lemma_extract_idempotent(toks: Seq<Seq<char>>)
    ensures
        spec_extract(spec_empty_extraction(), spec_extract(spec_empty_extraction(), toks).args)
            == st_of(spec_extract(spec_empty_extraction(), toks).args, None, None, None, None),
{
    let st0 = spec_empty_extraction();
    lemma_extract_args(st0, toks);
    let a = spec_extract(st0, toks).args;
    assert(a =~= spec_extracted_args(toks));
    lemma_extract_no_ops(st0, a);
    assert(Seq::<Seq<char>>::empty() + a =~= a);
}

/// After an operator token, the captured target is the following token (if
/// the line still has one) and extraction goes on after it.
proof fn lemma_extract_target_step(toks0: Seq<Seq<char>>, inner1: Seq<char>)
    requires
        toks0.len() >= 1,
        toks0.skip(1) == spec_tokens(inner1),
    ensures
        toks0.len() >= 2 ==> inner1.len() > 0 && toks0[1]
            == crate::parser::args::spec_next_token(inner1).0 && toks0.skip(2) == spec_tokens(
            crate::parser::args::spec_next_token(inner1).1,
        ),
        toks0.len() < 2 ==> inner1.len() == 0,
{
    if inner1.len() == 0 {
        assert(spec_tokens(inner1) =~= Seq::<Seq<char>>::empty());
        assert(toks0.len() == 1);
    } else {
        lemma_tokens_step(inner1);
        let t1 = crate::parser::args::spec_next_token(inner1).0;
        let rest = crate::parser::args::spec_next_token(inner1).1;
        assert(toks0.skip(1) == seq![t1] + spec_tokens(rest));
        assert(toks0.len() >= 2);
        assert(toks0[1] == toks0.skip(1)[0]);
        assert(toks0.skip(2) =~= toks0.skip(1).skip(1));
        assert(toks0.skip(1).skip(1) =~= spec_tokens(rest));
    }
}

} // verus!
