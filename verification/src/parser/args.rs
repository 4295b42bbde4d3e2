//! The tokenizer: splits a command line into fully unescaped, unquoted tokens.
//!
//! A token is assembled from adjacent segments: single-quoted text taken
//! verbatim, double-quoted text with a restricted escape set, and unquoted
//! text where a backslash escapes exactly the next character. Segments that
//! touch with no whitespace between them concatenate into one token. An
//! unterminated quote silently consumes the rest of the input.

use vstd::prelude::*;
use vstd::string::StrSliceExecFns;
use vstd::string::StringExecFns;

verus! {

use crate::text::is_whitespace_char;
use crate::text::push_char;
use crate::text::spec_is_whitespace;
use crate::text::spec_trim;
use crate::text::str_trim;

/// Splits quoted text (the part after the opening quote) at the first closing
/// `quote`: the verbatim content, and what follows the closing quote. Without
/// a closing quote the whole text is the content.
pub open spec fn spec_split_quoted(quote: char, s: Seq<char>) -> (Seq<char>, Seq<char>)
    decreases s.len(),
{
    if s.len() == 0 {
        (Seq::<char>::empty(), Seq::<char>::empty())
    } else if s[0] == quote {
        (Seq::<char>::empty(), s.skip(1))
    } else {
        let r = spec_split_quoted(quote, s.skip(1));
        (seq![s[0]] + r.0, r.1)
    }
}

/// Splits double-quoted text (the part after the opening quote) at the first
/// `"`. Inside, a backslash before `\`, `$`, `"` or a newline yields that
/// character; before anything else the backslash is kept literally; a
/// trailing lone backslash is dropped.
pub open spec fn spec_split_double_quoted(s: Seq<char>) -> (Seq<char>, Seq<char>)
    decreases s.len(),
{
    if s.len() == 0 {
        (Seq::<char>::empty(), Seq::<char>::empty())
    } else if s[0] == '"' {
        (Seq::<char>::empty(), s.skip(1))
    } else if s[0] == '\\' {
        if s.len() == 1 {
            (Seq::<char>::empty(), Seq::<char>::empty())
        } else {
            let r = spec_split_double_quoted(s.skip(2));
            if s[1] == '\\' || s[1] == '$' || s[1] == '"' || s[1] == '\n' {
                (seq![s[1]] + r.0, r.1)
            } else {
                (seq!['\\', s[1]] + r.0, r.1)
            }
        }
    } else {
        let r = spec_split_double_quoted(s.skip(1));
        (seq![s[0]] + r.0, r.1)
    }
}

/// Splits unquoted text at the first whitespace or quote: the content with
/// every backslash dropped and the character after it taken literally, and
/// the rest beginning at the terminator. A trailing lone backslash is
/// dropped.
pub open spec fn spec_split_not_quoted(s: Seq<char>) -> (Seq<char>, Seq<char>)
    decreases s.len(),
{
    if s.len() == 0 {
        (Seq::<char>::empty(), Seq::<char>::empty())
    } else if spec_is_whitespace(s[0]) || s[0] == '\'' || s[0] == '"' {
        (Seq::<char>::empty(), s)
    } else if s[0] == '\\' {
        if s.len() == 1 {
            (Seq::<char>::empty(), Seq::<char>::empty())
        } else {
            let r = spec_split_not_quoted(s.skip(2));
            (seq![s[1]] + r.0, r.1)
        }
    } else {
        let r = spec_split_not_quoted(s.skip(1));
        (seq![s[0]] + r.0, r.1)
    }
}

/// One segment split from the front of `s`, dispatched on its first
/// character: single-quoted, double-quoted, or unquoted.
pub open spec fn spec_split_token(s: Seq<char>) -> (Seq<char>, Seq<char>) {
    if s.len() > 0 && s[0] == '\'' {
        spec_split_quoted('\'', s.skip(1))
    } else if s.len() > 0 && s[0] == '"' {
        spec_split_double_quoted(s.skip(1))
    } else {
        spec_split_not_quoted(s)
    }
}

/// What a split leaves behind is never longer than its input, and strictly
/// shorter unless the input opens with whitespace.
pub proof fn lemma_split_token_len(s: Seq<char>)
    ensures
        spec_split_token(s).1.len() <= s.len(),
        s.len() > 0 && !spec_is_whitespace(s[0]) ==> spec_split_token(s).1.len() < s.len(),
{
    if s.len() > 0 && s[0] == '\'' {
        lemma_split_quoted_len('\'', s.skip(1));
    } else if s.len() > 0 && s[0] == '"' {
        lemma_split_double_quoted_len(s.skip(1));
    } else {
        lemma_split_not_quoted_len(s);
    }
}

/// Where the first closing quote sits decides both halves of a quoted split.
pub proof fn lemma_split_quoted_at(quote: char, s: Seq<char>, k: int)
    requires
        0 <= k <= s.len(),
        forall|j: int| 0 <= j < k ==> s[j] != quote,
        k < s.len() ==> s[k] == quote,
    ensures
        spec_split_quoted(quote, s).0 == s.take(k),
        spec_split_quoted(quote, s).1 == if k < s.len() {
            s.skip(k + 1)
        } else {
            Seq::<char>::empty()
        },
    decreases k,
{
    if k == 0 {
        assert(s.take(0) =~= Seq::<char>::empty());
        if s.len() == 0 {
            assert(s.skip(0) =~= Seq::<char>::empty());
        }
    } else {
        let t = s.skip(1);
        assert forall|j: int| 0 <= j < k - 1 implies t[j] != quote by {
            assert(t[j] == s[j + 1]);
        }
        lemma_split_quoted_at(quote, t, k - 1);
        assert(seq![s[0]] + t.take(k - 1) =~= s.take(k));
        if k < s.len() {
            assert(t.skip(k) =~= s.skip(k + 1));
        }
    }
}

pub proof fn lemma_split_quoted_len(quote: char, s: Seq<char>)
    ensures
        spec_split_quoted(quote, s).1.len() <= s.len(),
        s.len() > 0 ==> spec_split_quoted(quote, s).1.len() < s.len(),
    decreases s.len(),
{
    if s.len() > 0 && s[0] != quote {
        lemma_split_quoted_len(quote, s.skip(1));
    }
}

proof fn lemma_split_double_quoted_len(s: Seq<char>)
    ensures
        spec_split_double_quoted(s).1.len() <= s.len(),
        s.len() > 0 ==> spec_split_double_quoted(s).1.len() < s.len(),
    decreases s.len(),
{
    if s.len() > 0 && s[0] != '"' {
        if s[0] == '\\' {
            if s.len() > 1 {
                lemma_split_double_quoted_len(s.skip(2));
            }
        } else {
            lemma_split_double_quoted_len(s.skip(1));
        }
    }
}

proof fn lemma_split_not_quoted_len(s: Seq<char>)
    ensures
        spec_split_not_quoted(s).1.len() <= s.len(),
        s.len() > 0 && !(spec_is_whitespace(s[0]) || s[0] == '\'' || s[0] == '"')
            ==> spec_split_not_quoted(s).1.len() < s.len(),
    decreases s.len(),
{
    if s.len() > 0 && !(spec_is_whitespace(s[0]) || s[0] == '\'' || s[0] == '"') {
        if s[0] == '\\' {
            if s.len() > 1 {
                lemma_split_not_quoted_len(s.skip(2));
            }
        } else {
            lemma_split_not_quoted_len(s.skip(1));
        }
    }
}

/// One whole token taken from the front of `s`: segments accumulate while the
/// next character neither is whitespace nor ends the input, and the leftover
/// is returned trimmed. When `s` opens with whitespace the token is empty and
/// the leftover is `s` trimmed.
pub open spec fn spec_next_token(s: Seq<char>) -> (Seq<char>, Seq<char>)
    decreases s.len(),
{
    let (t, r) = spec_split_token(s);
    if 0 < r.len() < s.len() && !spec_is_whitespace(r[0]) {
        let (t2, r2) = spec_next_token(r);
        (t + t2, r2)
    } else {
        (t, spec_trim(r))
    }
}

/// The tokens of a whole line, in order.
pub open spec fn spec_tokens(s: Seq<char>) -> Seq<Seq<char>>
    decreases s.len(),
{
    if s.len() == 0 {
        Seq::<Seq<char>>::empty()
    } else {
        let (t, r) = spec_next_token(s);
        if r.len() < s.len() {
            seq![t] + spec_tokens(r)
        } else {
            seq![t]
        }
    }
}

/// Taking a token always consumes something from a non-empty input.
pub proof fn lemma_next_token_shrinks(s: Seq<char>)
    ensures
        s.len() > 0 ==> spec_next_token(s).1.len() < s.len(),
    decreases s.len(),
{
    if s.len() > 0 {
        let (t, r) = spec_split_token(s);
        lemma_split_token_len(s);
        if 0 < r.len() < s.len() && !spec_is_whitespace(r[0]) {
            lemma_next_token_shrinks(r);
        } else {
            crate::text::lemma_trim_len(r);
            if r.len() >= s.len() {
                assert(r == s || r.len() == s.len());
                assert(spec_is_whitespace(s[0]) || r.len() == 0) by {
                    if !spec_is_whitespace(s[0]) {
                        assert(spec_split_token(s).1.len() < s.len());
                    }
                }
            }
        }
    }
}

/// On a non-empty line the first token of `spec_tokens` is the one
/// `spec_next_token` yields, followed by the tokens of the leftover.
pub proof fn lemma_tokens_step(s: Seq<char>)
    requires
        s.len() > 0,
    ensures
        spec_tokens(s) == seq![spec_next_token(s).0] + spec_tokens(spec_next_token(s).1),
        spec_tokens(s).len() >= 1,
        spec_tokens(s)[0] == spec_next_token(s).0,
        spec_tokens(s).skip(1) == spec_tokens(spec_next_token(s).1),
{
    lemma_next_token_shrinks(s);
    assert((seq![spec_next_token(s).0] + spec_tokens(spec_next_token(s).1)).skip(1) =~= spec_tokens(
        spec_next_token(s).1,
    ));
}

/// Splits quoted text just after its opening `quote` (the first character of
/// `token`, which the split skips): the verbatim content up to the first
/// closing `quote`, and what follows it.
pub fn split_quoted<'a>(quote: char, token: &'a str) -> (r: (String, &'a str))
    requires
        token@.len() >= 1,
    ensures
        r.0@ == spec_split_quoted(quote, token@.skip(1)).0,
        r.1@ == spec_split_quoted(quote, token@.skip(1)).1,
{
    let n: usize = token.unicode_len();
    let ghost c0 = token@.skip(1);
    let mut acc = String::new();
    let mut i: usize = 1;
    proof {
        assert(c0.skip(0) =~= c0);
        assert(acc@ + spec_split_quoted(quote, c0).0 =~= spec_split_quoted(quote, c0).0);
    }
    loop
        invariant
            1 <= i <= n,
            n == token@.len(),
            c0 == token@.skip(1),
            spec_split_quoted(quote, c0).0 == acc@ + spec_split_quoted(quote, c0.skip(i - 1)).0,
            spec_split_quoted(quote, c0).1 == spec_split_quoted(quote, c0.skip(i - 1)).1,
        decreases n - i,
    {
        proof {
            assert(c0.skip(i - 1).len() == n - i);
        }
        if i == n {
            let rest = token.substring_char(n, n);
            proof {
                assert(acc@ + Seq::<char>::empty() =~= acc@);
                assert(rest@ =~= Seq::<char>::empty());
            }
            return (acc, rest);
        }
        let c = token.get_char(i);
        proof {
            assert(c0.skip(i - 1)[0] == token@[i as int]);
        }
        if c == quote {
            let rest = token.substring_char(i + 1, n);
            proof {
                assert(acc@ + Seq::<char>::empty() =~= acc@);
                assert(c0.skip(i - 1).skip(1) =~= token@.subrange(i + 1, n as int));
            }
            return (acc, rest);
        }
        push_char(&mut acc, c);
        proof {
            assert(c0.skip(i - 1).skip(1) =~= c0.skip(i as int));
            let u = c0.skip(i - 1);
            assert(spec_split_quoted(quote, u).0 == seq![u[0]] + spec_split_quoted(
                quote,
                u.skip(1),
            ).0);
            assert(acc@ =~= acc@.subrange(0, acc@.len() - 1) + seq![c]) by {
                assert(acc@.last() == c);
            }
            assert(acc@.subrange(0, acc@.len() - 1) + (seq![u[0]] + spec_split_quoted(
                quote,
                u.skip(1),
            ).0) =~= acc@ + spec_split_quoted(quote, u.skip(1)).0);
        }
        i = i + 1;
    }
}

/// Splits double-quoted text just after its opening `"` (the first character
/// of `token`, which the split skips), applying the double-quote escape
/// rules.
pub fn split_double_quoted<'a>(token: &'a str) -> (r: (String, &'a str))
    requires
        token@.len() >= 1,
    ensures
        r.0@ == spec_split_double_quoted(token@.skip(1)).0,
        r.1@ == spec_split_double_quoted(token@.skip(1)).1,
{
    let n: usize = token.unicode_len();
    let ghost c0 = token@.skip(1);
    let mut acc = String::new();
    let mut i: usize = 1;
    proof {
        assert(c0.skip(0) =~= c0);
        assert(acc@ + spec_split_double_quoted(c0).0 =~= spec_split_double_quoted(c0).0);
    }
    loop
        invariant
            1 <= i <= n,
            n == token@.len(),
            c0 == token@.skip(1),
            spec_split_double_quoted(c0).0 == acc@ + spec_split_double_quoted(c0.skip(i - 1)).0,
            spec_split_double_quoted(c0).1 == spec_split_double_quoted(c0.skip(i - 1)).1,
        decreases n - i,
    {
        let ghost u = c0.skip(i - 1);
        proof {
            assert(u.len() == n - i);
        }
        if i == n {
            let rest = token.substring_char(n, n);
            proof {
                assert(acc@ + Seq::<char>::empty() =~= acc@);
                assert(rest@ =~= Seq::<char>::empty());
            }
            return (acc, rest);
        }
        let c = token.get_char(i);
        proof {
            assert(u[0] == token@[i as int]);
        }
        if c == '"' {
            let rest = token.substring_char(i + 1, n);
            proof {
                assert(acc@ + Seq::<char>::empty() =~= acc@);
                assert(u.skip(1) =~= token@.subrange(i + 1, n as int));
            }
            return (acc, rest);
        }
        if c == '\\' {
            if i + 1 == n {
                let rest = token.substring_char(n, n);
                proof {
                    assert(acc@ + Seq::<char>::empty() =~= acc@);
                    assert(rest@ =~= Seq::<char>::empty());
                }
                return (acc, rest);
            }
            let c2 = token.get_char(i + 1);
            proof {
                assert(u[1] == token@[i + 1]);
                assert(u.skip(2) =~= c0.skip(i + 1));
            }
            if c2 == '\\' || c2 == '$' || c2 == '"' || c2 == '\n' {
                push_char(&mut acc, c2);
                proof {
                    assert(acc@.subrange(0, acc@.len() - 1) + (seq![u[1]]
                        + spec_split_double_quoted(u.skip(2)).0) =~= acc@
                        + spec_split_double_quoted(u.skip(2)).0);
                }
            } else {
                push_char(&mut acc, '\\');
                push_char(&mut acc, c2);
                proof {
                    assert(acc@.subrange(0, acc@.len() - 2) + (seq!['\\', u[1]]
                        + spec_split_double_quoted(u.skip(2)).0) =~= acc@
                        + spec_split_double_quoted(u.skip(2)).0);
                }
            }
            i = i + 2;
        } else {
            push_char(&mut acc, c);
            proof {
                assert(u.skip(1) =~= c0.skip(i as int));
                assert(acc@.subrange(0, acc@.len() - 1) + (seq![u[0]] + spec_split_double_quoted(
                    u.skip(1),
                ).0) =~= acc@ + spec_split_double_quoted(u.skip(1)).0);
            }
            i = i + 1;
        }
    }
}

/// Splits unquoted text at the first whitespace or quote character,
/// unescaping backslashes on the way.
pub fn split_not_quoted<'a>(token: &'a str) -> (r: (String, &'a str))
    ensures
        r.0@ == spec_split_not_quoted(token@).0,
        r.1@ == spec_split_not_quoted(token@).1,
{
    let n: usize = token.unicode_len();
    let mut acc = String::new();
    let mut i: usize = 0;
    proof {
        assert(token@.skip(0) =~= token@);
        assert(acc@ + spec_split_not_quoted(token@).0 =~= spec_split_not_quoted(token@).0);
    }
    loop
        invariant
            i <= n,
            n == token@.len(),
            spec_split_not_quoted(token@).0 == acc@ + spec_split_not_quoted(
                token@.skip(i as int),
            ).0,
            spec_split_not_quoted(token@).1 == spec_split_not_quoted(token@.skip(i as int)).1,
        decreases n - i,
    {
        let ghost u = token@.skip(i as int);
        proof {
            assert(u.len() == n - i);
        }
        if i == n {
            let rest = token.substring_char(n, n);
            proof {
                assert(acc@ + Seq::<char>::empty() =~= acc@);
                assert(rest@ =~= Seq::<char>::empty());
            }
            return (acc, rest);
        }
        let c = token.get_char(i);
        proof {
            assert(u[0] == token@[i as int]);
        }
        if is_whitespace_char(c) || c == '\'' || c == '"' {
            let rest = token.substring_char(i, n);
            proof {
                assert(acc@ + Seq::<char>::empty() =~= acc@);
                assert(u =~= token@.subrange(i as int, n as int));
            }
            return (acc, rest);
        }
        if c == '\\' {
            if i + 1 == n {
                let rest = token.substring_char(n, n);
                proof {
                    assert(acc@ + Seq::<char>::empty() =~= acc@);
                    assert(rest@ =~= Seq::<char>::empty());
                }
                return (acc, rest);
            }
            let c2 = token.get_char(i + 1);
            push_char(&mut acc, c2);
            proof {
                assert(u[1] == token@[i + 1]);
                assert(u.skip(2) =~= token@.skip(i + 2));
                assert(acc@.subrange(0, acc@.len() - 1) + (seq![u[1]] + spec_split_not_quoted(
                    u.skip(2),
                ).0) =~= acc@ + spec_split_not_quoted(u.skip(2)).0);
            }
            i = i + 2;
        } else {
            push_char(&mut acc, c);
            proof {
                assert(u.skip(1) =~= token@.skip(i + 1));
                assert(acc@.subrange(0, acc@.len() - 1) + (seq![u[0]] + spec_split_not_quoted(
                    u.skip(1),
                ).0) =~= acc@ + spec_split_not_quoted(u.skip(1)).0);
            }
            i = i + 1;
        }
    }
}

/// One segment split from the front of `s`: quoted or unquoted by its first
/// character.
pub fn split_token<'a>(s: &'a str) -> (r: (String, &'a str))
    ensures
        r.0@ == spec_split_token(s@).0,
        r.1@ == spec_split_token(s@).1,
{
    if s.is_empty() {
        split_not_quoted(s)
    } else {
        let c = s.get_char(0);
        if c == '\'' {
            split_quoted('\'', s)
        } else if c == '"' {
            split_double_quoted(s)
        } else {
            split_not_quoted(s)
        }
    }
}

/// A restartable token source over the unconsumed remainder of one input
/// line.
pub struct Args<'a> {
    pub inner: &'a str,
}

impl<'a> Args<'a> {
    /// A tokenizer over the whole of `inner`.
    pub fn new(inner: &'a str) -> (r: Self)
        ensures
            r.inner@ == inner@,
    {
        Args { inner }
    }

    /// The next token, or `None` once the remainder is empty. Adjacent
    /// segments concatenate into one token; the remainder is left trimmed.
    pub fn next(&mut self) -> (r: Option<String>)
        ensures
            old(self).inner@.len() == 0 ==> r is None && final(self).inner@ == old(self).inner@,
            old(self).inner@.len() > 0 ==> {
                &&& r matches Some(t) && t@ == spec_next_token(old(self).inner@).0
                &&& final(self).inner@ == spec_next_token(old(self).inner@).1
            },
    {
        if self.inner.is_empty() {
            return None;
        }
        let ghost v0 = self.inner@;
        let (token, first_rest) = split_token(self.inner);
        let mut s = token;
        let mut rest = first_rest;
        proof {
            lemma_split_token_len(v0);
            let (t, r) = spec_split_token(v0);
            if !(0 < r.len() < v0.len() && !spec_is_whitespace(r[0])) {
                assert(t + Seq::<char>::empty() =~= t);
            }
        }
        loop
            invariant
                v0.len() > 0,
                spec_next_token(v0).0 == s@ + spec_cont(rest@).0,
                spec_next_token(v0).1 == spec_cont(rest@).1,
            ensures
                spec_next_token(v0).0 == s@ + spec_cont(rest@).0,
                spec_next_token(v0).1 == spec_cont(rest@).1,
                rest@.len() == 0 || spec_is_whitespace(rest@[0]),
            decreases rest@.len(),
        {
            if rest.is_empty() {
                break ;
            }
            let c = rest.get_char(0);
            if is_whitespace_char(c) {
                break ;
            }
            let ghost w = rest@;
            let (t2, r2) = split_token(rest);
            proof {
                lemma_split_token_len(w);
            }
            s.append(t2.as_str());
            rest = r2;
            proof {
                lemma_cont_step(w);
                assert(s@ + (t2@ + spec_cont(r2@).0) =~= (s@ + t2@) + spec_cont(r2@).0);
            }
        }
        self.inner = str_trim(rest);
        proof {
            assert(s@ + Seq::<char>::empty() =~= s@);
        }
        Some(s)
    }
}

/// The token content still owed, and the final remainder, once a first
/// segment has been taken and `r` is what it left behind.
pub open spec fn spec_cont(r: Seq<char>) -> (Seq<char>, Seq<char>) {
    if r.len() > 0 && !spec_is_whitespace(r[0]) {
        spec_next_token(r)
    } else {
        (Seq::<char>::empty(), spec_trim(r))
    }
}

/// Unfolds `spec_cont` across one more segment when accumulation continues.
proof fn lemma_cont_step(r: Seq<char>)
    requires
        r.len() > 0,
        !spec_is_whitespace(r[0]),
    ensures
        spec_cont(r).0 == spec_split_token(r).0 + spec_cont(spec_split_token(r).1).0,
        spec_cont(r).1 == spec_cont(spec_split_token(r).1).1,
{
    lemma_split_token_len(r);
    let (t2, r2) = spec_split_token(r);
    if !(0 < r2.len() < r.len() && !spec_is_whitespace(r2[0])) {
        assert(t2 + Seq::<char>::empty() =~= t2);
    }
}

} // verus!
