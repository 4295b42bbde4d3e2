//! A simpler token splitter: quotes group verbatim — both kinds — and no
//! escape processing happens anywhere; adjacent segments still concatenate
//! into one token.

use vstd::prelude::*;
use vstd::string::StrSliceExecFns;
use vstd::string::StringExecFns;

verus! {

use crate::parser::args::lemma_split_quoted_at;
use crate::parser::args::lemma_split_quoted_len;
use crate::parser::args::spec_split_quoted;
use crate::text::is_whitespace_char;
use crate::text::spec_is_whitespace;
use crate::text::spec_trim;
use crate::text::str_trim;

/// Whether `c` ends an unquoted segment: whitespace or either quote.
pub open spec fn spec_terminator(c: char) -> bool {
    spec_is_whitespace(c) || c == '\'' || c == '"'
}

/// Whether `c` ends an unquoted segment.
pub fn terminator(c: char) -> (r: bool)
    ensures
        r == spec_terminator(c),
{
    is_whitespace_char(c) || c == '\'' || c == '"'
}

/// Splits unquoted text at the first terminator, verbatim: the content, and
/// the rest beginning at the terminator.
pub open spec fn spec_split_plain(s: Seq<char>) -> (Seq<char>, Seq<char>)
    decreases s.len(),
{
    if s.len() == 0 {
        (Seq::<char>::empty(), Seq::<char>::empty())
    } else if spec_terminator(s[0]) {
        (Seq::<char>::empty(), s)
    } else {
        let r = spec_split_plain(s.skip(1));
        (seq![s[0]] + r.0, r.1)
    }
}

/// Where the first terminator sits decides both halves of a plain split.
proof fn lemma_split_plain_at(s: Seq<char>, k: int)
    requires
        0 <= k <= s.len(),
        forall|j: int| 0 <= j < k ==> !spec_terminator(s[j]),
        k < s.len() ==> spec_terminator(s[k]),
    ensures
        spec_split_plain(s).0 == s.take(k),
        spec_split_plain(s).1 == s.skip(k),
    decreases k,
{
    if k == 0 {
        assert(s.take(0) =~= Seq::<char>::empty());
        assert(s.skip(0) =~= s);
        if s.len() == 0 {
            assert(s.skip(0) =~= Seq::<char>::empty());
        }
    } else {
        let t = s.skip(1);
        assert forall|j: int| 0 <= j < k - 1 implies !spec_terminator(t[j]) by {
            assert(t[j] == s[j + 1]);
        }
        lemma_split_plain_at(t, k - 1);
        assert(seq![s[0]] + t.take(k - 1) =~= s.take(k));
        assert(t.skip(k - 1) =~= s.skip(k));
    }
}

proof fn lemma_split_plain_len(s: Seq<char>)
    ensures
        spec_split_plain(s).1.len() <= s.len(),
        s.len() > 0 && !spec_terminator(s[0]) ==> spec_split_plain(s).1.len() < s.len(),
    decreases s.len(),
{
    if s.len() > 0 && !spec_terminator(s[0]) {
        lemma_split_plain_len(s.skip(1));
    }
}

/// One segment split from the front of `s`: a verbatim quoted segment (for
/// either quote character) or a plain segment up to the first terminator.
pub open spec fn spec_split_token(s: Seq<char>) -> (Seq<char>, Seq<char>) {
    if s.len() > 0 && s[0] == '\'' {
        spec_split_quoted('\'', s.skip(1))
    } else if s.len() > 0 && s[0] == '"' {
        spec_split_quoted('"', s.skip(1))
    } else {
        spec_split_plain(s)
    }
}

proof fn lemma_split_token_len(s: Seq<char>)
    ensures
        spec_split_token(s).1.len() <= s.len(),
        s.len() > 0 && !spec_is_whitespace(s[0]) ==> spec_split_token(s).1.len() < s.len(),
{
    if s.len() > 0 && s[0] == '\'' {
        lemma_split_quoted_len('\'', s.skip(1));
    } else if s.len() > 0 && s[0] == '"' {
        lemma_split_quoted_len('"', s.skip(1));
    } else {
        lemma_split_plain_len(s);
    }
}

/// Splits quoted text just after its opening `quote` (the first character of
/// `token`, which the split skips): the verbatim content up to the first
/// closing `quote`, and what follows it.
pub fn split_quoted<'a>(quote: char, token: &'a str) -> (r: (&'a str, &'a str))
    requires
        token@.len() >= 1,
    ensures
        r.0@ == spec_split_quoted(quote, token@.skip(1)).0,
        r.1@ == spec_split_quoted(quote, token@.skip(1)).1,
{
    let n: usize = token.unicode_len();
    let ghost c0 = token@.skip(1);
    let mut i: usize = 1;
    while i < n && token.get_char(i) != quote
        invariant
            1 <= i <= n,
            n == token@.len(),
            c0 == token@.skip(1),
            forall|j: int| 0 <= j < i - 1 ==> c0[j] != quote,
        decreases n - i,
    {
        proof {
            assert(c0[i - 1] == token@[i as int]);
        }
        i = i + 1;
    }
    proof {
        if i < n {
            assert(c0[i - 1] == token@[i as int]);
        }
        lemma_split_quoted_at(quote, c0, i - 1);
        assert(c0.take(i - 1) =~= token@.subrange(1, i as int));
    }
    if i < n {
        let content = token.substring_char(1, i);
        let rest = token.substring_char(i + 1, n);
        proof {
            assert(c0.skip(i as int) =~= token@.subrange(i + 1, n as int));
        }
        (content, rest)
    } else {
        let content = token.substring_char(1, n);
        let rest = token.substring_char(n, n);
        proof {
            assert(rest@ =~= Seq::<char>::empty());
        }
        (content, rest)
    }
}

/// One segment split from the front of `s`, verbatim: quoted or plain by its
/// first character.
pub fn split_token<'a>(s: &'a str) -> (r: (&'a str, &'a str))
    ensures
        r.0@ == spec_split_token(s@).0,
        r.1@ == spec_split_token(s@).1,
{
    let n: usize = s.unicode_len();
    if n > 0 {
        let c = s.get_char(0);
        if c == '\'' {
            return split_quoted('\'', s);
        }
        if c == '"' {
            return split_quoted('"', s);
        }
    }
    let mut i: usize = 0;
    while i < n && !terminator(s.get_char(i))
        invariant
            0 <= i <= n,
            n == s@.len(),
            forall|j: int| 0 <= j < i ==> !spec_terminator(s@[j]),
        decreases n - i,
    {
        i = i + 1;
    }
    proof {
        lemma_split_plain_at(s@, i as int);
        assert(s@.take(i as int) =~= s@.subrange(0, i as int));
        assert(s@.skip(i as int) =~= s@.subrange(i as int, n as int));
    }
    let content = s.substring_char(0, i);
    let rest = s.substring_char(i, n);
    (content, rest)
}

/// One whole token taken from the front of `s`, with verbatim segments
/// accumulating while the next character neither is whitespace nor ends the
/// input; the leftover is returned trimmed.
pub open spec fn spec_next_token(s: Seq<char>) -> (Seq<char>, Seq<char>)
    decreases s.len(),
{
    let (t, r) = spec_split_token(s);
    if 0 < r.len() < s.len() && !spec_is_whitespace(r[0]) {
        let (t2, r2) = spec_next_token(r);
        (t + t2, r2)
    } else {
        (t, spec_trim(r))
    }
}

/// The token content still owed, and the final remainder, once a first
/// segment has been taken and `r` is what it left behind.
pub open spec fn spec_cont(r: Seq<char>) -> (Seq<char>, Seq<char>) {
    if r.len() > 0 && !spec_is_whitespace(r[0]) {
        spec_next_token(r)
    } else {
        (Seq::<char>::empty(), spec_trim(r))
    }
}

proof fn lemma_cont_step(r: Seq<char>)
    requires
        r.len() > 0,
        !spec_is_whitespace(r[0]),
    ensures
        spec_cont(r).0 == spec_split_token(r).0 + spec_cont(spec_split_token(r).1).0,
        spec_cont(r).1 == spec_cont(spec_split_token(r).1).1,
{
    lemma_split_token_len(r);
    let (t2, r2) = spec_split_token(r);
    if !(0 < r2.len() < r.len() && !spec_is_whitespace(r2[0])) {
        assert(t2 + Seq::<char>::empty() =~= t2);
    }
}

/// A restartable token source over the unconsumed remainder of one input
/// line, splitting verbatim.
pub struct Args<'a> {
    pub inner: &'a str,
}

impl<'a> Args<'a> {
    /// A tokenizer over the whole of `inner`.
    pub fn new(inner: &'a str) -> (r: Self)
        ensures
            r.inner@ == inner@,
    {
        Args { inner }
    }

    /// The next token, or `None` once the remainder is empty. Adjacent
    /// segments concatenate into one token; the remainder is left trimmed.
    pub fn next(&mut self) -> (r: Option<String>)
        ensures
            old(self).inner@.len() == 0 ==> r is None && final(self).inner@ == old(self).inner@,
            old(self).inner@.len() > 0 ==> {
                &&& r matches Some(t) && t@ == spec_next_token(old(self).inner@).0
                &&& final(self).inner@ == spec_next_token(old(self).inner@).1
            },
    {
        if self.inner.is_empty() {
            return None;
        }
        let ghost v0 = self.inner@;
        let (token, first_rest) = split_token(self.inner);
        let mut s = String::from_str(token);
        let mut rest = first_rest;
        proof {
            lemma_split_token_len(v0);
            let (t, r) = spec_split_token(v0);
            if !(0 < r.len() < v0.len() && !spec_is_whitespace(r[0])) {
                assert(t + Seq::<char>::empty() =~= t);
            }
        }
        loop
            invariant
                v0.len() > 0,
                spec_next_token(v0).0 == s@ + spec_cont(rest@).0,
                spec_next_token(v0).1 == spec_cont(rest@).1,
            ensures
                spec_next_token(v0).0 == s@ + spec_cont(rest@).0,
                spec_next_token(v0).1 == spec_cont(rest@).1,
                rest@.len() == 0 || spec_is_whitespace(rest@[0]),
            decreases rest@.len(),
        {
            if rest.is_empty() {
                break ;
            }
            let c = rest.get_char(0);
            if is_whitespace_char(c) {
                break ;
            }
            let ghost w = rest@;
            let (t2, r2) = split_token(rest);
            proof {
                lemma_split_token_len(w);
            }
            s.append(t2);
            rest = r2;
            proof {
                lemma_cont_step(w);
                assert(s@ + (t2@ + spec_cont(r2@).0) =~= (s@ + t2@) + spec_cont(r2@).0);
            }
        }
        self.inner = str_trim(rest);
        proof {
            assert(s@ + Seq::<char>::empty() =~= s@);
        }
        Some(s)
    }
}

} // verus!
