//! Character and string helpers shared by the tokenizer, the classifier and
//! the dispatcher: whitespace tests, string comparison and trimming, character
//! search, and signed decimal parsing, all specified over `Seq<char>`.

use vstd::prelude::*;
use vstd::string::StrSliceExecFns;

verus! {

/// The Unicode `White_Space` code points, the separator set the tokenizer
/// honours between tokens.
pub open spec fn spec_is_whitespace(c: char) -> bool {
    ||| c == ' '
    ||| c == '\t'
    ||| c == '\n'
    ||| c == '\u{b}'
    ||| c == '\u{c}'
    ||| c == '\r'
    ||| c == '\u{85}'
    ||| c == '\u{a0}'
    ||| c == '\u{1680}'
    ||| ('\u{2000}' <= c && c <= '\u{200a}')
    ||| c == '\u{2028}'
    ||| c == '\u{2029}'
    ||| c == '\u{202f}'
    ||| c == '\u{205f}'
    ||| c == '\u{3000}'
}

/// Whether `c` separates tokens: exactly the Unicode `White_Space` set.
pub fn is_whitespace_char(c: char) -> (r: bool)
    ensures
        r == spec_is_whitespace(c),
{
    c == ' ' || c == '\t' || c == '\n' || c == '\u{b}' || c == '\u{c}' || c == '\r'
        || c == '\u{85}' || c == '\u{a0}' || c == '\u{1680}'
        || ('\u{2000}' <= c && c <= '\u{200a}') || c == '\u{2028}' || c == '\u{2029}'
        || c == '\u{202f}' || c == '\u{205f}' || c == '\u{3000}'
}

/// Appends one character to an owned string.
///
/// Relies on `String::push`, which appends the given `char` to the end of the
/// string.
#[verifier::external_body]
pub fn push_char(s: &mut String, c: char)
    ensures
        final(s)@ == old(s)@.push(c),
{
    s.push(c);
}

/// Whether two string slices hold the same characters.
pub fn str_eq(a: &str, b: &str) -> (r: bool)
    ensures
        r == (a@ == b@),
{
    let na: usize = a.unicode_len();
    let nb: usize = b.unicode_len();
    if na != nb {
        return false;
    }
    let mut i: usize = 0;
    while i < na
        invariant
            i <= na,
            na == a@.len(),
            na == b@.len(),
            forall|j: int| 0 <= j < i ==> a@[j] == b@[j],
        decreases na - i,
    {
        if a.get_char(i) != b.get_char(i) {
            assert(a@[i as int] != b@[i as int]);
            return false;
        }
        i = i + 1;
    }
    proof {
        assert(a@ =~= b@);
    }
    true
}

/// Whether `p` is a prefix of `s`.
pub open spec fn spec_starts_with(s: Seq<char>, p: Seq<char>) -> bool {
    p.len() <= s.len() && s.subrange(0, p.len() as int) == p
}

/// Whether the characters of `p` open the string `s`.
pub fn str_starts_with(s: &str, p: &str) -> (r: bool)
    ensures
        r == spec_starts_with(s@, p@),
{
    let ns: usize = s.unicode_len();
    let np: usize = p.unicode_len();
    if np > ns {
        return false;
    }
    let mut i: usize = 0;
    while i < np
        invariant
            i <= np,
            np <= ns,
            ns == s@.len(),
            np == p@.len(),
            forall|j: int| 0 <= j < i ==> s@[j] == p@[j],
        decreases np - i,
    {
        if s.get_char(i) != p.get_char(i) {
            assert(s@[i as int] != p@[i as int]);
            assert(!spec_starts_with(s@, p@)) by {
                if spec_starts_with(s@, p@) {
                    assert(s@.subrange(0, p@.len() as int)[i as int] == s@[i as int]);
                }
            }
            return false;
        }
        i = i + 1;
    }
    proof {
        assert(s@.subrange(0, p@.len() as int) =~= p@);
    }
    true
}

/// The index of the first occurrence of `c` in `s`, if any.
pub open spec fn spec_find(s: Seq<char>, c: char) -> Option<int>
    decreases s.len(),
{
    if s.len() == 0 {
        None
    } else if s[0] == c {
        Some(0)
    } else {
        match spec_find(s.skip(1), c) {
            None => None,
            Some(i) => Some(i + 1),
        }
    }
}

/// What `spec_find` returns: the least index holding `c`, or `None` when `c`
/// does not occur.
pub proof fn lemma_spec_find(s: Seq<char>, c: char)
    ensures
        match spec_find(s, c) {
            None => forall|j: int| 0 <= j < s.len() ==> s[j] != c,
            Some(i) => 0 <= i < s.len() && s[i] == c && forall|j: int| 0 <= j < i ==> s[j] != c,
        },
    decreases s.len(),
{
    if s.len() > 0 && s[0] != c {
        lemma_spec_find(s.skip(1), c);
        match spec_find(s.skip(1), c) {
            None => {
                assert forall|j: int| 0 <= j < s.len() implies s[j] != c by {
                    if j > 0 {
                        assert(s.skip(1)[j - 1] == s[j]);
                    }
                }
            },
            Some(i) => {
                assert(s[i + 1] == s.skip(1)[i]);
                assert forall|j: int| 0 <= j < i + 1 implies s[j] != c by {
                    if j > 0 {
                        assert(s.skip(1)[j - 1] == s[j]);
                    }
                }
            },
        }
    }
}

/// `s` without its leading whitespace.
pub open spec fn spec_trim_start(s: Seq<char>) -> Seq<char>
    decreases s.len(),
{
    if s.len() == 0 {
        s
    } else if spec_is_whitespace(s[0]) {
        spec_trim_start(s.skip(1))
    } else {
        s
    }
}

/// `s` without its trailing whitespace.
pub open spec fn spec_trim_end(s: Seq<char>) -> Seq<char>
    decreases s.len(),
{
    if s.len() == 0 {
        s
    } else if spec_is_whitespace(s[s.len() - 1]) {
        spec_trim_end(s.take(s.len() - 1))
    } else {
        s
    }
}

/// `s` without leading and trailing whitespace.
pub open spec fn spec_trim(s: Seq<char>) -> Seq<char> {
    spec_trim_end(spec_trim_start(s))
}

/// Trimming away a run of leading whitespace is one skip.
proof fn lemma_trim_start_skip(s: Seq<char>, a: int)
    requires
        0 <= a <= s.len(),
        forall|j: int| 0 <= j < a ==> spec_is_whitespace(s[j]),
        a < s.len() ==> !spec_is_whitespace(s[a]),
    ensures
        spec_trim_start(s) == s.skip(a),
    decreases a,
{
    if a == 0 {
        assert(s.skip(0) =~= s);
    } else {
        lemma_trim_start_skip(s.skip(1), a - 1);
        assert(s.skip(1).skip(a - 1) =~= s.skip(a));
    }
}

/// Trimming away a run of trailing whitespace is one take.
proof fn lemma_trim_end_take(s: Seq<char>, b: int)
    requires
        0 <= b <= s.len(),
        forall|j: int| b <= j < s.len() ==> spec_is_whitespace(s[j]),
        b > 0 ==> !spec_is_whitespace(s[b - 1]),
    ensures
        spec_trim_end(s) == s.take(b),
    decreases s.len() - b,
{
    if b == s.len() {
        assert(s.take(b) =~= s);
    } else {
        lemma_trim_end_take(s.take(s.len() - 1), b);
        assert(s.take(s.len() - 1).take(b) =~= s.take(b));
    }
}

proof fn lemma_trim_start_len(s: Seq<char>)
    ensures
        spec_trim_start(s).len() <= s.len(),
        s.len() > 0 && spec_is_whitespace(s[0]) ==> spec_trim_start(s).len() < s.len(),
    decreases s.len(),
{
    if s.len() > 0 && spec_is_whitespace(s[0]) {
        lemma_trim_start_len(s.skip(1));
    }
}

proof fn lemma_trim_end_len(s: Seq<char>)
    ensures
        spec_trim_end(s).len() <= s.len(),
    decreases s.len(),
{
    if s.len() > 0 && spec_is_whitespace(s[s.len() - 1]) {
        lemma_trim_end_len(s.take(s.len() - 1));
    }
}

/// Trimming never lengthens a string, and strictly shortens one that opens
/// with whitespace.
pub proof fn lemma_trim_len(s: Seq<char>)
    ensures
        spec_trim(s).len() <= s.len(),
        s.len() > 0 && spec_is_whitespace(s[0]) ==> spec_trim(s).len() < s.len(),
{
    lemma_trim_start_len(s);
    lemma_trim_end_len(spec_trim_start(s));
}

/// The characters of `s` with leading and trailing whitespace removed.
pub fn str_trim<'a>(s: &'a str) -> (r: &'a str)
    ensures
        r@ == spec_trim(s@),
{
    let n: usize = s.unicode_len();
    let mut a: usize = 0;
    while a < n && is_whitespace_char(s.get_char(a))
        invariant
            a <= n,
            n == s@.len(),
            forall|j: int| 0 <= j < a ==> spec_is_whitespace(s@[j]),
        decreases n - a,
    {
        a = a + 1;
    }
    proof {
        lemma_trim_start_skip(s@, a as int);
    }
    let mut b: usize = n;
    while b > a && is_whitespace_char(s.get_char(b - 1))
        invariant
            a <= b <= n,
            n == s@.len(),
            a < s@.len() ==> !spec_is_whitespace(s@[a as int]),
            forall|j: int| b <= j < n ==> spec_is_whitespace(s@[j]),
        decreases b,
    {
        b = b - 1;
    }
    let r = s.substring_char(a, b);
    proof {
        let t = s@.skip(a as int);
        if b == a {
            lemma_trim_end_take(t, 0);
        } else {
            lemma_trim_end_take(t, b - a);
        }
        assert forall|j: int| b - a <= j < t.len() implies spec_is_whitespace(t[j]) by {
            assert(t[j] == s@[j + a]);
        }
        assert(t.take(b - a) =~= s@.subrange(a as int, b as int));
    }
    r
}

/// Whether `c` is an ASCII decimal digit.
pub open spec fn spec_is_digit(c: char) -> bool {
    '0' <= c && c <= '9'
}

/// The numeric value of the digit `c`.
pub open spec fn spec_digit_val(c: char) -> int {
    c as int - '0' as int
}

/// Whether every character of `s` is an ASCII decimal digit.
pub open spec fn spec_all_digits(s: Seq<char>) -> bool {
    forall|j: int| 0 <= j < s.len() ==> spec_is_digit(#[trigger] s[j])
}

/// The value of `s` read as an unsigned decimal numeral.
pub open spec fn spec_digits_val(s: Seq<char>) -> int
    decreases s.len(),
{
    if s.len() == 0 {
        0
    } else {
        spec_digits_val(s.take(s.len() - 1)) * 10 + spec_digit_val(s.last())
    }
}

/// A string of digits denotes a non-negative value.
proof fn lemma_digits_val_nonneg(s: Seq<char>)
    requires
        spec_all_digits(s),
    ensures
        spec_digits_val(s) >= 0,
    decreases s.len(),
{
    if s.len() > 0 {
        let p = s.take(s.len() - 1);
        assert forall|j: int| 0 <= j < p.len() implies spec_is_digit(#[trigger] p[j]) by {
            assert(p[j] == s[j]);
        }
        lemma_digits_val_nonneg(p);
    }
}

/// A digit string's value never goes down when more digits follow it.
proof fn lemma_digits_val_prefix(s: Seq<char>, k: int)
    requires
        spec_all_digits(s),
        0 <= k <= s.len(),
    ensures
        0 <= spec_digits_val(s.take(k)) <= spec_digits_val(s),
    decreases s.len() - k,
{
    let p = s.take(k);
    assert forall|j: int| 0 <= j < p.len() implies spec_is_digit(#[trigger] p[j]) by {
        assert(p[j] == s[j]);
    }
    lemma_digits_val_nonneg(p);
    if k == s.len() {
        assert(p =~= s);
    } else {
        let q = s.take(k + 1);
        assert(q.take(k) =~= p);
        assert(q.last() == s[k]);
        assert(spec_digits_val(q) == spec_digits_val(p) * 10 + spec_digit_val(q.last()));
        lemma_digits_val_prefix(s, k + 1);
    }
}

/// The integer that `s` denotes as an optionally signed decimal numeral, when
/// it has at least one digit, only digits after the optional sign, and a value
/// within `i32` range: the inputs `str::parse::<i32>` accepts.
pub open spec fn spec_parse_i32(s: Seq<char>) -> Option<i32> {
    let neg = s.len() > 0 && s[0] == '-';
    let ds = if s.len() > 0 && (s[0] == '-' || s[0] == '+') {
        s.skip(1)
    } else {
        s
    };
    if ds.len() == 0 || !spec_all_digits(ds) {
        None
    } else {
        let v = if neg {
            -spec_digits_val(ds)
        } else {
            spec_digits_val(ds)
        };
        if i32::MIN <= v <= i32::MAX {
            Some(v as i32)
        } else {
            None
        }
    }
}

/// Reads `s` as an optionally signed decimal `i32`, exactly as
/// `str::parse::<i32>` would.
pub fn parse_i32(s: &str) -> (r: Option<i32>)
    ensures
        r == spec_parse_i32(s@),
{
    let n: usize = s.unicode_len();
    if n == 0 {
        return None;
    }
    let c0 = s.get_char(0);
    let neg: bool = c0 == '-';
    let start: usize = if c0 == '-' || c0 == '+' {
        1
    } else {
        0
    };
    if start == n {
        return None;
    }
    let ghost ds = s@.skip(start as int);
    proof {
        if start == 0 {
            assert(s@.skip(0) =~= s@);
        }
    }
    let bound: i64 = if neg {
        2147483648
    } else {
        2147483647
    };
    let mut acc: i64 = 0;
    let mut i: usize = start;
    while i < n
        invariant
            start <= i <= n,
            n == s@.len(),
            start < n,
            ds == s@.skip(start as int),
            neg == (s@[0] == '-'),
            start == if s@[0] == '-' || s@[0] == '+' { 1int } else { 0int },
            start == 0 ==> ds == s@,
            bound == if neg { 2147483648int } else { 2147483647int },
            0 <= acc <= bound,
            acc == spec_digits_val(ds.take(i - start)),
            spec_all_digits(ds.take(i - start)),
        decreases n - i,
    {
        let c = s.get_char(i);
        proof {
            assert(ds[i - start] == s@[i as int]);
        }
        if !('0' <= c && c <= '9') {
            assert(!spec_all_digits(ds));
            return None;
        }
        let d: i64 = (c as u32 - '0' as u32) as i64;
        acc = acc * 10 + d;
        proof {
            let p = ds.take(i - start + 1);
            assert(p.take(p.len() - 1) =~= ds.take(i - start));
            assert(p.last() == ds[i - start]);
        }
        if acc > bound {
            proof {
                if spec_all_digits(ds) {
                    lemma_digits_val_prefix(ds, i - start + 1);
                }
            }
            return None;
        }
        i = i + 1;
    }
    proof {
        assert(ds.take(n - start) =~= ds);
    }
    if neg {
        Some((-acc) as i32)
    } else {
        Some(acc as i32)
    }
}

} // verus!
