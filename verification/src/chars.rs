//! Character classification and line preparation shared by the scanners.
//!
//! The Unicode character classes come from the standard library; each class
//! gets a spec-level name, and a thin trusted wrapper ties the executable
//! test to that name.

use vstd::prelude::*;
use vstd::string::StrSliceExecFns;

verus! {

/// The Unicode whitespace class, as `char::is_whitespace` decides it.
pub uninterp spec fn is_whitespace_char(c: char) -> bool;

/// The Unicode numeric class, as `char::is_numeric` decides it.
pub uninterp spec fn is_numeric_char(c: char) -> bool;

/// The Unicode alphanumeric class, as `char::is_alphanumeric` decides it.
pub uninterp spec fn is_alphanumeric_char(c: char) -> bool;

/// The Unicode alphabetic class, as `char::is_alphabetic` decides it.
pub uninterp spec fn is_alphabetic_char(c: char) -> bool;

/// Relies on `char::is_whitespace`: whether the character has the Unicode
/// whitespace property; the answer depends on the character alone.
#[verifier::external_body]
pub(crate) fn char_is_whitespace(c: char) -> (r: bool)
    ensures
        r == is_whitespace_char(c),
{
    c.is_whitespace()
}

/// Relies on `char::is_numeric`: whether the character has a Unicode numeric
/// general category; the answer depends on the character alone.
#[verifier::external_body]
pub(crate) fn char_is_numeric(c: char) -> (r: bool)
    ensures
        r == is_numeric_char(c),
{
    c.is_numeric()
}

/// Relies on `char::is_alphanumeric`: alphabetic or numeric under Unicode;
/// the answer depends on the character alone.
#[verifier::external_body]
pub(crate) fn char_is_alphanumeric(c: char) -> (r: bool)
    ensures
        r == is_alphanumeric_char(c),
{
    c.is_alphanumeric()
}

/// Relies on `char::is_alphabetic`: alphabetic under Unicode; the answer
/// depends on the character alone.
#[verifier::external_body]
pub(crate) fn char_is_alphabetic(c: char) -> (r: bool)
    ensures
        r == is_alphabetic_char(c),
{
    c.is_alphabetic()
}

/// Relies on `String::push`: appends exactly one character at the end.
#[verifier::external_body]
pub(crate) fn push_char(s: &mut String, c: char)
    ensures
        final(s)@ == old(s)@.push(c),
{
    s.push(c)
}

/// The characters that can begin an operator token.
pub open spec fn is_op_start(c: char) -> bool {
    ||| c == '('
    ||| c == ')'
    ||| c == '{'
    ||| c == '}'
    ||| c == ','
    ||| c == '.'
    ||| c == '-'
    ||| c == '+'
    ||| c == ';'
    ||| c == '/'
    ||| c == '*'
    ||| c == '!'
    ||| c == '='
    ||| c == '>'
    ||| c == '<'
}

pub fn op_start(c: char) -> (r: bool)
    ensures
        r == is_op_start(c),
{
    c == '(' || c == ')' || c == '{' || c == '}' || c == ',' || c == '.' || c == '-' || c == '+'
        || c == ';' || c == '/' || c == '*' || c == '!' || c == '=' || c == '>' || c == '<'
}

/// First index at or after `i` holding a character that is not whitespace,
/// or the length of `s` if the rest of the line is all whitespace.
pub open spec fn ws_run_end(s: Seq<char>, i: int) -> int
    decreases s.len() - i
        when 0 <= i <= s.len()
{
    if i >= s.len() {
        i
    } else if is_whitespace_char(s[i]) {
        ws_run_end(s, i + 1)
    } else {
        i
    }
}

pub proof fn lemma_ws_run_end(s: Seq<char>, i: int)
    requires
        0 <= i <= s.len(),
    ensures
        i <= ws_run_end(s, i) <= s.len(),
        ws_run_end(s, i) < s.len() ==> !is_whitespace_char(s[ws_run_end(s, i)]),
        forall|k: int| i <= k < ws_run_end(s, i) ==> is_whitespace_char(s[k]),
    decreases s.len() - i,
{
    if i < s.len() && is_whitespace_char(s[i]) {
        lemma_ws_run_end(s, i + 1);
    }
}

/// First index at or after `i` whose character neither is numeric nor is a
/// decimal point, or the length of `s`.
pub open spec fn num_run_end(s: Seq<char>, i: int) -> int
    decreases s.len() - i
        when 0 <= i <= s.len()
{
    if i >= s.len() {
        i
    } else if is_numeric_char(s[i]) || s[i] == '.' {
        num_run_end(s, i + 1)
    } else {
        i
    }
}

pub proof fn lemma_num_run_end(s: Seq<char>, i: int)
    requires
        0 <= i <= s.len(),
    ensures
        i <= num_run_end(s, i) <= s.len(),
    decreases s.len() - i,
{
    if i < s.len() && (is_numeric_char(s[i]) || s[i] == '.') {
        lemma_num_run_end(s, i + 1);
    }
}

/// First index at or after `i` holding a double quote, or the length of `s`
/// if none follows.
pub open spec fn str_run_end(s: Seq<char>, i: int) -> int
    decreases s.len() - i
        when 0 <= i <= s.len()
{
    if i >= s.len() {
        i
    } else if s[i] == '"' {
        i
    } else {
        str_run_end(s, i + 1)
    }
}

pub proof fn lemma_str_run_end(s: Seq<char>, i: int)
    requires
        0 <= i <= s.len(),
    ensures
        i <= str_run_end(s, i) <= s.len(),
        str_run_end(s, i) < s.len() ==> s[str_run_end(s, i)] == '"',
    decreases s.len() - i,
{
    if i < s.len() && s[i] != '"' {
        lemma_str_run_end(s, i + 1);
    }
}

/// First index at or after `i` holding a character that is not alphabetic,
/// or the length of `s`.
pub open spec fn alpha_run_end(s: Seq<char>, i: int) -> int
    decreases s.len() - i
        when 0 <= i <= s.len()
{
    if i >= s.len() {
        i
    } else if is_alphabetic_char(s[i]) {
        alpha_run_end(s, i + 1)
    } else {
        i
    }
}

pub proof fn lemma_alpha_run_end(s: Seq<char>, i: int)
    requires
        0 <= i <= s.len(),
    ensures
        i <= alpha_run_end(s, i) <= s.len(),
    decreases s.len() - i,
{
    if i < s.len() && is_alphabetic_char(s[i]) {
        lemma_alpha_run_end(s, i + 1);
    }
}

/// One past the last character at or before index `j - 1` that is not
/// whitespace, or `0` if everything before `j` is whitespace.
pub open spec fn trim_end_idx(s: Seq<char>, j: int) -> int
    decreases j
        when 0 <= j <= s.len()
{
    if j <= 0 {
        0
    } else if is_whitespace_char(s[j - 1]) {
        trim_end_idx(s, j - 1)
    } else {
        j
    }
}

pub proof fn lemma_trim_end_idx(s: Seq<char>, j: int)
    requires
        0 <= j <= s.len(),
    ensures
        0 <= trim_end_idx(s, j) <= j,
        trim_end_idx(s, j) > 0 ==> !is_whitespace_char(s[trim_end_idx(s, j) - 1]),
        forall|k: int| trim_end_idx(s, j) <= k < j ==> is_whitespace_char(s[k]),
    decreases j,
{
    if j > 0 && is_whitespace_char(s[j - 1]) {
        lemma_trim_end_idx(s, j - 1);
    }
}

/// The line with leading and trailing whitespace removed, as `str::trim`
/// leaves it.
pub open spec fn trim_spec(s: Seq<char>) -> Seq<char> {
    let start = ws_run_end(s, 0);
    let end = trim_end_idx(s, s.len() as int);
    if start <= end {
        s.subrange(start, end)
    } else {
        Seq::empty()
    }
}

pub proof fn lemma_trim_spec(s: Seq<char>)
    ensures
        trim_spec(s).len() > 0 ==> !is_whitespace_char(trim_spec(s).last()),
{
    lemma_ws_run_end(s, 0);
    lemma_trim_end_idx(s, s.len() as int);
}

/// The characters of a string slice, in order.
pub fn chars_of_str(s: &str) -> (v: Vec<char>)
    ensures
        v@ == s@,
{
    let n = s.unicode_len();
    let mut v: Vec<char> = Vec::new();
    let mut i: usize = 0;
    while i < n
        invariant
            i <= n,
            n == s@.len(),
            v@ == s@.subrange(0, i as int),
        decreases n - i,
    {
        let c = s.get_char(i);
        v.push(c);
        i = i + 1;
        proof {
            assert(v@ =~= s@.subrange(0, i as int));
        }
    }
    proof {
        assert(v@ =~= s@);
    }
    v
}

/// The characters of a string slice with leading and trailing whitespace
/// removed.
pub fn trimmed_chars(s: &str) -> (v: Vec<char>)
    ensures
        v@ == trim_spec(s@),
{
    let all = chars_of_str(s);
    let n = all.len();
    let mut start: usize = 0;
    while start < n && char_is_whitespace(all[start])
        invariant
            start <= n,
            n == all@.len(),
            all@ == s@,
            ws_run_end(s@, 0) == ws_run_end(s@, start as int),
        decreases n - start,
    {
        start = start + 1;
    }
    let mut end: usize = n;
    while end > start && char_is_whitespace(all[end - 1])
        invariant
            start <= end <= n,
            n == all@.len(),
            all@ == s@,
            forall|k: int| end <= k < n ==> is_whitespace_char(s@[k]),
        decreases end,
    {
        end = end - 1;
    }
    proof {
        lemma_ws_run_end(s@, 0);
        lemma_trim_end_idx(s@, s@.len() as int);
        assert(ws_run_end(s@, start as int) == start as int);
        if end > start {
            // The scan from the right stopped at a non-whitespace character,
            // so `end` is exactly where the spec-level trim ends.
            assert(trim_end_idx(s@, end as int) == end as int);
            assert(forall|k: int| end <= k < n ==> is_whitespace_char(s@[k]));
            lemma_trim_end_agrees(s@, end as int, s@.len() as int);
        }
    }
    let mut v: Vec<char> = Vec::new();
    let mut i: usize = start;
    while i < end
        invariant
            start <= i <= end <= n,
            n == all@.len(),
            all@ == s@,
            v@ == s@.subrange(start as int, i as int),
        decreases end - i,
    {
        let c = all[i];
        v.push(c);
        i = i + 1;
        proof {
            assert(v@ =~= s@.subrange(start as int, i as int));
        }
    }
    proof {
        if end > start {
            assert(v@ =~= trim_spec(s@));
        } else {
            // Everything from `start` on is whitespace, so the trimmed line
            // is empty.
            lemma_trim_end_le(s@, s@.len() as int, start as int);
            assert(v@ =~= trim_spec(s@));
        }
    }
    v
}

/// If every character in `[e, j)` is whitespace and `e` itself ends a
/// non-whitespace run (or is zero), the backward trim from `j` stops at `e`.
proof fn lemma_trim_end_agrees(s: Seq<char>, e: int, j: int)
    requires
        0 <= e <= j <= s.len(),
        trim_end_idx(s, e) == e,
        forall|k: int| e <= k < j ==> is_whitespace_char(s[k]),
    ensures
        trim_end_idx(s, j) == e,
    decreases j,
{
    if j > e {
        lemma_trim_end_agrees(s, e, j - 1);
    }
}

/// If every character in `[b, j)` is whitespace, the backward trim from `j`
/// stops at or before `b`.
proof fn lemma_trim_end_le(s: Seq<char>, j: int, b: int)
    requires
        0 <= b <= j <= s.len(),
        forall|k: int| b <= k < j ==> is_whitespace_char(s[k]),
    ensures
        trim_end_idx(s, j) <= b,
    decreases j,
{
    lemma_trim_end_idx(s, j);
    if j > b {
        assert(is_whitespace_char(s[j - 1]));
        assert(trim_end_idx(s, j) == trim_end_idx(s, j - 1));
        lemma_trim_end_le(s, j - 1, b);
    }
}

} // verus!
