//! Turning one raw input line into a typed logical statement.
//!
//! Token priority, on the trimmed line: a `>` anywhere makes an
//! `Implication`; else a leading `~` makes a `Negation`; else `*` makes a
//! `Conjunction` and `+` a `Disjunction`; else a leading `R` (stripped) or
//! any other non-empty text makes a `Conclusion`; an empty line parses to
//! nothing. Trimming removes the Unicode whitespace characters (the
//! White_Space set) from both ends.

use vstd::prelude::*;

use crate::exprs::ExprView;
use crate::exprs::LogicalExpr;
use vstd::string::StrSliceExecFns;

verus! {

/// The characters trimming removes: the Unicode White_Space set.
pub open spec fn is_space_char(c: char) -> bool {
    c == ' ' || c == '\t' || c == '\n' || c == '\u{b}' || c == '\u{c}' || c == '\r'
        || c == '\u{85}' || c == '\u{a0}' || c == '\u{1680}' || c == '\u{2000}'
        || c == '\u{2001}' || c == '\u{2002}' || c == '\u{2003}' || c == '\u{2004}'
        || c == '\u{2005}' || c == '\u{2006}' || c == '\u{2007}' || c == '\u{2008}'
        || c == '\u{2009}' || c == '\u{200a}' || c == '\u{2028}' || c == '\u{2029}'
        || c == '\u{202f}' || c == '\u{205f}' || c == '\u{3000}'
}

/// `s` without its leading whitespace.
pub open spec fn trim_front(s: Seq<char>) -> Seq<char>
    decreases s.len(),
{
    if s.len() > 0 && is_space_char(s[0]) {
        trim_front(s.drop_first())
    } else {
        s
    }
}

/// `s` without its trailing whitespace.
pub open spec fn trim_back(s: Seq<char>) -> Seq<char>
    decreases s.len(),
{
    if s.len() > 0 && is_space_char(s.last()) {
        trim_back(s.drop_last())
    } else {
        s
    }
}

/// `s` without leading and trailing whitespace.
pub open spec fn trim_spaces(s: Seq<char>) -> Seq<char> {
    trim_back(trim_front(s))
}

/// The position of the first occurrence of `c` in `s`, if any.
pub open spec fn find_char(s: Seq<char>, c: char) -> Option<int>
    decreases s.len(),
{
    if s.len() == 0 {
        None
    } else if s[0] == c {
        Some(0)
    } else {
        match find_char(s.drop_first(), c) {
            Some(k) => Some(k + 1),
            None => None,
        }
    }
}

/// What parsing an input line yields.
pub open spec fn parse_result(s: Seq<char>) -> Option<ExprView> {
    let t = trim_spaces(s);
    if find_char(t, '>') is Some {
        let k = find_char(t, '>')->Some_0;
        Some(
            ExprView::Implication(
                trim_spaces(t.subrange(0, k)),
                trim_spaces(t.subrange(k + 1, t.len() as int)),
            ),
        )
    } else if t.len() > 0 && t[0] == '~' {
        Some(ExprView::Negation(trim_spaces(t.subrange(1, t.len() as int))))
    } else if find_char(t, '*') is Some {
        let k = find_char(t, '*')->Some_0;
        Some(
            ExprView::Conjunction(
                trim_spaces(t.subrange(0, k)),
                trim_spaces(t.subrange(k + 1, t.len() as int)),
            ),
        )
    } else if find_char(t, '+') is Some {
        let k = find_char(t, '+')->Some_0;
        Some(
            ExprView::Disjunction(
                trim_spaces(t.subrange(0, k)),
                trim_spaces(t.subrange(k + 1, t.len() as int)),
            ),
        )
    } else if t.len() > 0 && t[0] == 'R' {
        Some(ExprView::Conclusion(trim_spaces(t.subrange(1, t.len() as int))))
    } else if t.len() > 0 {
        Some(ExprView::Conclusion(t))
    } else {
        None
    }
}

/// Whether `c` is one of the whitespace characters trimming removes.
fn is_space(c: char) -> (b: bool)
    ensures
        b == is_space_char(c),
{
    c == ' ' || c == '\t' || c == '\n' || c == '\u{b}' || c == '\u{c}' || c == '\r'
        || c == '\u{85}' || c == '\u{a0}' || c == '\u{1680}' || c == '\u{2000}'
        || c == '\u{2001}' || c == '\u{2002}' || c == '\u{2003}' || c == '\u{2004}'
        || c == '\u{2005}' || c == '\u{2006}' || c == '\u{2007}' || c == '\u{2008}'
        || c == '\u{2009}' || c == '\u{200a}' || c == '\u{2028}' || c == '\u{2029}'
        || c == '\u{202f}' || c == '\u{205f}' || c == '\u{3000}'
}

proof fn lemma_trim_front_range(s: Seq<char>, lo: int)
    requires
        0 <= lo <= s.len(),
        forall|m: int| 0 <= m < lo ==> is_space_char(s[m]),
        lo == s.len() || !is_space_char(s[lo]),
    ensures
        trim_front(s) == s.subrange(lo, s.len() as int),
    decreases lo,
{
    if lo == 0 {
        assert(s.subrange(0, s.len() as int) =~= s);
    } else {
        let s2 = s.drop_first();
        lemma_trim_front_range(s2, lo - 1);
        assert(s2.subrange(lo - 1, s2.len() as int) =~= s.subrange(lo, s.len() as int));
    }
}

proof fn lemma_trim_back_range(s: Seq<char>, hi: int)
    requires
        0 <= hi <= s.len(),
        forall|m: int| hi <= m < s.len() ==> is_space_char(s[m]),
        hi == 0 || !is_space_char(s[hi - 1]),
    ensures
        trim_back(s) == s.subrange(0, hi),
    decreases s.len(),
{
    if hi == s.len() {
        if s.len() == 0 || !is_space_char(s.last()) {
            assert(s.subrange(0, s.len() as int) =~= s);
        } else {
            assert(false);
        }
    } else {
        let s2 = s.drop_last();
        lemma_trim_back_range(s2, hi);
        assert(s2.subrange(0, hi) =~= s.subrange(0, hi));
    }
}

proof fn lemma_trim_range(s: Seq<char>, lo: int, hi: int)
    requires
        0 <= lo < hi <= s.len(),
        forall|m: int| 0 <= m < lo ==> is_space_char(s[m]),
        forall|m: int| hi <= m < s.len() ==> is_space_char(s[m]),
        !is_space_char(s[lo]),
        !is_space_char(s[hi - 1]),
    ensures
        trim_spaces(s) == s.subrange(lo, hi),
{
    lemma_trim_front_range(s, lo);
    let f = trim_front(s);
    assert(f == s.subrange(lo, s.len() as int));
    lemma_trim_back_range(f, hi - lo);
    assert(f.subrange(0, hi - lo) =~= s.subrange(lo, hi));
}

/// Trimming an all-whitespace sequence leaves nothing.
proof fn lemma_all_space_trim(s: Seq<char>, lo: int)
    requires
        0 <= lo <= s.len(),
        forall|m: int| 0 <= m < s.len() ==> is_space_char(s[m]),
    ensures
        trim_spaces(s) == s.subrange(lo, lo),
{
    lemma_trim_front_range(s, s.len() as int);
    lemma_trim_back_range(trim_front(s), 0);
    assert(trim_front(s).subrange(0, 0) =~= s.subrange(lo, lo));
}

proof fn lemma_find_char_at(s: Seq<char>, c: char, k: int)
    requires
        0 <= k <= s.len(),
        forall|m: int| 0 <= m < k ==> s[m] != c,
        k == s.len() || s[k] == c,
    ensures
        find_char(s, c) == if k == s.len() {
            Option::<int>::None
        } else {
            Option::<int>::Some(k)
        },
    decreases s.len(),
{
    if s.len() == 0 {
    } else if k == 0 {
    } else {
        lemma_find_char_at(s.drop_first(), c, k - 1);
    }
}

/// Trims the ASCII whitespace from both ends of `s`.
fn trim_str<'a>(s: &'a str) -> (r: &'a str)
    ensures
        r@ == trim_spaces(s@),
{
    let n = s.unicode_len();
    let mut lo: usize = 0;
    while lo < n && is_space(s.get_char(lo))
        invariant
            0 <= lo <= n,
            n == s@.len(),
            forall|m: int| 0 <= m < lo ==> is_space_char(s@[m]),
        decreases n - lo,
    {
        lo += 1;
    }
    let mut hi: usize = n;
    while hi > lo && is_space(s.get_char(hi - 1))
        invariant
            lo <= hi <= n,
            n == s@.len(),
            lo == n || !is_space_char(s@[lo as int]),
            forall|m: int| 0 <= m < lo ==> is_space_char(s@[m]),
            forall|m: int| hi <= m < n ==> is_space_char(s@[m]),
        decreases hi,
    {
        hi -= 1;
    }
    proof {
        if lo == hi {
            assert(forall|m: int| 0 <= m < s@.len() ==> is_space_char(s@[m]));
            lemma_all_space_trim(s@, lo as int);
        } else {
            lemma_trim_range(s@, lo as int, hi as int);
        }
    }
    s.substring_char(lo, hi)
}

/// The position of the first occurrence of `c` in `s`, if any.
fn find_in_str(s: &str, c: char) -> (r: Option<usize>)
    ensures
        match r {
            Some(k) => 0 <= k < s@.len() && find_char(s@, c) == Some(k as int),
            None => find_char(s@, c) is None,
        },
{
    let n = s.unicode_len();
    let mut k: usize = 0;
    while k < n
        invariant
            0 <= k <= n,
            n == s@.len(),
            forall|m: int| 0 <= m < k ==> s@[m] != c,
        decreases n - k,
    {
        if s.get_char(k) == c {
            proof {
                lemma_find_char_at(s@, c, k as int);
            }
            return Some(k);
        }
        k += 1;
    }
    proof {
        lemma_find_char_at(s@, c, n as int);
    }
    None
}

/// Parses one raw input line into a statement, or into nothing when the line
/// is empty after trimming.
pub fn parse_expression(input: &str) -> (r: Option<LogicalExpr>)
    ensures
        match r {
            Some(e) => parse_result(input@) == Some(e@),
            None => parse_result(input@) is None,
        },
{
    let t = trim_str(input);
    let n = t.unicode_len();
    if let Some(k) = find_in_str(t, '>') {
        let left = trim_str(t.substring_char(0, k));
        let right = trim_str(t.substring_char(k + 1, n));
        Some(LogicalExpr::Implication(left.to_owned(), right.to_owned()))
    } else if n > 0 && t.get_char(0) == '~' {
        let rest = trim_str(t.substring_char(1, n));
        Some(LogicalExpr::Negation(rest.to_owned()))
    } else if let Some(k) = find_in_str(t, '*') {
        let left = trim_str(t.substring_char(0, k));
        let right = trim_str(t.substring_char(k + 1, n));
        Some(LogicalExpr::Conjunction(left.to_owned(), right.to_owned()))
    } else if let Some(k) = find_in_str(t, '+') {
        let left = trim_str(t.substring_char(0, k));
        let right = trim_str(t.substring_char(k + 1, n));
        Some(LogicalExpr::Disjunction(left.to_owned(), right.to_owned()))
    } else if n > 0 && t.get_char(0) == 'R' {
        let rest = trim_str(t.substring_char(1, n));
        Some(LogicalExpr::Conclusion(rest.to_owned()))
    } else if n > 0 {
        Some(LogicalExpr::Conclusion(t.to_owned()))
    } else {
        None
    }
}

} // verus!
