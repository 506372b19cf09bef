//! Character classes of the grammar and runs of characters in source text.

use vstd::prelude::*;
use vstd::string::StrSliceExecFns;

verus! {

/// ASCII whitespace: space, tab, line feed, form feed, carriage return.
pub open spec fn is_whitespace(c: char) -> bool {
    c == ' ' || c == '\t' || c == '\n' || c == '\x0C' || c == '\r'
}

/// An ASCII letter, `a` to `z` or `A` to `Z`.
pub open spec fn is_alphabetic(c: char) -> bool {
    ('a' <= c && c <= 'z') || ('A' <= c && c <= 'Z')
}

/// An ASCII decimal digit, `0` to `9`.
pub open spec fn is_digit(c: char) -> bool {
    '0' <= c && c <= '9'
}

/// Decides [`is_whitespace`].
pub fn ascii_whitespace(c: char) -> (b: bool)
    ensures
        b == is_whitespace(c),
{
    c == ' ' || c == '\t' || c == '\n' || c == '\x0C' || c == '\r'
}

/// Decides [`is_alphabetic`].
pub fn ascii_alphabetic(c: char) -> (b: bool)
    ensures
        b == is_alphabetic(c),
{
    ('a' <= c && c <= 'z') || ('A' <= c && c <= 'Z')
}

/// Decides [`is_digit`].
pub fn ascii_digit(c: char) -> (b: bool)
    ensures
        b == is_digit(c),
{
    '0' <= c && c <= '9'
}

/// The kinds of character that a token of more than one character is made
/// of.
#[derive(Debug, Clone, Copy, PartialEq, Eq, Structural)]
pub enum CharClass {
    /// The letters of a word.
    Letter,
    /// The digits of an integer literal.
    Digit,
    /// The text of a string literal: anything but a double quote.
    Unquoted,
}

impl CharClass {
    /// Whether `c` belongs to the class.
    pub open spec fn holds(self, c: char) -> bool {
        match self {
            CharClass::Letter => is_alphabetic(c),
            CharClass::Digit => is_digit(c),
            CharClass::Unquoted => c != '"',
        }
    }

    /// Decides [`CharClass::holds`].
    pub fn contains(self, c: char) -> (b: bool)
        ensures
            b == self.holds(c),
    {
        match self {
            CharClass::Letter => ascii_alphabetic(c),
            CharClass::Digit => ascii_digit(c),
            CharClass::Unquoted => c != '"',
        }
    }
}

/// Whether every character of `s` belongs to `class`.
pub open spec fn all_in(s: Seq<char>, class: CharClass) -> bool {
    forall|i: int| 0 <= i < s.len() ==> class.holds(#[trigger] s[i])
}

/// The length of the longest prefix of `s` made of characters of `class`.
pub open spec fn run_len(s: Seq<char>, class: CharClass) -> nat
    decreases s.len(),
{
    if s.len() > 0 && class.holds(s[0]) {
        1 + run_len(s.skip(1), class)
    } else {
        0
    }
}

/// A run lies within the text, is made of characters of the class, and ends
/// at the end of the text or before a character that is not of the class.
pub proof fn lemma_run_len(s: Seq<char>, class: CharClass)
    ensures
        run_len(s, class) <= s.len(),
        all_in(s.take(run_len(s, class) as int), class),
        run_len(s, class) < s.len() ==> !class.holds(s[run_len(s, class) as int]),
        s.len() > 0 && class.holds(s[0]) ==> run_len(s, class) >= 1,
    decreases s.len(),
{
    if s.len() > 0 && class.holds(s[0]) {
        let rest = s.skip(1);
        lemma_run_len(rest, class);
        let n = run_len(s, class) as int;
        assert forall|i: int| 0 <= i < n implies class.holds(#[trigger] s.take(n)[i]) by {
            if i > 0 {
                assert(s.take(n)[i] == rest.take(n - 1)[i - 1]);
            }
        }
    }
}

/// The run of `class` at the start of `s` has length `n` if the first `n`
/// characters are of the class and the text ends there or goes on with a
/// character that is not.
pub proof fn lemma_run_len_is(s: Seq<char>, class: CharClass, n: int)
    requires
        0 <= n <= s.len(),
        forall|i: int| 0 <= i < n ==> class.holds(#[trigger] s[i]),
        n < s.len() ==> !class.holds(s[n]),
    ensures
        run_len(s, class) == n,
    decreases n,
{
    if n > 0 {
        let rest = s.skip(1);
        assert(forall|i: int| 0 <= i < n - 1 ==> rest[i] == s[i + 1]);
        lemma_run_len_is(rest, class, n - 1);
    }
}

/// The characters of `s`, in order.
pub fn characters(s: &str) -> (chars: Vec<char>)
    ensures
        chars@ == s@,
{
    let mut chars: Vec<char> = Vec::new();
    for c in it: s.chars()
        invariant
            it.seq() == s@,
            chars@ == s@.take(it.index()),
    {
        chars.push(c);
    }
    chars
}

/// The index at which the run of `class` that starts at `start` ends.
pub fn run_end(chars: &Vec<char>, start: usize, class: CharClass) -> (end: usize)
    requires
        start <= chars.len(),
    ensures
        start <= end <= chars.len(),
        end - start == run_len(chars@.skip(start as int), class),
{
    let mut end: usize = start;
    while end < chars.len() && class.contains(chars[end])
        invariant
            start <= end <= chars.len(),
            forall|i: int| start <= i < end ==> class.holds(#[trigger] chars@[i]),
        decreases chars.len() - end,
    {
        end += 1;
    }
    proof {
        lemma_run_len_is(chars@.skip(start as int), class, end - start);
    }
    end
}

/// Whether `chars[start..end]` spells `word`.
pub fn spells(chars: &Vec<char>, start: usize, end: usize, word: &str) -> (b: bool)
    requires
        start <= end <= chars.len(),
    ensures
        b == (chars@.subrange(start as int, end as int) == word@),
{
    let n = word.unicode_len();
    if end - start != n {
        return false;
    }
    let mut i: usize = 0;
    while i < n
        invariant
            start <= end <= chars.len(),
            n == end - start,
            n == word@.len(),
            0 <= i <= n,
            forall|j: int| 0 <= j < i ==> chars@[start + j] == #[trigger] word@[j],
        decreases n - i,
    {
        if chars[start + i] != word.get_char(i) {
            return false;
        }
        i += 1;
    }
    assert(chars@.subrange(start as int, end as int) =~= word@);
    true
}

} // verus!
