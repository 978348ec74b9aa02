//! Patterns made of single-character tokens, each required or optional,
//! and a matcher for them that runs in time proportional to the product of
//! the pattern's length and the input's length.
use vstd::prelude::*;

verus! {

/// An ASCII decimal digit.
pub open spec fn is_digit(c: char) -> bool {
    '0' <= c && c <= '9'
}

/// An ASCII whitespace character: tab, line feed, vertical tab, form feed,
/// carriage return or space.
pub open spec fn is_space(c: char) -> bool {
    c == ' ' || c == '\t' || c == '\n' || c == '\x0B' || c == '\x0C' || c == '\r'
}

/// The characters that one token accepts.
#[derive(Clone, Copy)]
pub enum CharClass {
    /// An ASCII decimal digit.
    Digit,
    /// An ASCII whitespace character.
    Space,
    /// An ASCII whitespace character, `.` or `-`.
    Separator,
    /// Exactly the character given.
    Literal(char),
}

impl CharClass {
    pub open spec fn accepts(self, c: char) -> bool {
        match self {
            CharClass::Digit => is_digit(c),
            CharClass::Space => is_space(c),
            CharClass::Separator => is_space(c) || c == '.' || c == '-',
            CharClass::Literal(l) => c == l,
        }
    }

    /// Every character of the class is a digit (otherwise none is).
    pub open spec fn is_digit_class(self) -> bool {
        match self {
            CharClass::Digit => true,
            CharClass::Literal(l) => is_digit(l),
            _ => false,
        }
    }

    pub fn contains(&self, c: char) -> (r: bool)
        ensures
            r == self.accepts(c),
    {
        match self {
            CharClass::Digit => '0' <= c && c <= '9',
            CharClass::Space => c == ' ' || c == '\t' || c == '\n' || c == '\x0B' || c == '\x0C'
                || c == '\r',
            CharClass::Separator => c == ' ' || c == '\t' || c == '\n' || c == '\x0B' || c
                == '\x0C' || c == '\r' || c == '.' || c == '-',
            CharClass::Literal(l) => c == *l,
        }
    }
}

/// One position of a pattern: a character of `class`, taken exactly once
/// or, when `optional`, at most once.
#[derive(Clone, Copy)]
pub struct Token {
    pub class: CharClass,
    pub optional: bool,
}

/// Whether the whole of `s` is matched by the tokens `toks` in order.
pub open spec fn matches_tokens(toks: Seq<Token>, s: Seq<char>) -> bool
    decreases toks.len(),
{
    if toks.len() == 0 {
        s.len() == 0
    } else {
        let t = toks[0];
        ||| (s.len() > 0 && t.class.accepts(s[0]) && matches_tokens(toks.drop_first(), s.drop_first()))
        ||| (t.optional && matches_tokens(toks.drop_first(), s))
    }
}

/// A matched input is no longer than the pattern.
pub proof fn lemma_length_bound(toks: Seq<Token>, s: Seq<char>)
    requires
        matches_tokens(toks, s),
    ensures
        s.len() <= toks.len(),
    decreases toks.len(),
{
    if toks.len() > 0 {
        if s.len() > 0 && toks[0].class.accepts(s[0]) && matches_tokens(toks.drop_first(), s.drop_first()) {
            lemma_length_bound(toks.drop_first(), s.drop_first());
        } else {
            lemma_length_bound(toks.drop_first(), s);
        }
    }
}

/// A character that no token accepts never occurs in a matched input.
pub proof fn lemma_excluded_char(toks: Seq<Token>, s: Seq<char>, c: char)
    requires
        matches_tokens(toks, s),
        forall|i: int| 0 <= i < toks.len() ==> !(#[trigger] toks[i]).class.accepts(c),
    ensures
        !s.contains(c),
    decreases toks.len(),
{
    if toks.len() > 0 {
        assert(!toks[0].class.accepts(c));
        assert forall|i: int| 0 <= i < toks.drop_first().len() implies !(
        #[trigger] toks.drop_first()[i]).class.accepts(c) by {
            assert(toks.drop_first()[i] == toks[i + 1]);
        }
        if s.len() > 0 && toks[0].class.accepts(s[0]) && matches_tokens(toks.drop_first(), s.drop_first()) {
            lemma_excluded_char(toks.drop_first(), s.drop_first(), c);
            assert forall|j: int| 0 <= j < s.len() implies s[j] != c by {
                if j > 0 {
                    assert(s[j] == s.drop_first()[j - 1]);
                }
            }
        } else {
            lemma_excluded_char(toks.drop_first(), s, c);
        }
    }
}

/// The number of ASCII digits in `s`.
pub open spec fn digit_count(s: Seq<char>) -> nat
    decreases s.len(),
{
    if s.len() == 0 {
        0
    } else {
        (if is_digit(s[0]) { 1nat } else { 0nat }) + digit_count(s.drop_first())
    }
}

/// The number of digits that `toks` requires.
pub open spec fn required_digits(toks: Seq<Token>) -> nat
    decreases toks.len(),
{
    if toks.len() == 0 {
        0
    } else {
        (if toks[0].class.is_digit_class() && !toks[0].optional { 1nat } else { 0nat })
            + required_digits(toks.drop_first())
    }
}

/// The number of digits that `toks` admits.
pub open spec fn admitted_digits(toks: Seq<Token>) -> nat
    decreases toks.len(),
{
    if toks.len() == 0 {
        0
    } else {
        (if toks[0].class.is_digit_class() { 1nat } else { 0nat }) + admitted_digits(
            toks.drop_first(),
        )
    }
}

/// Digits in a concatenation add up.
pub proof fn lemma_digit_count_concat(a: Seq<char>, b: Seq<char>)
    ensures
        digit_count(a + b) == digit_count(a) + digit_count(b),
    decreases a.len(),
{
    if a.len() > 0 {
        assert((a + b).drop_first() =~= a.drop_first() + b);
        lemma_digit_count_concat(a.drop_first(), b);
    } else {
        assert(a + b =~= b);
    }
}

/// A matched input has between the required and the admitted number of
/// digits.
pub proof fn lemma_digit_bounds(toks: Seq<Token>, s: Seq<char>)
    requires
        matches_tokens(toks, s),
    ensures
        required_digits(toks) <= digit_count(s) <= admitted_digits(toks),
    decreases toks.len(),
{
    if toks.len() == 0 {
    } else if s.len() > 0 && toks[0].class.accepts(s[0]) && matches_tokens(toks.drop_first(), s.drop_first()) {
        lemma_digit_bounds(toks.drop_first(), s.drop_first());
        assert(toks[0].class.is_digit_class() <==> is_digit(s[0]));
    } else {
        lemma_digit_bounds(toks.drop_first(), s);
    }
}

/// For each position `i` of `s` (its length included), whether the suffix
/// of `s` from `i` is matched by `toks`.
pub fn suffix_matches(toks: &Vec<Token>, s: &Vec<char>) -> (r: Vec<bool>)
    requires
        s.len() < usize::MAX,
    ensures
        r.len() == s.len() + 1,
        forall|i: int| 0 <= i <= s.len() ==> #[trigger] r[i] == matches_tokens(toks@, s@.skip(i)),
{
    let n = s.len();
    let mut row: Vec<bool> = Vec::new();
    let mut i: usize = 0;
    while i <= n
        invariant
            n == s.len(),
            n < usize::MAX,
            i <= n + 1,
            row.len() == i,
            forall|j: int| 0 <= j < i ==> #[trigger] row[j] == (j == n),
        decreases n + 1 - i,
    {
        row.push(i == n);
        i = i + 1;
    }
    assert forall|j: int| 0 <= j <= n implies #[trigger] row[j] == matches_tokens(
        toks@.skip(toks@.len() as int),
        s@.skip(j),
    ) by {
        assert(toks@.skip(toks@.len() as int).len() == 0);
    }
    let mut k: usize = toks.len();
    while k > 0
        invariant
            n == s.len(),
            n < usize::MAX,
            k <= toks.len(),
            row.len() == n + 1,
            forall|j: int|
                0 <= j <= n ==> #[trigger] row[j] == matches_tokens(toks@.skip(k as int), s@.skip(j)),
        decreases k,
    {
        k = k - 1;
        let t = toks[k];
        let mut next: Vec<bool> = Vec::new();
        let mut i: usize = 0;
        while i <= n
            invariant
                n == s.len(),
                n < usize::MAX,
                k < toks.len(),
                t == toks@[k as int],
                i <= n + 1,
                row.len() == n + 1,
                next.len() == i,
                forall|j: int|
                    0 <= j <= n ==> #[trigger] row[j] == matches_tokens(
                        toks@.skip(k + 1),
                        s@.skip(j),
                    ),
                forall|j: int|
                    0 <= j < i ==> #[trigger] next[j] == matches_tokens(toks@.skip(k as int), s@.skip(j)),
            decreases n + 1 - i,
        {
            let consume = i < n && t.class.contains(s[i]) && row[i + 1];
            let b = consume || (t.optional && row[i]);
            proof {
                let ts = toks@.skip(k as int);
                assert(ts.drop_first() =~= toks@.skip(k + 1));
                assert(ts[0] == t);
                if i < n {
                    assert(s@.skip(i as int).drop_first() =~= s@.skip(i + 1));
                    assert(s@.skip(i as int)[0] == s@[i as int]);
                }
            }
            next.push(b);
            i = i + 1;
        }
        row = next;
    }
    assert(toks@.skip(0) =~= toks@);
    row
}

} // verus!
