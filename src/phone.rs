//! The phone-number grammars and the two public recognisers.
//!
//! The national grammar is
//! `1?-?.?\s?\(?ddd\)?[\s.-]?ddd[\s.-]?dddd`; the international one puts an
//! optional prefix `\+d{1,2}\s?` in front of it. Both match the whole input.
use vstd::prelude::*;
use crate::pattern::{
    CharClass, Token, admitted_digits, digit_count, lemma_digit_bounds, lemma_digit_count_concat,
    lemma_excluded_char, lemma_length_bound, matches_tokens, required_digits, suffix_matches,
};

verus! {

/// A token taken exactly once.
pub open spec fn required(class: CharClass) -> Token {
    Token { class, optional: false }
}

/// A token taken at most once.
pub open spec fn optional(class: CharClass) -> Token {
    Token { class, optional: true }
}

/// `1?-?.?\s?\(?ddd\)?[\s.-]?ddd[\s.-]?dddd`
pub open spec fn national_tokens() -> Seq<Token> {
    seq![
        optional(CharClass::Literal('1')),
        optional(CharClass::Literal('-')),
        optional(CharClass::Literal('.')),
        optional(CharClass::Space),
        optional(CharClass::Literal('(')),
        required(CharClass::Digit),
        required(CharClass::Digit),
        required(CharClass::Digit),
        optional(CharClass::Literal(')')),
        optional(CharClass::Separator),
        required(CharClass::Digit),
        required(CharClass::Digit),
        required(CharClass::Digit),
        optional(CharClass::Separator),
        required(CharClass::Digit),
        required(CharClass::Digit),
        required(CharClass::Digit),
        required(CharClass::Digit),
    ]
}

/// `\+d{1,2}\s?`
pub open spec fn country_code_tokens() -> Seq<Token> {
    seq![
        required(CharClass::Literal('+')),
        required(CharClass::Digit),
        optional(CharClass::Digit),
        optional(CharClass::Space),
    ]
}

/// `s` is a phone number without an international prefix.
pub open spec fn without_country_code(s: Seq<char>) -> bool {
    matches_tokens(national_tokens(), s)
}

/// `s` is a phone number, possibly preceded by an international prefix.
pub open spec fn with_country_code(s: Seq<char>) -> bool {
    ||| without_country_code(s)
    ||| exists|k: int|
        0 <= k <= s.len() && #[trigger] matches_tokens(country_code_tokens(), s.take(k))
            && without_country_code(s.skip(k))
}

fn token(class: CharClass, optional: bool) -> (t: Token)
    ensures
        t == (Token { class, optional }),
{
    Token { class, optional }
}

fn national_pattern() -> (v: Vec<Token>)
    ensures
        v@ == national_tokens(),
{
    let v = vec![
        token(CharClass::Literal('1'), true),
        token(CharClass::Literal('-'), true),
        token(CharClass::Literal('.'), true),
        token(CharClass::Space, true),
        token(CharClass::Literal('('), true),
        token(CharClass::Digit, false),
        token(CharClass::Digit, false),
        token(CharClass::Digit, false),
        token(CharClass::Literal(')'), true),
        token(CharClass::Separator, true),
        token(CharClass::Digit, false),
        token(CharClass::Digit, false),
        token(CharClass::Digit, false),
        token(CharClass::Separator, true),
        token(CharClass::Digit, false),
        token(CharClass::Digit, false),
        token(CharClass::Digit, false),
        token(CharClass::Digit, false),
    ];
    assert(v@ =~= national_tokens());
    v
}

fn country_code_pattern() -> (v: Vec<Token>)
    ensures
        v@ == country_code_tokens(),
{
    let v = vec![
        token(CharClass::Literal('+'), false),
        token(CharClass::Digit, false),
        token(CharClass::Digit, true),
        token(CharClass::Space, true),
    ];
    assert(v@ =~= country_code_tokens());
    v
}

/// The characters of `s`, in order.
fn chars_of(s: &str) -> (v: Vec<char>)
    ensures
        v@ == s@,
{
    let mut v: Vec<char> = Vec::new();
    for c in it: s.chars()
        invariant
            v@ == it.seq().take(it.index() as int),
    {
        v.push(c);
    }
    v
}

/// The first `k` characters of `s`.
fn prefix_of(s: &Vec<char>, k: usize) -> (p: Vec<char>)
    requires
        k <= s.len(),
    ensures
        p@ == s@.take(k as int),
{
    let mut p: Vec<char> = Vec::new();
    let mut i: usize = 0;
    while i < k
        invariant
            k <= s.len(),
            i <= k,
            p@ == s@.take(i as int),
        decreases k - i,
    {
        p.push(s[i]);
        i = i + 1;
        assert(p@ =~= s@.take(i as int));
    }
    p
}

/// Whether `ph` is a phone number, possibly preceded by an international
/// prefix.
pub fn verify_phone_number_with_country_code(ph: &str) -> (r: bool)
    ensures
        r == with_country_code(ph@),
{
    let s = chars_of(ph);
    // A number is at most 22 characters long, so an input this long is none.
    if s.len() == usize::MAX {
        proof {
            if without_country_code(s@) {
                lemma_length_bound(national_tokens(), s@);
            }
            assert forall|k: int|
                0 <= k <= s@.len() && #[trigger] matches_tokens(country_code_tokens(), s@.take(k))
                    implies !without_country_code(s@.skip(k)) by {
                lemma_length_bound(country_code_tokens(), s@.take(k));
                if without_country_code(s@.skip(k)) {
                    lemma_length_bound(national_tokens(), s@.skip(k));
                }
            }
        }
        return false;
    }
    let row = suffix_matches(&national_pattern(), &s);
    assert(s@.skip(0) =~= s@);
    if row[0] {
        return true;
    }
    // An international prefix is at most four characters long: try each
    // split of the input into a prefix that short and a national number.
    let cc = country_code_pattern();
    let limit: usize = if s.len() < 4 { s.len() } else { 4 };
    let mut k: usize = 0;
    while k <= limit
        invariant
            s@ == ph@,
            limit <= s.len() < usize::MAX,
            limit <= 4,
            k <= limit + 1,
            cc@ == country_code_tokens(),
            row.len() == s.len() + 1,
            forall|i: int| 0 <= i <= s.len() ==> #[trigger] row[i] == without_country_code(s@.skip(i)),
            forall|j: int|
                0 <= j < k ==> !(#[trigger] matches_tokens(country_code_tokens(), s@.take(j))
                    && without_country_code(s@.skip(j))),
        decreases limit + 1 - k,
    {
        let p = prefix_of(&s, k);
        let pm = suffix_matches(&cc, &p);
        assert(p@.skip(0) =~= p@);
        if pm[0] && row[k] {
            assert(matches_tokens(country_code_tokens(), s@.take(k as int)));
            return true;
        }
        k = k + 1;
    }
    proof {
        assert forall|j: int|
            0 <= j <= s@.len() && #[trigger] matches_tokens(country_code_tokens(), s@.take(j))
                implies !without_country_code(s@.skip(j)) by {
            if j > limit {
                lemma_length_bound(country_code_tokens(), s@.take(j));
            }
        }
    }
    false
}

/// Whether `ph` is a phone number without an international prefix.
pub fn verify_phone_number_without_country_code(ph: &str) -> (r: bool)
    ensures
        r == without_country_code(ph@),
{
    let s = chars_of(ph);
    // A number is at most 18 characters long, so an input this long is none.
    if s.len() == usize::MAX {
        proof {
            if without_country_code(s@) {
                lemma_length_bound(national_tokens(), s@);
            }
        }
        return false;
    }
    let row = suffix_matches(&national_pattern(), &s);
    assert(s@.skip(0) =~= s@);
    row[0]
}

/// No input that contains `+` is a number without an international prefix.
pub proof fn lemma_plus_rejected_without_country_code(s: Seq<char>)
    requires
        s.contains('+'),
    ensures
        !without_country_code(s),
{
    if without_country_code(s) {
        assert forall|i: int| 0 <= i < national_tokens().len() implies !(
        #[trigger] national_tokens()[i]).class.accepts('+') by {}
        lemma_excluded_char(national_tokens(), s, '+');
    }
}

/// Every number without an international prefix is also accepted where a
/// prefix is allowed.
pub proof fn lemma_without_implies_with(s: Seq<char>)
    requires
        without_country_code(s),
    ensures
        with_country_code(s),
{
}

// The digit counts of the two token sequences, one token at a time from the
// end.
proof fn lemma_national_digit_counts()
    ensures
        required_digits(national_tokens()) == 10,
        admitted_digits(national_tokens()) == 11,
{
    let t = national_tokens();
    assert(t.len() == 18);
    assert(t.skip(18).len() == 0);
    assert(required_digits(t.skip(18)) == 0 && admitted_digits(t.skip(18)) == 0);
    assert(t.skip(17).drop_first() =~= t.skip(18) && t.skip(17)[0] == t[17]);
    assert(required_digits(t.skip(17)) == 1 && admitted_digits(t.skip(17)) == 1);
    assert(t.skip(16).drop_first() =~= t.skip(17) && t.skip(16)[0] == t[16]);
    assert(required_digits(t.skip(16)) == 2 && admitted_digits(t.skip(16)) == 2);
    assert(t.skip(15).drop_first() =~= t.skip(16) && t.skip(15)[0] == t[15]);
    assert(required_digits(t.skip(15)) == 3 && admitted_digits(t.skip(15)) == 3);
    assert(t.skip(14).drop_first() =~= t.skip(15) && t.skip(14)[0] == t[14]);
    assert(required_digits(t.skip(14)) == 4 && admitted_digits(t.skip(14)) == 4);
    assert(t.skip(13).drop_first() =~= t.skip(14) && t.skip(13)[0] == t[13]);
    assert(required_digits(t.skip(13)) == 4 && admitted_digits(t.skip(13)) == 4);
    assert(t.skip(12).drop_first() =~= t.skip(13) && t.skip(12)[0] == t[12]);
    assert(required_digits(t.skip(12)) == 5 && admitted_digits(t.skip(12)) == 5);
    assert(t.skip(11).drop_first() =~= t.skip(12) && t.skip(11)[0] == t[11]);
    assert(required_digits(t.skip(11)) == 6 && admitted_digits(t.skip(11)) == 6);
    assert(t.skip(10).drop_first() =~= t.skip(11) && t.skip(10)[0] == t[10]);
    assert(required_digits(t.skip(10)) == 7 && admitted_digits(t.skip(10)) == 7);
    assert(t.skip(9).drop_first() =~= t.skip(10) && t.skip(9)[0] == t[9]);
    assert(required_digits(t.skip(9)) == 7 && admitted_digits(t.skip(9)) == 7);
    assert(t.skip(8).drop_first() =~= t.skip(9) && t.skip(8)[0] == t[8]);
    assert(required_digits(t.skip(8)) == 7 && admitted_digits(t.skip(8)) == 7);
    assert(t.skip(7).drop_first() =~= t.skip(8) && t.skip(7)[0] == t[7]);
    assert(required_digits(t.skip(7)) == 8 && admitted_digits(t.skip(7)) == 8);
    assert(t.skip(6).drop_first() =~= t.skip(7) && t.skip(6)[0] == t[6]);
    assert(required_digits(t.skip(6)) == 9 && admitted_digits(t.skip(6)) == 9);
    assert(t.skip(5).drop_first() =~= t.skip(6) && t.skip(5)[0] == t[5]);
    assert(required_digits(t.skip(5)) == 10 && admitted_digits(t.skip(5)) == 10);
    assert(t.skip(4).drop_first() =~= t.skip(5) && t.skip(4)[0] == t[4]);
    assert(required_digits(t.skip(4)) == 10 && admitted_digits(t.skip(4)) == 10);
    assert(t.skip(3).drop_first() =~= t.skip(4) && t.skip(3)[0] == t[3]);
    assert(required_digits(t.skip(3)) == 10 && admitted_digits(t.skip(3)) == 10);
    assert(t.skip(2).drop_first() =~= t.skip(3) && t.skip(2)[0] == t[2]);
    assert(required_digits(t.skip(2)) == 10 && admitted_digits(t.skip(2)) == 10);
    assert(t.skip(1).drop_first() =~= t.skip(2) && t.skip(1)[0] == t[1]);
    assert(required_digits(t.skip(1)) == 10 && admitted_digits(t.skip(1)) == 10);
    assert(t.skip(0).drop_first() =~= t.skip(1) && t.skip(0)[0] == t[0]);
    assert(required_digits(t.skip(0)) == 10 && admitted_digits(t.skip(0)) == 11);
    assert(t.skip(0) =~= t);
}

proof fn lemma_country_code_digit_counts()
    ensures
        required_digits(country_code_tokens()) == 1,
        admitted_digits(country_code_tokens()) == 2,
{
    let t = country_code_tokens();
    assert(t.len() == 4);
    assert(t.skip(4).len() == 0);
    assert(required_digits(t.skip(4)) == 0 && admitted_digits(t.skip(4)) == 0);
    assert(t.skip(3).drop_first() =~= t.skip(4) && t.skip(3)[0] == t[3]);
    assert(required_digits(t.skip(3)) == 0 && admitted_digits(t.skip(3)) == 0);
    assert(t.skip(2).drop_first() =~= t.skip(3) && t.skip(2)[0] == t[2]);
    assert(required_digits(t.skip(2)) == 0 && admitted_digits(t.skip(2)) == 1);
    assert(t.skip(1).drop_first() =~= t.skip(2) && t.skip(1)[0] == t[1]);
    assert(required_digits(t.skip(1)) == 1 && admitted_digits(t.skip(1)) == 2);
    assert(t.skip(0).drop_first() =~= t.skip(1) && t.skip(0)[0] == t[0]);
    assert(required_digits(t.skip(0)) == 1 && admitted_digits(t.skip(0)) == 2);
    assert(t.skip(0) =~= t);
}

/// A number has ten or eleven digits without an international prefix, and
/// from ten to thirteen with one; so no input with fewer than ten digits,
/// the empty one among them, is accepted by either grammar.
pub proof fn lemma_digit_count(s: Seq<char>)
    ensures
        without_country_code(s) ==> 10 <= digit_count(s) <= 11,
        with_country_code(s) ==> 10 <= digit_count(s) <= 13,
        digit_count(s) < 10 ==> !without_country_code(s) && !with_country_code(s),
{
    lemma_national_digit_counts();
    lemma_country_code_digit_counts();
    if without_country_code(s) {
        lemma_digit_bounds(national_tokens(), s);
    } else if with_country_code(s) {
        let k = choose|k: int|
            0 <= k <= s.len() && #[trigger] matches_tokens(country_code_tokens(), s.take(k))
                && without_country_code(s.skip(k));
        lemma_digit_bounds(country_code_tokens(), s.take(k));
        lemma_digit_bounds(national_tokens(), s.skip(k));
        lemma_digit_count_concat(s.take(k), s.skip(k));
        assert(s.take(k) + s.skip(k) =~= s);
    }
}

/// Putting `+1` or `+1 ` in front of a number without an international
/// prefix gives a number with one.
pub proof fn lemma_international_prefix(s: Seq<char>)
    requires
        without_country_code(s),
    ensures
        with_country_code(seq!['+', '1'] + s),
        with_country_code(seq!['+', '1', ' '] + s),
{
    let cc = country_code_tokens();
    let a = seq!['+', '1'];
    let b = seq!['+', '1', ' '];
    assert(matches_tokens(cc, a)) by {
        reveal_with_fuel(matches_tokens, 5);
        assert(a.drop_first().drop_first() =~= Seq::<char>::empty());
    }
    assert(matches_tokens(cc, b)) by {
        reveal_with_fuel(matches_tokens, 5);
        assert(b.drop_first().drop_first().drop_first() =~= Seq::<char>::empty());
    }
    assert((a + s).take(2) =~= a);
    assert((a + s).skip(2) =~= s);
    assert((b + s).take(3) =~= b);
    assert((b + s).skip(3) =~= s);
}

/// Putting the trunk digit `1` in front of a ten-digit number without an
/// international prefix gives a number, under either grammar. (An
/// eleven-digit one already begins with that digit, and a second is not
/// accepted.)
pub proof fn lemma_trunk_prefix(s: Seq<char>)
    requires
        without_country_code(s),
        digit_count(s) == 10,
    ensures
        without_country_code(seq!['1'] + s),
        with_country_code(seq!['1'] + s),
{
    let toks = national_tokens();
    let rest = toks.drop_first();
    assert(admitted_digits(rest) == 10) by {
        reveal_with_fuel(admitted_digits, 19);
    }
    assert(required_digits(rest) == 10) by {
        reveal_with_fuel(required_digits, 19);
    }
    if s.len() > 0 && toks[0].class.accepts(s[0]) && matches_tokens(rest, s.drop_first()) {
        lemma_digit_bounds(rest, s.drop_first());
        assert(false);
    }
    let t = seq!['1'] + s;
    assert(t.drop_first() =~= s);
}

} // verus!
