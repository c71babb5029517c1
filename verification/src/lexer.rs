//! The lexer: scans program text into tokens.
//!
//! Scanning repeatedly matches, at the leftmost position where any pattern
//! matches, one of: a run of alphanumeric characters optionally prefixed by
//! one or more `:` sigils; a single `[` or `]`; or one of the comparison
//! operators `<=`, `<`, `>=`, `>`, `==`, `!=`, `!`.  Characters that start no
//! pattern (whitespace and anything else) are skipped silently.  Each matched
//! substring is then classified: exact keywords first, then signed 32-bit
//! numbers, then variable references (leading `:`), then identifiers.

use vstd::prelude::*;
use crate::token::{Token, TokenModel};

verus! {

/// An ASCII letter or digit: the characters a word token is made of.
pub open spec fn is_alnum(c: char) -> bool {
    ('a' <= c && c <= 'z') || ('A' <= c && c <= 'Z') || ('0' <= c && c <= '9')
}

/// An ASCII decimal digit.
pub open spec fn is_digit(c: char) -> bool {
    '0' <= c && c <= '9'
}

/// Length of the leading run of `:` characters.
pub open spec fn colon_run(s: Seq<char>) -> int
    decreases s.len(),
{
    if s.len() > 0 && s[0] == ':' {
        1 + colon_run(s.skip(1))
    } else {
        0
    }
}

/// Length of the leading run of alphanumeric characters.
pub open spec fn alnum_run(s: Seq<char>) -> int
    decreases s.len(),
{
    if s.len() > 0 && is_alnum(s[0]) {
        1 + alnum_run(s.skip(1))
    } else {
        0
    }
}

proof fn lemma_colon_run_bound(s: Seq<char>)
    ensures
        0 <= colon_run(s) <= s.len(),
    decreases s.len(),
{
    if s.len() > 0 && s[0] == ':' {
        lemma_colon_run_bound(s.skip(1));
    }
}

proof fn lemma_alnum_run_bound(s: Seq<char>)
    ensures
        0 <= alnum_run(s) <= s.len(),
    decreases s.len(),
{
    if s.len() > 0 && is_alnum(s[0]) {
        lemma_alnum_run_bound(s.skip(1));
    }
}

/// Length of the token that starts at the head of `s`, or 0 if no pattern
/// matches there.  A sigil-prefixed alphanumeric run wins where it matches;
/// otherwise a single bracket; otherwise one of the comparison operators,
/// two characters long when an `=` follows.
pub open spec fn token_len_at(s: Seq<char>) -> int {
    let cr = colon_run(s);
    let ar = alnum_run(s.skip(cr));
    if ar > 0 {
        cr + ar
    } else if s.len() > 0 && (s[0] == '[' || s[0] == ']') {
        1
    } else if s.len() > 0 && (s[0] == '<' || s[0] == '>' || s[0] == '!') {
        if s.len() > 1 && s[1] == '=' {
            2
        } else {
            1
        }
    } else if s.len() > 0 && s[0] == '=' {
        if s.len() > 1 && s[1] == '=' {
            2
        } else {
            0
        }
    } else {
        0
    }
}

/// The token length never runs past the end of the text.
pub proof fn lemma_token_len_at_bound(s: Seq<char>)
    ensures
        0 <= token_len_at(s) <= s.len(),
{
    lemma_colon_run_bound(s);
    lemma_alnum_run_bound(s.skip(colon_run(s)));
}

/// Every character of `s` is a decimal digit.
pub open spec fn all_digits(s: Seq<char>) -> bool {
    forall|i: int| 0 <= i < s.len() ==> is_digit(#[trigger] s[i])
}

/// The value of a string of decimal digits, most significant first.
pub open spec fn digits_val(s: Seq<char>) -> int
    decreases s.len(),
{
    if s.len() == 0 {
        0
    } else {
        10 * digits_val(s.take(s.len() - 1)) + (s.last() as u32 - 48)
    }
}

/// The classification of one matched substring: keyword table first, then
/// numbers that fit a signed 32-bit integer, then variable references
/// (leading sigil), then identifiers.
pub open spec fn classify(t: Seq<char>) -> TokenModel {
    if t == "forward"@ {
        TokenModel::Forward
    } else if t == "back"@ {
        TokenModel::Back
    } else if t == "right"@ {
        TokenModel::Right
    } else if t == "left"@ {
        TokenModel::Left
    } else if t == "repeat"@ {
        TokenModel::Repeat
    } else if t == "["@ {
        TokenModel::LBracket
    } else if t == "]"@ {
        TokenModel::RBracket
    } else if t == "to"@ {
        TokenModel::To
    } else if t == "end"@ {
        TokenModel::End
    } else if t == "if"@ {
        TokenModel::If
    } else if t == ">"@ {
        TokenModel::Gtr
    } else if t == "<"@ {
        TokenModel::Less
    } else if t.len() > 0 && all_digits(t) && digits_val(t) <= 0x7fff_ffff {
        TokenModel::Number(digits_val(t))
    } else if t.len() > 0 && t[0] == ':' {
        TokenModel::Var(t)
    } else {
        TokenModel::Ident(t)
    }
}

/// The token sequence of a whole text: at each position, emit the token that
/// starts there and move past it, or move one character on when no pattern
/// matches.
pub open spec fn lex_spec(s: Seq<char>) -> Seq<TokenModel>
    decreases s.len(),
    via lex_spec_decreases
{
    if s.len() == 0 {
        Seq::empty()
    } else {
        let l = token_len_at(s);
        if l == 0 {
            lex_spec(s.skip(1))
        } else {
            seq![classify(s.take(l))] + lex_spec(s.skip(l))
        }
    }
}

#[via_fn]
proof fn lex_spec_decreases(s: Seq<char>) {
    lemma_token_len_at_bound(s);
}

/// Scanning the same text twice yields the identical token sequence: the
/// lexer is a pure function of its input.
pub proof fn lemma_lex_deterministic(s1: Seq<char>, s2: Seq<char>)
    requires
        s1 == s2,
    ensures
        lex_spec(s1) == lex_spec(s2),
{
}

/// Character-by-character string equality, tied to the views.
fn str_eq(a: &str, b: &str) -> (r: bool)
    ensures
        r == (a@ == b@),
{
    let n = a.unicode_len();
    let m = b.unicode_len();
    if n != m {
        return false;
    }
    let mut i: usize = 0;
    while i < n
        invariant
            i <= n,
            n == a@.len(),
            n == b@.len(),
            forall|j: int| 0 <= j < i ==> a@[j] == b@[j],
        decreases n - i,
    {
        if a.get_char(i) != b.get_char(i) {
            return false;
        }
        i += 1;
    }
    proof {
        assert(a@ =~= b@);
    }
    true
}

/// Appending one digit multiplies the prefix value by ten.
proof fn lemma_digits_val_extend(s: Seq<char>, i: int)
    requires
        0 <= i < s.len(),
    ensures
        digits_val(s.take(i + 1)) == 10 * digits_val(s.take(i)) + (s[i] as u32 - 48),
{
    assert(s.take(i + 1).take(i) =~= s.take(i));
    assert(s.take(i + 1).last() == s[i]);
}

proof fn lemma_digits_val_nonneg(s: Seq<char>)
    requires
        all_digits(s),
    ensures
        digits_val(s) >= 0,
    decreases s.len(),
{
    if s.len() > 0 {
        assert(all_digits(s.take(s.len() - 1))) by {
            assert(forall|j: int|
                0 <= j < s.len() - 1 ==> s.take(s.len() - 1)[j] == #[trigger] s[j]);
        }
        lemma_digits_val_nonneg(s.take(s.len() - 1));
        assert(is_digit(s.last()));
    }
}

/// A digit string is worth at least any of its prefixes.
proof fn lemma_digits_val_mono(s: Seq<char>, i: int)
    requires
        all_digits(s),
        0 <= i <= s.len(),
    ensures
        digits_val(s.take(i)) <= digits_val(s),
    decreases s.len() - i,
{
    if i < s.len() {
        lemma_digits_val_extend(s, i);
        assert(all_digits(s.take(i))) by {
            assert(forall|j: int| 0 <= j < i ==> s.take(i)[j] == #[trigger] s[j]);
        }
        lemma_digits_val_nonneg(s.take(i));
        assert(is_digit(s[i]));
        lemma_digits_val_mono(s, i + 1);
    } else {
        assert(s.take(i) =~= s);
    }
}

/// Reads the text as an unsigned decimal number if it is one that fits a
/// signed 32-bit integer; anything else is refused.
fn parse_number(s: &str) -> (r: Option<i32>)
    ensures
        match r {
            Some(v) => s@.len() > 0 && all_digits(s@) && digits_val(s@) <= 0x7fff_ffff
                && v as int == digits_val(s@),
            None => !(s@.len() > 0 && all_digits(s@) && digits_val(s@) <= 0x7fff_ffff),
        },
{
    let n = s.unicode_len();
    if n == 0 {
        return None;
    }
    let mut acc: u64 = 0;
    let mut i: usize = 0;
    while i < n
        invariant
            i <= n,
            n == s@.len(),
            all_digits(s@.take(i as int)),
            acc as int == digits_val(s@.take(i as int)),
            acc <= 0x7fff_ffff,
        decreases n - i,
    {
        let c = s.get_char(i);
        if !(c >= '0' && c <= '9') {
            return None;
        }
        let d: u32 = c as u32 - 48;
        let next: u64 = acc * 10 + d as u64;
        proof {
            lemma_digits_val_extend(s@, i as int);
        }
        if next > 0x7fff_ffff {
            proof {
                if all_digits(s@) {
                    lemma_digits_val_mono(s@, i + 1);
                }
            }
            return None;
        }
        acc = next;
        i += 1;
        proof {
            assert(forall|j: int|
                0 <= j < i ==> s@.take(i as int)[j] == #[trigger] s@.take(i as int)[j]);
            assert(all_digits(s@.take(i as int))) by {
                assert(forall|j: int| 0 <= j < i - 1 ==> s@.take(i as int)[j] == s@.take(
                    i as int - 1,
                )[j]);
                assert(s@.take(i as int)[i - 1] == s@[i - 1]);
            }
        }
    }
    proof {
        assert(s@.take(n as int) =~= s@);
    }
    Some(acc as i32)
}


/// Whether `c` is an ASCII letter or digit, decided in executable code.
fn alnum_char(c: char) -> (r: bool)
    ensures
        r == is_alnum(c),
{
    (c >= 'a' && c <= 'z') || (c >= 'A' && c <= 'Z') || (c >= '0' && c <= '9')
}

/// Length of the token starting at position `i` of `s`, or 0 when no
/// pattern matches there.
fn token_len(s: &str, i: usize) -> (l: usize)
    requires
        i < s@.len(),
    ensures
        l as int == token_len_at(s@.skip(i as int)),
        i + l <= s@.len(),
{
    let n = s.unicode_len();
    let ghost base = s@.skip(i as int);
    let mut j: usize = i;
    while j < n && s.get_char(j) == ':'
        invariant
            i <= j <= n,
            n == s@.len(),
            colon_run(s@.skip(i as int)) == (j - i) + colon_run(s@.skip(j as int)),
        decreases n - j,
    {
        proof {
            assert(s@.skip(j as int)[0] == s@[j as int]);
            assert(s@.skip(j as int).skip(1) =~= s@.skip(j as int + 1));
        }
        j += 1;
    }
    proof {
        assert(colon_run(s@.skip(j as int)) == 0);
        assert(colon_run(base) == j - i);
        assert(base.skip(j - i) =~= s@.skip(j as int));
    }
    let mut k: usize = j;
    while k < n && alnum_char(s.get_char(k))
        invariant
            j <= k <= n,
            n == s@.len(),
            alnum_run(s@.skip(j as int)) == (k - j) + alnum_run(s@.skip(k as int)),
        decreases n - k,
    {
        proof {
            assert(s@.skip(k as int)[0] == s@[k as int]);
            assert(s@.skip(k as int).skip(1) =~= s@.skip(k as int + 1));
        }
        k += 1;
    }
    proof {
        assert(alnum_run(s@.skip(k as int)) == 0);
        assert(alnum_run(s@.skip(j as int)) == k - j);
    }
    if k > j {
        return k - i;
    }
    proof {
        assert(base[0] == s@[i as int]);
        assert(base.len() == n - i);
    }
    let c0 = s.get_char(i);
    if c0 == '[' || c0 == ']' {
        1
    } else if c0 == '<' || c0 == '>' || c0 == '!' {
        if i + 1 < n && s.get_char(i + 1) == '=' {
            proof {
                assert(base[1] == s@[i as int + 1]);
            }
            2
        } else {
            proof {
                if i + 1 < n {
                    assert(base[1] == s@[i as int + 1]);
                }
            }
            1
        }
    } else if c0 == '=' {
        if i + 1 < n && s.get_char(i + 1) == '=' {
            proof {
                assert(base[1] == s@[i as int + 1]);
            }
            2
        } else {
            proof {
                if i + 1 < n {
                    assert(base[1] == s@[i as int + 1]);
                }
            }
            0
        }
    } else {
        0
    }
}

/// Classifies one matched substring into its token.
fn classify_token(sub: &str) -> (t: Token)
    requires
        sub@.len() > 0,
    ensures
        t.deep_view() == classify(sub@),
{
    if str_eq(sub, "forward") {
        Token::Forward
    } else if str_eq(sub, "back") {
        Token::Back
    } else if str_eq(sub, "right") {
        Token::Right
    } else if str_eq(sub, "left") {
        Token::Left
    } else if str_eq(sub, "repeat") {
        Token::Repeat
    } else if str_eq(sub, "[") {
        Token::LBracket
    } else if str_eq(sub, "]") {
        Token::RBracket
    } else if str_eq(sub, "to") {
        Token::To
    } else if str_eq(sub, "end") {
        Token::End
    } else if str_eq(sub, "if") {
        Token::If
    } else if str_eq(sub, ">") {
        Token::Gtr
    } else if str_eq(sub, "<") {
        Token::Less
    } else {
        match parse_number(sub) {
            Some(v) => Token::Number(v),
            None => {
                let c = sub.get_char(0);
                if c == ':' {
                    Token::Var(sub.to_owned())
                } else {
                    Token::Ident(sub.to_owned())
                }
            },
        }
    }
}

/// Scans the whole program text into its token sequence, in source order.
pub fn lex(input: &str) -> (tokens: std::collections::VecDeque<Token>)
    ensures
        tokens.deep_view() == lex_spec(input@),
{
    let n = input.unicode_len();
    let mut tokens: std::collections::VecDeque<Token> = std::collections::VecDeque::new();
    let mut i: usize = 0;
    proof {
        assert(input@.skip(0) =~= input@);
        assert(tokens.deep_view() =~= Seq::<TokenModel>::empty());
    }
    while i < n
        invariant
            i <= n,
            n == input@.len(),
            tokens.deep_view() + lex_spec(input@.skip(i as int)) == lex_spec(input@),
        decreases n - i,
    {
        let ghost pre = tokens.deep_view();
        let l = token_len(input, i);
        if l == 0 {
            proof {
                assert(input@.skip(i as int).skip(1) =~= input@.skip(i as int + 1));
            }
            i += 1;
        } else {
            let sub = input.substring_char(i, i + l);
            let t = classify_token(sub);
            proof {
                assert(input@.skip(i as int).take(l as int) =~= input@.subrange(
                    i as int,
                    i as int + l as int,
                ));
                assert(input@.skip(i as int).skip(l as int) =~= input@.skip(i as int + l as int));
            }
            tokens.push_back(t);
            proof {
                assert(tokens.deep_view() =~= pre + seq![t.deep_view()]);
                assert(pre + (seq![t.deep_view()] + lex_spec(input@.skip(i as int + l as int)))
                    =~= (pre + seq![t.deep_view()]) + lex_spec(input@.skip(i as int + l as int)));
            }
            i += l;
        }
    }
    proof {
        assert(lex_spec(input@.skip(i as int)) =~= Seq::<TokenModel>::empty());
        assert(tokens.deep_view() + Seq::<TokenModel>::empty() =~= tokens.deep_view());
    }
    tokens
}

} // verus!
