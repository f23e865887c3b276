//! The lexer: splits a line on spaces and classifies each chunk.
//!
//! A chunk is a maximal run of non-space characters, so an empty line (or one
//! of spaces only) yields no tokens at all. Each chunk is one of the seven
//! one-character symbols, a signed decimal `i32` literal, or a deferred
//! [`Token::LexicalError`]. The lexer never fails.

use vstd::prelude::*;

use crate::ast::{tokens_model, Op, Token, TokenModel};

verus! {

/// A decimal digit.
pub open spec fn is_digit_char(c: char) -> bool {
    48 <= c as int <= 57
}

/// The value of one decimal digit.
pub open spec fn digit_val(c: char) -> int {
    c as int - 48
}

/// The value of a run of decimal digits, most significant first.
pub open spec fn digits_val(s: Seq<char>) -> int
    decreases s.len(),
{
    if s.len() == 0 {
        0
    } else {
        digits_val(s.drop_last()) * 10 + digit_val(s.last())
    }
}

/// Whether every character of the sequence is a decimal digit.
pub open spec fn all_digits(s: Seq<char>) -> bool {
    forall|m: int| 0 <= m < s.len() ==> is_digit_char(#[trigger] s[m])
}

/// Whether the chunk denotes a negative number: it starts with `-`.
pub open spec fn literal_negative(s: Seq<char>) -> bool {
    s.len() > 0 && s[0] == '-'
}

/// The chunk without its optional leading sign.
pub open spec fn literal_digits(s: Seq<char>) -> Seq<char> {
    if s.len() > 0 && (s[0] == '-' || s[0] == '+') {
        s.drop_first()
    } else {
        s
    }
}

/// The signed value a chunk denotes, when it is all digits after the sign.
pub open spec fn literal_val(s: Seq<char>) -> int {
    if literal_negative(s) {
        -digits_val(literal_digits(s))
    } else {
        digits_val(literal_digits(s))
    }
}

/// Whether a chunk is a signed decimal `i32` literal: an optional `+` or `-`
/// sign, then one or more digits, with a value that fits in `i32`.
pub open spec fn is_int_literal(s: Seq<char>) -> bool {
    &&& literal_digits(s).len() > 0
    &&& all_digits(literal_digits(s))
    &&& i32::MIN <= literal_val(s) <= i32::MAX
}

/// The token a chunk is classified as: one of the seven symbols, an integer
/// literal, or a deferred lexical error carrying the chunk itself.
pub open spec fn classify_model(chunk: Seq<char>) -> TokenModel {
    if chunk.len() == 1 && chunk[0] == '^' {
        TokenModel::Operator(Op::Pow)
    } else if chunk.len() == 1 && chunk[0] == '+' {
        TokenModel::Operator(Op::Plus)
    } else if chunk.len() == 1 && chunk[0] == '-' {
        TokenModel::Operator(Op::Minus)
    } else if chunk.len() == 1 && chunk[0] == '*' {
        TokenModel::Operator(Op::Times)
    } else if chunk.len() == 1 && chunk[0] == '/' {
        TokenModel::Operator(Op::Divide)
    } else if chunk.len() == 1 && chunk[0] == '%' {
        TokenModel::Operator(Op::Modulo)
    } else if chunk.len() == 1 && chunk[0] == '(' {
        TokenModel::LParen
    } else if chunk.len() == 1 && chunk[0] == ')' {
        TokenModel::RParen
    } else if is_int_literal(chunk) {
        TokenModel::Number(literal_val(chunk) as i32)
    } else {
        TokenModel::LexicalError(chunk)
    }
}

/// The length of the chunk at the front of the sequence: the number of
/// characters before the first space.
pub open spec fn chunk_len(s: Seq<char>) -> int
    decreases s.len(),
{
    if s.len() == 0 || s[0] == ' ' {
        0
    } else {
        1 + chunk_len(s.drop_first())
    }
}

/// The chunk length is within the sequence, and positive where the sequence
/// starts with a non-space.
pub proof fn lemma_chunk_len_bounds(s: Seq<char>)
    ensures
        0 <= chunk_len(s) <= s.len(),
    decreases s.len(),
{
    if s.len() == 0 || s[0] == ' ' {
    } else {
        lemma_chunk_len_bounds(s.drop_first());
    }
}

/// The chunk length is exactly the index of the first space (or the whole
/// length when there is none).
pub proof fn lemma_chunk_len_is(s: Seq<char>, k: int)
    requires
        0 <= k <= s.len(),
        forall|m: int| 0 <= m < k ==> s[m] != ' ',
        k == s.len() || s[k] == ' ',
    ensures
        chunk_len(s) == k,
    decreases s.len(),
{
    if s.len() == 0 {
    } else if s[0] == ' ' {
        assert(k == 0);
    } else {
        assert(k >= 1);
        let d = s.drop_first();
        assert forall|m: int| 0 <= m < k - 1 implies d[m] != ' ' by {
            assert(d[m] == s[m + 1]);
        }
        assert(k - 1 == d.len() || d[k - 1] == s[k]);
        lemma_chunk_len_is(d, k - 1);
    }
}

#[via_fn]
proof fn spec_lex_decreases(s: Seq<char>)
{
    lemma_chunk_len_bounds(s);
    if s.len() > 0 && s[0] != ' ' {
        lemma_chunk_len_bounds(s.drop_first());
    }
}

/// The token sequence a line denotes: spaces are skipped, and each maximal
/// run of non-space characters is classified as one token.
pub open spec fn spec_lex(s: Seq<char>) -> Seq<TokenModel>
    decreases s.len(),
    via spec_lex_decreases
{
    if s.len() == 0 {
        Seq::empty()
    } else if s[0] == ' ' {
        spec_lex(s.drop_first())
    } else {
        seq![classify_model(s.take(chunk_len(s)))] + spec_lex(s.skip(chunk_len(s)))
    }
}

/// A run of digits is never negative in value.
proof fn lemma_digits_val_nonneg(s: Seq<char>)
    requires
        all_digits(s),
    ensures
        digits_val(s) >= 0,
    decreases s.len(),
{
    if s.len() == 0 {
    } else {
        assert(all_digits(s.drop_last())) by {
            assert(forall|m: int|
                0 <= m < s.len() - 1 ==> #[trigger] s.drop_last()[m] == s[m]);
        }
        lemma_digits_val_nonneg(s.drop_last());
    }
}

/// Extending a run of digits never shrinks its value.
proof fn lemma_digits_val_monotone(s: Seq<char>, m: int)
    requires
        all_digits(s),
        0 <= m <= s.len(),
    ensures
        digits_val(s) >= digits_val(s.take(m)),
    decreases s.len() - m,
{
    if m == s.len() {
        assert(s.take(m) =~= s);
    } else {
        assert(s.take(m + 1).drop_last() =~= s.take(m));
        assert(s.take(m + 1).last() == s[m]);
        assert(all_digits(s.take(m))) by {
            assert(forall|q: int| 0 <= q < m ==> #[trigger] s.take(m)[q] == s[q]);
        }
        lemma_digits_val_nonneg(s.take(m));
        assert(digits_val(s.take(m + 1)) == digits_val(s.take(m)) * 10 + digit_val(s[m]));
        lemma_digits_val_monotone(s, m + 1);
    }
}

/// Reads the chunk `line[start..end]` as a signed decimal `i32` literal.
/// Returns its value exactly when [`is_int_literal`] holds of the chunk.
#[verifier::loop_isolation(false)]
fn parse_int_chunk(line: &str, start: usize, end: usize) -> (r: Option<i32>)
    requires
        start < end,
        end as int <= line@.len(),
    ensures
        match r {
            Some(v) => is_int_literal(line@.subrange(start as int, end as int)) && v as int
                == literal_val(line@.subrange(start as int, end as int)),
            None => !is_int_literal(line@.subrange(start as int, end as int)),
        },
{
    let ghost chunk = line@.subrange(start as int, end as int);
    let c0 = line.get_char(start);
    proof {
        assert(chunk[0] == line@[start as int]);
    }
    let neg = c0 == '-';
    let has_sign = neg || c0 == '+';
    let di = if has_sign {
        start + 1
    } else {
        start
    };
    let ghost digits = line@.subrange(di as int, end as int);
    proof {
        if has_sign {
            assert(literal_digits(chunk) =~= digits);
        } else {
            assert(literal_digits(chunk) =~= digits);
        }
        assert(literal_negative(chunk) == neg);
    }
    if di == end {
        return None;
    }
    let mut acc: u64 = 0;
    let mut k: usize = di;
    while k < end
        invariant
            di <= k <= end,
            end as int <= line@.len(),
            digits == line@.subrange(di as int, end as int),
            all_digits(line@.subrange(di as int, k as int)),
            acc as int == digits_val(line@.subrange(di as int, k as int)),
            acc <= 0x8000_0000,
        decreases end - k,
    {
        let c = line.get_char(k);
        let d = c as u32;
        if d < 48 || d > 57 {
            proof {
                assert(digits[k - di] == line@[k as int]);
                assert(!is_digit_char(digits[k - di]));
            }
            return None;
        }
        proof {
            let ext = line@.subrange(di as int, k as int + 1);
            assert(ext.drop_last() =~= line@.subrange(di as int, k as int));
            assert(ext.last() == line@[k as int]);
            assert(all_digits(ext)) by {
                assert(forall|m: int|
                    0 <= m < ext.len() - 1 ==> #[trigger] ext[m] == line@.subrange(
                        di as int,
                        k as int,
                    )[m]);
            }
        }
        acc = acc * 10 + (d - 48) as u64;
        if acc > 0x8000_0000 {
            proof {
                let pref = line@.subrange(di as int, k as int + 1);
                if all_digits(digits) {
                    assert(digits.take(k + 1 - di) =~= pref);
                    lemma_digits_val_monotone(digits, k + 1 - di);
                    assert(digits_val(digits) > 0x8000_0000);
                } else {
                    assert(!is_int_literal(chunk));
                }
            }
            return None;
        }
        k = k + 1;
    }
    proof {
        assert(line@.subrange(di as int, k as int) =~= digits);
        lemma_digits_val_nonneg(digits);
    }
    if neg {
        if acc == 0x8000_0000 {
            Some(i32::MIN)
        } else {
            Some(-(acc as i32))
        }
    } else {
        if acc > 0x7FFF_FFFF {
            return None;
        }
        Some(acc as i32)
    }
}

/// Classifies the chunk `line[start..end]` as one token, per
/// [`classify_model`].
fn classify_chunk(line: &str, start: usize, end: usize) -> (t: Token)
    requires
        start < end,
        end as int <= line@.len(),
    ensures
        t@ == classify_model(line@.subrange(start as int, end as int)),
{
    let ghost chunk = line@.subrange(start as int, end as int);
    if end - start == 1 {
        let c = line.get_char(start);
        proof {
            assert(chunk.len() == 1);
            assert(chunk[0] == line@[start as int]);
        }
        if c == '^' {
            return Token::Operator(Op::Pow);
        }
        if c == '+' {
            return Token::Operator(Op::Plus);
        }
        if c == '-' {
            return Token::Operator(Op::Minus);
        }
        if c == '*' {
            return Token::Operator(Op::Times);
        }
        if c == '/' {
            return Token::Operator(Op::Divide);
        }
        if c == '%' {
            return Token::Operator(Op::Modulo);
        }
        if c == '(' {
            return Token::LParen;
        }
        if c == ')' {
            return Token::RParen;
        }
    }
    match parse_int_chunk(line, start, end) {
        Some(v) => Token::Number(v),
        None => Token::LexicalError(line.substring_char(start, end).to_owned()),
    }
}

/// Splits a line into tokens: chunks are maximal runs of non-space
/// characters, each classified as a symbol, an integer literal, or a deferred
/// lexical error. Never fails; an empty line yields no tokens.
#[verifier::loop_isolation(false)]
pub fn lex(line: &str) -> (r: Vec<Token>)
    ensures
        tokens_model(r@) == spec_lex(line@),
{
    let n = line.unicode_len();
    let mut tokens: Vec<Token> = Vec::new();
    let mut i: usize = 0;
    proof {
        assert(line@.skip(0) =~= line@);
        assert(tokens_model(tokens@) =~= Seq::<TokenModel>::empty());
    }
    while i < n
        invariant
            i <= n,
            n == line@.len(),
            spec_lex(line@) == tokens_model(tokens@) + spec_lex(line@.skip(i as int)),
        decreases n - i,
    {
        let c = line.get_char(i);
        if c == ' ' {
            proof {
                let s = line@.skip(i as int);
                assert(s[0] == line@[i as int]);
                assert(s.drop_first() =~= line@.skip(i as int + 1));
            }
            i = i + 1;
        } else {
            let mut j = i + 1;
            let mut scanning = true;
            while scanning
                invariant
                    i < j <= n,
                    n == line@.len(),
                    forall|m: int| i <= m < j ==> line@[m] != ' ',
                    !scanning ==> (j == n || line@[j as int] == ' '),
                decreases n - j + (if scanning { 1int } else { 0int }),
            {
                if j == n {
                    scanning = false;
                } else {
                    let cj = line.get_char(j);
                    if cj == ' ' {
                        scanning = false;
                    } else {
                        j = j + 1;
                    }
                }
            }
            let ghost s = line@.skip(i as int);
            let ghost done = tokens_model(tokens@);
            proof {
                assert forall|m: int| 0 <= m < j - i implies s[m] != ' ' by {
                    assert(s[m] == line@[i + m]);
                }
                assert(j - i == s.len() || s[j - i] == line@[j as int]);
                lemma_chunk_len_is(s, j - i);
                assert(s[0] == line@[i as int]);
                assert(s.take(j - i) =~= line@.subrange(i as int, j as int));
                assert(s.skip(j - i) =~= line@.skip(j as int));
                assert(spec_lex(s) == seq![classify_model(line@.subrange(i as int, j as int))]
                    + spec_lex(line@.skip(j as int)));
            }
            let t = classify_chunk(line, i, j);
            tokens.push(t);
            proof {
                assert(tokens_model(tokens@) =~= done.push(t@));
                assert(done.push(t@) =~= done + seq![t@]);
                assert((done + seq![t@]) + spec_lex(line@.skip(j as int)) =~= done + (seq![t@]
                    + spec_lex(line@.skip(j as int))));
            }
            i = j;
        }
    }
    proof {
        assert(line@.skip(n as int) =~= Seq::<char>::empty());
        assert(tokens_model(tokens@) + Seq::<TokenModel>::empty() =~= tokens_model(tokens@));
    }
    tokens
}

} // verus!
