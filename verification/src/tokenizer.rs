//! The tokenizer: from an expression string to numeric literals and tokens.
//!
//! The scan walks the characters once, accumulating a pending numeric
//! literal.  An operator character flushes the pending literal and emits the
//! operator; digits and decimal points extend the literal; whitespace is
//! ignored; anything else is rejected at once.  Every way the scan can go
//! wrong is a typed error, so a successful result is always a strictly
//! alternating `Number, Operator, ..., Number` sequence.

use vstd::prelude::*;

use crate::token::CalculationError;
use crate::token::CalculationErrorKind;
use crate::token::Operator;
use crate::token::Token;
use crate::token::spec_is_digit;
use crate::token::spec_is_whitespace;
use crate::token::spec_operator_of_char;
use crate::token::operator_of_char;
use crate::token::is_digit;
use crate::token::is_whitespace;

verus! {

/// How many decimal points a pending literal holds.
pub open spec fn dot_count(s: Seq<char>) -> nat
    decreases s.len(),
{
    if s.len() == 0 {
        0
    } else {
        dot_count(s.drop_last()) + if s.last() == '.' {
            1nat
        } else {
            0nat
        }
    }
}

/// How many digits a pending literal holds.
pub open spec fn digit_count(s: Seq<char>) -> nat
    decreases s.len(),
{
    if s.len() == 0 {
        0
    } else {
        digit_count(s.drop_last()) + if spec_is_digit(s.last()) {
            1nat
        } else {
            0nat
        }
    }
}

/// A pending literal that standard decimal floating-point parsing accepts:
/// nonempty, at most one decimal point, at least one digit.
pub open spec fn spec_valid_literal(s: Seq<char>) -> bool {
    s.len() > 0 && dot_count(s) <= 1 && digit_count(s) >= 1
}

/// The outcome of tokenizing: the numeric literals in reading order, and the
/// token sequence, whose `Number` tokens index the literals.
pub type TokenizeResult = Result<(Seq<Seq<char>>, Seq<Token>), CalculationErrorKind>;

/// The end of the scan: a nonempty token sequence must not end with an
/// operator.
pub open spec fn spec_tokenize_end(lits: Seq<Seq<char>>, toks: Seq<Token>) -> TokenizeResult {
    if toks.len() == 0 {
        Err(CalculationErrorKind::EmptyExpression)
    } else if toks.last() is Operator {
        Err(CalculationErrorKind::UnexpectedEndOfInput)
    } else {
        Ok((lits, toks))
    }
}

/// The scan from position `i`, with the pending literal `buf` and the
/// literals and tokens already produced.
pub open spec fn spec_tokenize_from(
    s: Seq<char>,
    i: int,
    buf: Seq<char>,
    lits: Seq<Seq<char>>,
    toks: Seq<Token>,
) -> TokenizeResult
    decreases s.len() - i,
{
    if i < 0 || i >= s.len() {
        if buf.len() > 0 {
            if spec_valid_literal(buf) {
                spec_tokenize_end(lits.push(buf), toks.push(Token::Number(lits.len() as usize)))
            } else {
                Err(CalculationErrorKind::MalformedNumber)
            }
        } else {
            spec_tokenize_end(lits, toks)
        }
    } else {
        let c = s[i];
        match spec_operator_of_char(c) {
            Some(op) => {
                if spec_valid_literal(buf) {
                    spec_tokenize_from(
                        s,
                        i + 1,
                        Seq::empty(),
                        lits.push(buf),
                        toks.push(Token::Number(lits.len() as usize)).push(Token::Operator(op)),
                    )
                } else {
                    Err(CalculationErrorKind::MalformedNumber)
                }
            },
            None => {
                if spec_is_digit(c) || c == '.' {
                    spec_tokenize_from(s, i + 1, buf.push(c), lits, toks)
                } else if spec_is_whitespace(c) {
                    spec_tokenize_from(s, i + 1, buf, lits, toks)
                } else {
                    Err(CalculationErrorKind::InvalidCharacter(c))
                }
            },
        }
    }
}

/// What tokenizing an expression string yields.
pub open spec fn spec_tokenize(s: Seq<char>) -> TokenizeResult {
    spec_tokenize_from(s, 0, Seq::empty(), Seq::empty(), Seq::empty())
}

/// Numbers at even positions, operators at odd positions.
pub open spec fn alternating_tokens(toks: Seq<Token>) -> bool {
    forall|k: int|
        0 <= k < toks.len() ==> (if k % 2 == 0 {
            toks[k] is Number
        } else {
            toks[k] is Operator
        })
}

/// A token sequence ready for reduction: it strictly alternates
/// `Number, Operator, ..., Number`, so its length is odd.
pub open spec fn wf_tokens(toks: Seq<Token>) -> bool {
    &&& toks.len() % 2 == 1
    &&& alternating_tokens(toks)
}

/// Every `Number` token names one of the first `n` value slots.
pub open spec fn slots_below(toks: Seq<Token>, n: int) -> bool {
    forall|k: int|
        0 <= k < toks.len() ==> (#[trigger] toks[k] matches Token::Number(slot) ==> slot < n)
}

/// How many `Number` tokens a sequence holds.
pub open spec fn number_count(toks: Seq<Token>) -> nat
    decreases toks.len(),
{
    if toks.len() == 0 {
        0
    } else {
        number_count(toks.drop_last()) + if toks.last() is Number {
            1nat
        } else {
            0nat
        }
    }
}

/// Pushing a token raises the number count exactly when it is a `Number`.
pub proof fn lemma_number_count_push(s: Seq<Token>, t: Token)
    ensures
        number_count(s.push(t)) == number_count(s) + (if t is Number {
            1nat
        } else {
            0nat
        }),
{
    assert(s.push(t).drop_last() =~= s);
}

/// A prefix never holds more numbers than the whole sequence.
pub proof fn lemma_number_count_take(s: Seq<Token>, i: int)
    requires
        0 <= i <= s.len(),
    ensures
        number_count(s.take(i)) <= number_count(s),
    decreases s.len(),
{
    if i == s.len() {
        assert(s.take(i) =~= s);
    } else {
        assert(s.take(i) =~= s.drop_last().take(i));
        lemma_number_count_take(s.drop_last(), i);
    }
}

/// A successful scan, continued from any state that keeps the running
/// invariant, ends in an alternating token sequence whose `Number` tokens
/// index the valid literals, one literal per number.
proof fn lemma_tokenize_from_props(
    s: Seq<char>,
    i: int,
    buf: Seq<char>,
    lits: Seq<Seq<char>>,
    toks: Seq<Token>,
)
    requires
        toks.len() == 2 * lits.len(),
        alternating_tokens(toks),
        slots_below(toks, lits.len() as int),
        number_count(toks) == lits.len(),
        forall|j: int| 0 <= j < lits.len() ==> spec_valid_literal(#[trigger] lits[j]),
    ensures
        spec_tokenize_from(s, i, buf, lits, toks) matches Ok(ok) ==> ({
            &&& wf_tokens(ok.1)
            &&& ok.1.len() == 2 * ok.0.len() - 1
            &&& slots_below(ok.1, ok.0.len() as int)
            &&& number_count(ok.1) == ok.0.len()
            &&& forall|j: int| 0 <= j < ok.0.len() ==> spec_valid_literal(#[trigger] ok.0[j])
        }),
    decreases s.len() - i,
{
    if i < 0 || i >= s.len() {
        if buf.len() > 0 && spec_valid_literal(buf) {
            let lits2 = lits.push(buf);
            let toks2 = toks.push(Token::Number(lits.len() as usize));
            lemma_number_count_push(toks, Token::Number(lits.len() as usize));
            assert(toks2.last() is Number);
            assert(alternating_tokens(toks2)) by {
                assert forall|k: int| 0 <= k < toks2.len() implies (if k % 2 == 0 {
                    toks2[k] is Number
                } else {
                    toks2[k] is Operator
                }) by {
                    if k < toks.len() {
                        assert(toks2[k] == toks[k]);
                    }
                }
            }
        } else {
            if buf.len() == 0 && toks.len() > 0 {
                assert(toks[toks.len() - 1] is Operator);
            }
        }
    } else {
        let c = s[i];
        match spec_operator_of_char(c) {
            Some(op) => {
                if spec_valid_literal(buf) {
                    let lits2 = lits.push(buf);
                    let toks1 = toks.push(Token::Number(lits.len() as usize));
                    let toks2 = toks1.push(Token::Operator(op));
                    lemma_number_count_push(toks, Token::Number(lits.len() as usize));
                    lemma_number_count_push(toks1, Token::Operator(op));
                    assert(alternating_tokens(toks2)) by {
                        assert forall|k: int| 0 <= k < toks2.len() implies (if k % 2 == 0 {
                            toks2[k] is Number
                        } else {
                            toks2[k] is Operator
                        }) by {
                            if k < toks.len() {
                                assert(toks2[k] == toks[k]);
                            }
                        }
                    }
                    assert(slots_below(toks2, lits2.len() as int)) by {
                        assert forall|k: int|
                            0 <= k < toks2.len() implies (#[trigger] toks2[k] matches Token::Number(
                            slot,
                        ) ==> slot < lits2.len()) by {
                            if k < toks.len() {
                                assert(toks2[k] == toks[k]);
                            }
                        }
                    }
                    lemma_tokenize_from_props(s, i + 1, Seq::empty(), lits2, toks2);
                }
            },
            None => {
                if spec_is_digit(c) || c == '.' {
                    lemma_tokenize_from_props(s, i + 1, buf.push(c), lits, toks);
                } else if spec_is_whitespace(c) {
                    lemma_tokenize_from_props(s, i + 1, buf, lits, toks);
                }
            },
        }
    }
}

/// Whatever tokenizing accepts is a well-formed, strictly alternating token
/// sequence over valid literals: one more number than operators, every
/// `Number` token indexing one of the literals.
pub proof fn lemma_tokenize_props(s: Seq<char>)
    ensures
        spec_tokenize(s) matches Ok(ok) ==> ({
            &&& wf_tokens(ok.1)
            &&& ok.1.len() == 2 * ok.0.len() - 1
            &&& slots_below(ok.1, ok.0.len() as int)
            &&& number_count(ok.1) == ok.0.len()
            &&& forall|j: int| 0 <= j < ok.0.len() ==> spec_valid_literal(#[trigger] ok.0[j])
        }),
{
    lemma_tokenize_from_props(
        s,
        0,
        Seq::empty(),
        Seq::empty(),
        Seq::empty(),
    );
}

/// Relies on `str::chars`: the characters of a string, in order, are exactly
/// the string's view.
#[verifier::external_body]
fn chars_of(s: &str) -> (r: Vec<char>)
    ensures
        r@ == s@,
{
    s.chars().collect()
}

/// Whether a pending literal is one that decimal parsing accepts.
fn literal_ok(buf: &Vec<char>) -> (r: bool)
    ensures
        r == spec_valid_literal(buf@),
{
    let mut dots: usize = 0;
    let mut digits: usize = 0;
    let mut k: usize = 0;
    while k < buf.len()
        invariant
            0 <= k <= buf.len(),
            dots == dot_count(buf@.take(k as int)),
            digits == digit_count(buf@.take(k as int)),
            dots <= k,
            digits <= k,
        decreases buf.len() - k,
    {
        proof {
            assert(buf@.take(k + 1int).drop_last() =~= buf@.take(k as int));
            assert(buf@.take(k + 1int).last() == buf@[k as int]);
        }
        if buf[k] == '.' {
            dots = dots + 1;
        }
        if is_digit(buf[k]) {
            digits = digits + 1;
        }
        k = k + 1;
    }
    proof {
        assert(buf@.take(buf@.len() as int) =~= buf@);
    }
    buf.len() > 0 && dots <= 1 && digits >= 1
}

/// Convert an expression string into its numeric literals and its token
/// sequence, or say exactly why it is rejected.
///
/// On success the token sequence strictly alternates numbers and operators,
/// each `Number` token indexes the literal vector, every literal is one that
/// decimal parsing accepts, and there is one more number than there are
/// operators.
pub fn tokenize(input: &str) -> (r: Result<(Vec<Vec<char>>, Vec<Token>), CalculationError>)
    ensures
        match r {
            Ok((lits, toks)) => spec_tokenize(input@) == Ok::<_, CalculationErrorKind>(
                (lits@.map_values(|l: Vec<char>| l@), toks@),
            ),
            Err(e) => spec_tokenize(input@) == Err::<(Seq<Seq<char>>, Seq<Token>), _>(e.kind),
        },
{
    let chars = chars_of(input);
    let ghost s = input@;
    let mut buf: Vec<char> = Vec::new();
    let mut lits: Vec<Vec<char>> = Vec::new();
    let mut toks: Vec<Token> = Vec::new();
    let mut i: usize = 0;
    proof {
        assert(lits@.map_values(|l: Vec<char>| l@) =~= Seq::<Seq<char>>::empty());
    }
    while i < chars.len()
        invariant
            s == input@,
            chars@ == s,
            0 <= i <= chars.len(),
            spec_tokenize(s) == spec_tokenize_from(
                s,
                i as int,
                buf@,
                lits@.map_values(|l: Vec<char>| l@),
                toks@,
            ),
        decreases chars.len() - i,
    {
        let c = chars[i];
        match operator_of_char(c) {
            Some(op) => {
                if literal_ok(&buf) {
                    toks.push(Token::Number(lits.len()));
                    toks.push(Token::Operator(op));
                    proof {
                        assert(lits@.push(buf).map_values(|l: Vec<char>| l@) =~= lits@.map_values(
                            |l: Vec<char>| l@,
                        ).push(buf@));
                    }
                    lits.push(buf);
                    buf = Vec::new();
                } else {
                    return Err(CalculationError { kind: CalculationErrorKind::MalformedNumber });
                }
            },
            None => {
                if is_digit(c) || c == '.' {
                    buf.push(c);
                } else if is_whitespace(c) {
                    // whitespace is ignored outright
                } else {
                    return Err(
                        CalculationError { kind: CalculationErrorKind::InvalidCharacter(c) },
                    );
                }
            },
        }
        i = i + 1;
    }
    if buf.len() > 0 {
        if literal_ok(&buf) {
            toks.push(Token::Number(lits.len()));
            proof {
                assert(lits@.push(buf).map_values(|l: Vec<char>| l@) =~= lits@.map_values(
                    |l: Vec<char>| l@,
                ).push(buf@));
            }
            lits.push(buf);
        } else {
            return Err(CalculationError { kind: CalculationErrorKind::MalformedNumber });
        }
    }
    if toks.len() == 0 {
        return Err(CalculationError { kind: CalculationErrorKind::EmptyExpression });
    }
    match toks[toks.len() - 1] {
        Token::Operator(_) => Err(CalculationError { kind: CalculationErrorKind::UnexpectedEndOfInput }),
        Token::Number(_) => Ok((lits, toks)),
    }
}

} // verus!
