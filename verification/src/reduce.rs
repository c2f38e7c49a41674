//! The tiered reducer: three left-to-right passes over the token sequence,
//! one precedence tier each, collapse every operator into a reduction step.
//!
//! A pass copies numbers, copies operators of later tiers, and resolves each
//! operator of its own tier against the last number already placed in the
//! output and the number that follows the operator in the input.  Resolving
//! does not compute a floating-point value here: it appends a `Step` naming
//! the operator and the two operand slots, and overwrites the last output
//! token with the fresh slot that stands for the step's result.
//!
//! At the specification level a slot's meaning is an expression tree over
//! the literal slots, so the contracts pin, exactly, which expression the
//! whole reduction denotes.

use vstd::prelude::*;

use crate::token::Operator;
use crate::token::Token;
use crate::tokenizer::number_count;
use crate::tokenizer::slots_below;

verus! {

/// The symbolic value of a slot: a numeric literal, or a binary operation on
/// two earlier slots.
pub enum Expr {
    Lit(int),
    Bin(Operator, Box<Expr>, Box<Expr>),
}

/// A reduction-level token: a number carries the expression it stands for.
pub enum ExprToken {
    Number(Expr),
    Operator(Operator),
}

/// One precedence tier, in the fixed pass order: exponentiation, then
/// multiplication and division, then addition and subtraction.
#[derive(Clone, Copy, Debug, PartialEq, Eq, Structural)]
pub enum Tier {
    Exponent,
    MulDiv,
    AddSub,
}

/// Which operators a tier resolves.
pub open spec fn tier_active(t: Tier, op: Operator) -> bool {
    match t {
        Tier::Exponent => op is Exponent,
        Tier::MulDiv => op is Multiply || op is Divide,
        Tier::AddSub => op is Add || op is Subtract,
    }
}

/// Whether a tier resolves an operator.
pub fn is_active(t: Tier, op: Operator) -> (r: bool)
    ensures
        r == tier_active(t, op),
{
    match t {
        Tier::Exponent => matches!(op, Operator::Exponent),
        Tier::MulDiv => matches!(op, Operator::Multiply | Operator::Divide),
        Tier::AddSub => matches!(op, Operator::Add | Operator::Subtract),
    }
}

/// One reduction step: apply `op` to the values of slots `lhs` and `rhs`.
/// The step's own result occupies the next fresh slot.
#[derive(Clone, Copy, Debug, PartialEq, Eq, Structural)]
pub struct Step {
    pub op: Operator,
    pub lhs: usize,
    pub rhs: usize,
}

/// The expression a step denotes, given the expressions of the slots before
/// it.
pub open spec fn step_expr(env: Seq<Expr>, s: Step) -> Expr {
    if s.lhs < env.len() && s.rhs < env.len() {
        Expr::Bin(s.op, Box::new(env[s.lhs as int]), Box::new(env[s.rhs as int]))
    } else {
        Expr::Lit(0)
    }
}

/// Each step may only read slots that exist before it.
pub open spec fn steps_wf(nlits: nat, steps: Seq<Step>) -> bool {
    forall|k: int|
        0 <= k < steps.len() ==> (#[trigger] steps[k]).lhs < nlits + k && steps[k].rhs < nlits + k
}

/// The expressions of all slots: first the literals, then one slot per step.
pub open spec fn slot_exprs(nlits: nat, steps: Seq<Step>) -> Seq<Expr>
    decreases steps.len(),
{
    if steps.len() == 0 {
        Seq::new(nlits, |j: int| Expr::Lit(j))
    } else {
        let pre = slot_exprs(nlits, steps.drop_last());
        pre.push(step_expr(pre, steps.last()))
    }
}

/// There is one slot per literal and per step.
pub proof fn lemma_slot_exprs_len(nlits: nat, steps: Seq<Step>)
    ensures
        slot_exprs(nlits, steps).len() == nlits + steps.len(),
    decreases steps.len(),
{
    if steps.len() > 0 {
        lemma_slot_exprs_len(nlits, steps.drop_last());
    }
}

/// Extending the steps only appends slots: the old slots keep their
/// expressions.
pub proof fn lemma_slot_exprs_prefix(nlits: nat, a: Seq<Step>, b: Seq<Step>)
    requires
        a.is_prefix_of(b),
    ensures
        slot_exprs(nlits, a).is_prefix_of(slot_exprs(nlits, b)),
    decreases b.len(),
{
    lemma_slot_exprs_len(nlits, a);
    lemma_slot_exprs_len(nlits, b);
    if a.len() == b.len() {
        assert(a =~= b);
    } else {
        assert(a.is_prefix_of(b.drop_last()));
        lemma_slot_exprs_prefix(nlits, a, b.drop_last());
        lemma_slot_exprs_len(nlits, b.drop_last());
    }
}

/// The reduction-level view of a token, given the slot expressions.
pub open spec fn token_view(t: Token, env: Seq<Expr>) -> ExprToken {
    match t {
        Token::Number(slot) => ExprToken::Number(env[slot as int]),
        Token::Operator(o) => ExprToken::Operator(o),
    }
}

/// The reduction-level view of a token sequence.
pub open spec fn tokens_view(ts: Seq<Token>, env: Seq<Expr>) -> Seq<ExprToken> {
    ts.map_values(|t: Token| token_view(t, env))
}

/// Numbers at even positions, operators at odd positions.
pub open spec fn alternating(s: Seq<ExprToken>) -> bool {
    forall|k: int|
        0 <= k < s.len() ==> (if k % 2 == 0 {
            s[k] is Number
        } else {
            s[k] is Operator
        })
}

/// A well-formed reduction state: `Number, Operator, ..., Number`.
pub open spec fn wf_exprs(s: Seq<ExprToken>) -> bool {
    &&& s.len() % 2 == 1
    &&& alternating(s)
}

/// An operator that occurs as a token of the sequence.
pub open spec fn op_in(s: Seq<ExprToken>, o: Operator) -> bool {
    exists|k: int| 0 <= k < s.len() && #[trigger] s[k] == ExprToken::Operator(o)
}

/// One pass, from input position `i`, with the output built so far.
///
/// A number is copied; an operator of another tier is copied; an operator of
/// the active tier combines the last number already placed in the output
/// with the number that follows it in the input, overwriting that last
/// output token.  An active operator that lacks either operand (which a
/// well-formed input never presents) is copied unchanged.
pub open spec fn pass_from(input: Seq<ExprToken>, t: Tier, i: int, out: Seq<ExprToken>) -> Seq<
    ExprToken,
>
    decreases input.len() - i,
{
    if i < 0 || i >= input.len() {
        out
    } else {
        match input[i] {
            ExprToken::Number(e) => pass_from(input, t, i + 1, out.push(ExprToken::Number(e))),
            ExprToken::Operator(o) => {
                if !tier_active(t, o) {
                    pass_from(input, t, i + 1, out.push(ExprToken::Operator(o)))
                } else if out.len() > 0 && i + 1 < input.len() && out.last() is Number && input[i
                    + 1] is Number {
                    pass_from(
                        input,
                        t,
                        i + 2,
                        out.update(
                            out.len() - 1,
                            ExprToken::Number(
                                Expr::Bin(
                                    o,
                                    Box::new(expr_of(out.last())),
                                    Box::new(expr_of(input[i + 1])),
                                ),
                            ),
                        ),
                    )
                } else {
                    pass_from(input, t, i + 1, out.push(ExprToken::Operator(o)))
                }
            },
        }
    }
}

/// One full left-to-right pass of a tier over a token sequence.
pub open spec fn pass_spec(input: Seq<ExprToken>, t: Tier) -> Seq<ExprToken> {
    pass_from(input, t, 0, Seq::empty())
}

/// The three passes, in the fixed tier order.
pub open spec fn full_reduce(s: Seq<ExprToken>) -> Seq<ExprToken> {
    pass_spec(pass_spec(pass_spec(s, Tier::Exponent), Tier::MulDiv), Tier::AddSub)
}

/// The expression a number token carries.
pub open spec fn expr_of(t: ExprToken) -> Expr {
    match t {
        ExprToken::Number(e) => e,
        ExprToken::Operator(_) => Expr::Lit(0),
    }
}

/// The single expression a well-formed sequence reduces to.
pub open spec fn final_expr(s: Seq<ExprToken>) -> Expr {
    expr_of(full_reduce(s)[0])
}

/// One reduction pass of one tier over the token sequence.
///
/// Numbers and operators of other tiers are copied.  Each operator of the
/// active tier becomes a step appended to `steps`, reading the slot of the
/// last number already placed in the output and the slot of the number that
/// follows the operator in the input; the last output token is overwritten
/// with the step's fresh result slot.  An active operator that lacks either
/// operand (which a well-formed input never presents) is copied unchanged.
///
/// The output, read under the extended slot expressions, is exactly the
/// specification pass over the input; the old steps are kept unchanged, and
/// one number disappears from the tokens per step appended.
pub fn process_pass(tokens: &Vec<Token>, tier: Tier, literal_count: usize, steps: &mut Vec<Step>) -> (out: Vec<
    Token,
>)
    requires
        steps_wf(literal_count as nat, old(steps)@),
        slots_below(tokens@, literal_count + old(steps)@.len()),
        literal_count + old(steps)@.len() + number_count(tokens@) <= usize::MAX + 1,
    ensures
        old(steps)@.is_prefix_of(final(steps)@),
        steps_wf(literal_count as nat, final(steps)@),
        slots_below(out@, literal_count + final(steps)@.len()),
        final(steps)@.len() + number_count(out@) == old(steps)@.len() + number_count(tokens@),
        tokens_view(out@, slot_exprs(literal_count as nat, final(steps)@)) == pass_spec(
            tokens_view(tokens@, slot_exprs(literal_count as nat, old(steps)@)),
            tier,
        ),
{
    let ghost env0 = slot_exprs(literal_count as nat, old(steps)@);
    let ghost inp = tokens_view(tokens@, env0);
    proof {
        lemma_slot_exprs_len(literal_count as nat, old(steps)@);
    }
    let mut out: Vec<Token> = Vec::new();
    let mut index: usize = 0;
    proof {
        assert(tokens_view(out@, slot_exprs(literal_count as nat, steps@))
            =~= Seq::<ExprToken>::empty());
        assert(tokens@.take(0) =~= Seq::<Token>::empty());
        assert(number_count(Seq::<Token>::empty()) == 0);
        assert(number_count(out@) == 0);
    }
    while index < tokens.len()
        invariant
            0 <= index <= tokens.len(),
            steps_wf(literal_count as nat, old(steps)@),
            slots_below(tokens@, literal_count + old(steps)@.len()),
            literal_count + old(steps)@.len() + number_count(tokens@) <= usize::MAX + 1,
            env0 == slot_exprs(literal_count as nat, old(steps)@),
            env0.len() == literal_count + old(steps)@.len(),
            inp == tokens_view(tokens@, env0),
            old(steps)@.is_prefix_of(steps@),
            steps_wf(literal_count as nat, steps@),
            slots_below(out@, literal_count + steps@.len()),
            steps@.len() + number_count(out@) == old(steps)@.len() + number_count(
                tokens@.take(index as int),
            ),
            pass_from(
                inp,
                tier,
                index as int,
                tokens_view(out@, slot_exprs(literal_count as nat, steps@)),
            ) == pass_spec(inp, tier),
        decreases tokens.len() - index,
    {
        proof {
            lemma_slot_exprs_len(literal_count as nat, steps@);
            lemma_slot_exprs_prefix(literal_count as nat, old(steps)@, steps@);
            assert(tokens@.take(index as int + 1) =~= tokens@.take(index as int).push(
                tokens@[index as int],
            ));
            crate::tokenizer::lemma_number_count_push(
                tokens@.take(index as int),
                tokens@[index as int],
            );
        }
        match tokens[index] {
            Token::Number(slot) => {
                let ghost out_pre = out@;
                let ghost env = slot_exprs(literal_count as nat, steps@);
                out.push(Token::Number(slot));
                proof {
                    assert(inp[index as int] == ExprToken::Number(env0[slot as int]));
                    assert(env[slot as int] == env0[slot as int]);
                    assert(tokens_view(out@, env) =~= tokens_view(out_pre, env).push(
                        ExprToken::Number(env[slot as int]),
                    ));
                    assert(slots_below(out@, literal_count + steps@.len())) by {
                        assert forall|k: int|
                            0 <= k < out@.len() implies (#[trigger] out@[k] matches Token::Number(
                            sl,
                        ) ==> sl < literal_count + steps@.len()) by {
                            if k < out_pre.len() {
                                assert(out@[k] == out_pre[k]);
                            }
                        }
                    }
                    crate::tokenizer::lemma_number_count_push(out_pre, Token::Number(slot));
                }
                index = index + 1;
            },
            Token::Operator(op) => {
                let mut reduced = false;
                if is_active(tier, op) && out.len() > 0 && index + 1 < tokens.len() {
                    let last_tok = out[out.len() - 1];
                    let next_tok = tokens[index + 1];
                    if let (Token::Number(l), Token::Number(r)) = (last_tok, next_tok) {
                        let ghost steps_pre = steps@;
                        let ghost out_pre = out@;
                        let ghost env = slot_exprs(literal_count as nat, steps_pre);
                        proof {
                            assert(out_pre.last() is Number);
                            assert(number_count(out_pre) == number_count(out_pre.drop_last())
                                + 1nat);
                            crate::tokenizer::lemma_number_count_take(tokens@, index as int);
                        }
                        let new_slot = literal_count + steps.len();
                        steps.push(Step { op, lhs: l, rhs: r });
                        out.pop();
                        out.push(Token::Number(new_slot));
                        proof {
                            let st = Step { op, lhs: l, rhs: r };
                            let env2 = slot_exprs(literal_count as nat, steps@);
                            assert(steps_pre.push(st).drop_last() =~= steps_pre);
                            assert(env2 == env.push(step_expr(env, st)));
                            lemma_slot_exprs_len(literal_count as nat, steps@);
                            assert(steps_wf(literal_count as nat, steps@)) by {
                                assert forall|k: int|
                                    0 <= k < steps@.len() implies (#[trigger] steps@[k]).lhs
                                    < literal_count + k && steps@[k].rhs < literal_count + k by {
                                    if k < steps_pre.len() {
                                        assert(steps@[k] == steps_pre[k]);
                                    }
                                }
                            }
                            // the two operand expressions the specification combines
                            assert(inp[index as int] == ExprToken::Operator(op));
                            assert(inp[index as int + 1] == ExprToken::Number(env0[r as int]));
                            assert(env[r as int] == env0[r as int]);
                            let prev_view = tokens_view(out_pre, env);
                            assert(prev_view.last() == ExprToken::Number(env[l as int]));
                            assert(step_expr(env, st) == Expr::Bin(
                                op,
                                Box::new(expr_of(prev_view.last())),
                                Box::new(expr_of(inp[index as int + 1])),
                            ));
                            assert(out@ =~= out_pre.update(
                                out_pre.len() - 1,
                                Token::Number(new_slot as usize),
                            ));
                            assert(tokens_view(out@, env2) =~= prev_view.update(
                                out_pre.len() - 1,
                                ExprToken::Number(step_expr(env, st)),
                            ));
                            assert(slots_below(out@, literal_count + steps@.len())) by {
                                assert forall|k: int|
                                    0 <= k < out@.len() implies (#[trigger] out@[k] matches
                                Token::Number(sl) ==> sl < literal_count + steps@.len()) by {
                                    if k != out_pre.len() - 1 {
                                        assert(out@[k] == out_pre[k]);
                                    }
                                }
                            }
                            // counting: the operator and its right operand are consumed
                            assert(tokens@.take(index as int + 2) =~= tokens@.take(
                                index as int + 1,
                            ).push(tokens@[index as int + 1]));
                            crate::tokenizer::lemma_number_count_push(
                                tokens@.take(index as int + 1),
                                tokens@[index as int + 1],
                            );
                            assert(out_pre.drop_last().push(Token::Number(new_slot as usize))
                                =~= out@);
                            crate::tokenizer::lemma_number_count_push(
                                out_pre.drop_last(),
                                Token::Number(new_slot as usize),
                            );
                        }
                        index = index + 2;
                        reduced = true;
                    }
                }
                if !reduced {
                    let ghost out_pre = out@;
                    let ghost env = slot_exprs(literal_count as nat, steps@);
                    out.push(Token::Operator(op));
                    proof {
                        assert(inp[index as int] == ExprToken::Operator(op));
                        assert(tokens_view(out@, env) =~= tokens_view(out_pre, env).push(
                            ExprToken::Operator(op),
                        ));
                        assert(slots_below(out@, literal_count + steps@.len())) by {
                            assert forall|k: int|
                                0 <= k < out@.len() implies (#[trigger] out@[k] matches
                            Token::Number(sl) ==> sl < literal_count + steps@.len()) by {
                                if k < out_pre.len() {
                                    assert(out@[k] == out_pre[k]);
                                }
                            }
                        }
                        crate::tokenizer::lemma_number_count_push(out_pre, Token::Operator(op));
                    }
                    index = index + 1;
                }
            },
        }
    }
    proof {
        assert(tokens@.take(tokens@.len() as int) =~= tokens@);
    }
    out
}

/// A pass on a well-formed sequence keeps it well-formed, resolves every
/// operator of its tier, and introduces no operator that the input did not
/// hold.
proof fn lemma_pass_from_props(input: Seq<ExprToken>, t: Tier, i: int, out: Seq<ExprToken>)
    requires
        wf_exprs(input),
        0 <= i <= input.len(),
        i % 2 == out.len() % 2,
        alternating(out),
        forall|o: Operator| op_in(out, o) ==> !tier_active(t, o),
    ensures
        wf_exprs(pass_from(input, t, i, out)),
        forall|o: Operator| op_in(pass_from(input, t, i, out), o) ==> !tier_active(t, o),
        forall|o: Operator| op_in(pass_from(input, t, i, out), o) ==> op_in(input, o) || op_in(
            out,
            o,
        ),
    decreases input.len() - i,
{
    let r = pass_from(input, t, i, out);
    if i >= input.len() {
        assert(i == input.len());
        assert(out.len() % 2 == 1);
    } else {
        match input[i] {
            ExprToken::Number(e) => {
                assert(i % 2 == 0);
                let out2 = out.push(ExprToken::Number(e));
                assert(alternating(out2)) by {
                    assert forall|k: int| 0 <= k < out2.len() implies (if k % 2 == 0 {
                        out2[k] is Number
                    } else {
                        out2[k] is Operator
                    }) by {
                        if k < out.len() {
                            assert(out2[k] == out[k]);
                        }
                    }
                }
                assert(forall|o: Operator| op_in(out2, o) ==> op_in(out, o)) by {
                    assert forall|o: Operator| op_in(out2, o) implies op_in(out, o) by {
                        let k = choose|k: int|
                            0 <= k < out2.len() && #[trigger] out2[k] == ExprToken::Operator(o);
                        assert(out[k] == out2[k]);
                    }
                }
                lemma_pass_from_props(input, t, i + 1, out2);
            },
            ExprToken::Operator(o) => {
                assert(i % 2 == 1);
                assert(out.len() % 2 == 1);
                if !tier_active(t, o) {
                    let out2 = out.push(ExprToken::Operator(o));
                    assert(alternating(out2)) by {
                        assert forall|k: int| 0 <= k < out2.len() implies (if k % 2 == 0 {
                            out2[k] is Number
                        } else {
                            out2[k] is Operator
                        }) by {
                            if k < out.len() {
                                assert(out2[k] == out[k]);
                            }
                        }
                    }
                    assert(forall|oo: Operator|
                        op_in(out2, oo) ==> op_in(out, oo) || oo == o) by {
                        assert forall|oo: Operator|
                            op_in(out2, oo) implies op_in(out, oo) || oo == o by {
                            let k = choose|k: int|
                                0 <= k < out2.len() && #[trigger] out2[k] == ExprToken::Operator(
                                    oo,
                                );
                            if k < out.len() {
                                assert(out[k] == out2[k]);
                            }
                        }
                    }
                    assert(op_in(input, o)) by {
                        assert(input[i] == ExprToken::Operator(o));
                    }
                    lemma_pass_from_props(input, t, i + 1, out2);
                } else {
                    // A well-formed input always presents both operands here.
                    assert(out.len() > 0);
                    assert((out.len() - 1) % 2 == 0);
                    assert(out.last() is Number);
                    assert(i + 1 < input.len()) by {
                        assert(input.len() % 2 == 1);
                    }
                    assert(input[i + 1] is Number);
                    let a = expr_of(out.last());
                    let b = expr_of(input[i + 1]);
                    let out2 = out.update(
                        out.len() - 1,
                        ExprToken::Number(Expr::Bin(o, Box::new(a), Box::new(b))),
                    );
                    assert(alternating(out2)) by {
                        assert forall|k: int| 0 <= k < out2.len() implies (if k % 2 == 0 {
                            out2[k] is Number
                        } else {
                            out2[k] is Operator
                        }) by {
                            if k != out.len() - 1 {
                                assert(out2[k] == out[k]);
                            }
                        }
                    }
                    assert(forall|oo: Operator| op_in(out2, oo) ==> op_in(out, oo)) by {
                        assert forall|oo: Operator| op_in(out2, oo) implies op_in(out, oo) by {
                            let k = choose|k: int|
                                0 <= k < out2.len() && #[trigger] out2[k] == ExprToken::Operator(
                                    oo,
                                );
                            assert(out[k] == out2[k]);
                        }
                    }
                    lemma_pass_from_props(input, t, i + 2, out2);
                }
            },
        }
    }
}

/// A pass on a well-formed sequence keeps it well-formed, resolves every
/// operator of its tier, and introduces no operator kind of its own.
pub proof fn lemma_pass_props(input: Seq<ExprToken>, t: Tier)
    requires
        wf_exprs(input),
    ensures
        wf_exprs(pass_spec(input, t)),
        forall|o: Operator| op_in(pass_spec(input, t), o) ==> !tier_active(t, o),
        forall|o: Operator| op_in(pass_spec(input, t), o) ==> op_in(input, o),
    decreases input.len(),
{
    lemma_pass_from_props(input, t, 0, Seq::empty());
    assert(forall|o: Operator| !op_in(Seq::<ExprToken>::empty(), o));
}

/// A well-formed sequence that holds no operator at all is one single
/// number.
pub proof fn lemma_wf_no_ops_single(s: Seq<ExprToken>)
    requires
        wf_exprs(s),
        forall|o: Operator| !op_in(s, o),
    ensures
        s.len() == 1,
        s[0] is Number,
{
    if s.len() >= 3 {
        assert(s[1] is Operator);
        match s[1] {
            ExprToken::Operator(o) => {
                assert(op_in(s, o)) by {
                    assert(s[1] == ExprToken::Operator(o));
                }
            },
            ExprToken::Number(_) => {},
        }
    }
    assert(s[0] is Number);
}

/// A single number reduces to itself: no operator is applied to it.
pub proof fn lemma_reduce_single(e: Expr)
    ensures
        full_reduce(seq![ExprToken::Number(e)]) =~= seq![ExprToken::Number(e)],
        final_expr(seq![ExprToken::Number(e)]) == e,
{
    reveal_with_fuel(pass_from, 3);
    assert(pass_spec(seq![ExprToken::Number(e)], Tier::Exponent) =~= seq![ExprToken::Number(e)]);
    assert(pass_spec(seq![ExprToken::Number(e)], Tier::MulDiv) =~= seq![ExprToken::Number(e)]);
    assert(pass_spec(seq![ExprToken::Number(e)], Tier::AddSub) =~= seq![ExprToken::Number(e)]);
}

/// Two operators of one tier resolve left to right: `a o1 b o2 c` denotes
/// `(a o1 b) o2 c`, never `a o1 (b o2 c)`.
pub proof fn lemma_tier_left_to_right(t: Tier, o1: Operator, o2: Operator, a: Expr, b: Expr, c: Expr)
    requires
        tier_active(t, o1),
        tier_active(t, o2),
    ensures
        final_expr(
            seq![
                ExprToken::Number(a),
                ExprToken::Operator(o1),
                ExprToken::Number(b),
                ExprToken::Operator(o2),
                ExprToken::Number(c),
            ],
        ) == Expr::Bin(
            o2,
            Box::new(Expr::Bin(o1, Box::new(a), Box::new(b))),
            Box::new(c),
        ),
{
    reveal_with_fuel(pass_from, 7);
    let s = seq![
        ExprToken::Number(a),
        ExprToken::Operator(o1),
        ExprToken::Number(b),
        ExprToken::Operator(o2),
        ExprToken::Number(c),
    ];
    let ab = Expr::Bin(o1, Box::new(a), Box::new(b));
    let abc = Expr::Bin(o2, Box::new(ab), Box::new(c));
    match t {
        Tier::Exponent => {
            assert(pass_spec(s, Tier::Exponent) =~= seq![ExprToken::Number(abc)]);
            assert(pass_spec(seq![ExprToken::Number(abc)], Tier::MulDiv) =~= seq![
                ExprToken::Number(abc),
            ]);
            assert(pass_spec(seq![ExprToken::Number(abc)], Tier::AddSub) =~= seq![
                ExprToken::Number(abc),
            ]);
        },
        Tier::MulDiv => {
            assert(pass_spec(s, Tier::Exponent) =~= s);
            assert(pass_spec(s, Tier::MulDiv) =~= seq![ExprToken::Number(abc)]);
            assert(pass_spec(seq![ExprToken::Number(abc)], Tier::AddSub) =~= seq![
                ExprToken::Number(abc),
            ]);
        },
        Tier::AddSub => {
            assert(pass_spec(s, Tier::Exponent) =~= s);
            assert(pass_spec(s, Tier::MulDiv) =~= s);
            assert(pass_spec(s, Tier::AddSub) =~= seq![ExprToken::Number(abc)]);
        },
    }
}

/// Precedence: in `a + b * c ^ d - e` the exponentiation binds tightest,
/// then the multiplication, then addition and subtraction left to right, so
/// the whole denotes `(a + (b * (c ^ d))) - e`.
pub proof fn lemma_precedence(a: Expr, b: Expr, c: Expr, d: Expr, e: Expr)
    ensures
        final_expr(
            seq![
                ExprToken::Number(a),
                ExprToken::Operator(Operator::Add),
                ExprToken::Number(b),
                ExprToken::Operator(Operator::Multiply),
                ExprToken::Number(c),
                ExprToken::Operator(Operator::Exponent),
                ExprToken::Number(d),
                ExprToken::Operator(Operator::Subtract),
                ExprToken::Number(e),
            ],
        ) == Expr::Bin(
            Operator::Subtract,
            Box::new(
                Expr::Bin(
                    Operator::Add,
                    Box::new(a),
                    Box::new(
                        Expr::Bin(
                            Operator::Multiply,
                            Box::new(b),
                            Box::new(Expr::Bin(Operator::Exponent, Box::new(c), Box::new(d))),
                        ),
                    ),
                ),
            ),
            Box::new(e),
        ),
{
    reveal_with_fuel(pass_from, 11);
    let s = seq![
        ExprToken::Number(a),
        ExprToken::Operator(Operator::Add),
        ExprToken::Number(b),
        ExprToken::Operator(Operator::Multiply),
        ExprToken::Number(c),
        ExprToken::Operator(Operator::Exponent),
        ExprToken::Number(d),
        ExprToken::Operator(Operator::Subtract),
        ExprToken::Number(e),
    ];
    let cd = Expr::Bin(Operator::Exponent, Box::new(c), Box::new(d));
    let bcd = Expr::Bin(Operator::Multiply, Box::new(b), Box::new(cd));
    let abcd = Expr::Bin(Operator::Add, Box::new(a), Box::new(bcd));
    let full = Expr::Bin(Operator::Subtract, Box::new(abcd), Box::new(e));
    let s1 = seq![
        ExprToken::Number(a),
        ExprToken::Operator(Operator::Add),
        ExprToken::Number(b),
        ExprToken::Operator(Operator::Multiply),
        ExprToken::Number(cd),
        ExprToken::Operator(Operator::Subtract),
        ExprToken::Number(e),
    ];
    let s2 = seq![
        ExprToken::Number(a),
        ExprToken::Operator(Operator::Add),
        ExprToken::Number(bcd),
        ExprToken::Operator(Operator::Subtract),
        ExprToken::Number(e),
    ];
    assert(pass_spec(s, Tier::Exponent) =~= s1);
    assert(pass_spec(s1, Tier::MulDiv) =~= s2);
    assert(pass_spec(s2, Tier::AddSub) =~= seq![ExprToken::Number(full)]);
}

/// After the three passes, a well-formed sequence is one single number.
pub proof fn lemma_full_reduce(s: Seq<ExprToken>)
    requires
        wf_exprs(s),
    ensures
        full_reduce(s).len() == 1,
        full_reduce(s)[0] is Number,
{
    let s1 = pass_spec(s, Tier::Exponent);
    let s2 = pass_spec(s1, Tier::MulDiv);
    let s3 = pass_spec(s2, Tier::AddSub);
    lemma_pass_props(s, Tier::Exponent);
    lemma_pass_props(s1, Tier::MulDiv);
    lemma_pass_props(s2, Tier::AddSub);
    assert(forall|o: Operator| !op_in(s3, o)) by {
        assert forall|o: Operator| !op_in(s3, o) by {
            if op_in(s3, o) {
                assert(!tier_active(Tier::AddSub, o));
                assert(!tier_active(Tier::MulDiv, o));
                assert(!tier_active(Tier::Exponent, o));
                match o {
                    Operator::Add => {},
                    Operator::Multiply => {},
                    Operator::Divide => {},
                    Operator::Subtract => {},
                    Operator::Exponent => {},
                }
            }
        }
    }
    lemma_wf_no_ops_single(s3);
}

} // verus!
