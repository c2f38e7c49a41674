//! The whole pipeline: from an expression string to its reduction program.
//!
//! A `Program` is what a caller executes over 64-bit floating point values:
//! parse each literal, then apply each step in order, each step producing
//! one fresh value slot, and read the result slot.  The contracts here pin
//! the program down completely: it denotes exactly the expression that the
//! tiered left-to-right reduction of the tokenized input yields.

use vstd::prelude::*;

use crate::token::CalculationError;
use crate::token::CalculationErrorKind;
use crate::token::Token;
use crate::tokenizer::number_count;
use crate::tokenizer::spec_tokenize;
use crate::tokenizer::spec_valid_literal;
use crate::tokenizer::lemma_tokenize_props;
use crate::tokenizer::tokenize;
use crate::reduce::Expr;
use crate::reduce::ExprToken;
use crate::reduce::Step;
use crate::reduce::Tier;
use crate::reduce::final_expr;
use crate::reduce::full_reduce;
use crate::reduce::lemma_full_reduce;
use crate::reduce::lemma_slot_exprs_len;
use crate::reduce::pass_spec;
use crate::reduce::process_pass;
use crate::reduce::slot_exprs;
use crate::reduce::steps_wf;
use crate::reduce::token_view;
use crate::reduce::tokens_view;
use crate::reduce::wf_exprs;

verus! {

/// The slot expressions before any step: one literal per slot.
pub open spec fn literal_env(n: nat) -> Seq<Expr> {
    Seq::new(n, |j: int| Expr::Lit(j))
}

/// The reduction program an expression compiles to.
///
/// Value slots are numbered from zero: first one slot per numeric literal,
/// in reading order, then one slot per step, in step order.  Executing the
/// program means parsing each literal into its slot, then applying each
/// step's operator to the values of its two operand slots, the step's own
/// value filling the next slot; the expression's value is the one in the
/// `result` slot.
#[derive(Clone, Debug, PartialEq, Eq)]
pub struct Program {
    pub literals: Vec<Vec<char>>,
    pub steps: Vec<Step>,
    pub result: usize,
}

impl Program {
    /// The literals as character sequences.
    pub open spec fn literal_views(self) -> Seq<Seq<char>> {
        self.literals@.map_values(|l: Vec<char>| l@)
    }

    /// Steps read only slots that exist before them; the result slot
    /// exists; every literal is one that decimal parsing accepts.
    pub open spec fn wf(self) -> bool {
        &&& steps_wf(self.literals@.len(), self.steps@)
        &&& self.result < self.literals@.len() + self.steps@.len()
        &&& forall|j: int|
            0 <= j < self.literals@.len() ==> spec_valid_literal(#[trigger] self.literals@[j]@)
    }

    /// The expression the program's result slot stands for.
    pub open spec fn denoted(self) -> Expr {
        slot_exprs(self.literals@.len(), self.steps@)[self.result as int]
    }
}

/// What compiling an expression string yields: its literals and the
/// expression the tiered reduction denotes over them, or the tokenizer's
/// error.
pub open spec fn spec_compile(s: Seq<char>) -> Result<
    (Seq<Seq<char>>, Expr),
    CalculationErrorKind,
> {
    match spec_tokenize(s) {
        Ok(ok) => Ok((ok.0, final_expr(tokens_view(ok.1, literal_env(ok.0.len()))))),
        Err(k) => Err(k),
    }
}

/// Compile an expression string into its reduction program.
///
/// On success the program is well formed and denotes exactly the expression
/// that the three reduction passes leave; on failure the error is exactly
/// the tokenizer's.  Compiling is pure: both outcomes are pinned by the
/// input characters alone.
pub fn compile(input: &str) -> (r: Result<Program, CalculationError>)
    ensures
        match r {
            Ok(p) => {
                &&& p.wf()
                &&& spec_compile(input@) matches Ok(ok)
                &&& p.literal_views() == ok.0
                &&& p.denoted() == ok.1
            },
            Err(e) => spec_compile(input@) == Err::<(Seq<Seq<char>>, Expr), CalculationErrorKind>(
                e.kind,
            ),
        },
{
    let (literals, tokens) = match tokenize(input) {
        Ok(v) => v,
        Err(e) => {
            return Err(e);
        },
    };
    let n = literals.len();
    let ghost lits_v = literals@.map_values(|l: Vec<char>| l@);
    let ghost env0 = literal_env(n as nat);
    let ghost s0 = tokens_view(tokens@, env0);
    proof {
        lemma_tokenize_props(input@);
        assert(slot_exprs(n as nat, Seq::<Step>::empty()) =~= env0);
        assert(wf_exprs(s0)) by {
            assert(s0.len() == tokens@.len());
            assert forall|k: int| 0 <= k < s0.len() implies (if k % 2 == 0 {
                s0[k] is Number
            } else {
                s0[k] is Operator
            }) by {
                assert(s0[k] == token_view(tokens@[k], env0));
            }
        }
        assert(steps_wf(n as nat, Seq::<Step>::empty()));
        assert(number_count(tokens@) == n);
        assert(tokens@.len() == 2 * n - 1);
    }
    let token_total = tokens.len();
    proof {
        assert(token_total == 2 * n - 1);
        assert(n + number_count(tokens@) <= usize::MAX + 1);
    }
    let mut steps: Vec<Step> = Vec::new();
    let t1 = process_pass(&tokens, Tier::Exponent, n, &mut steps);
    let ghost s1 = pass_spec(s0, Tier::Exponent);
    proof {
        assert(n + steps@.len() + number_count(t1@) <= usize::MAX + 1);
    }
    let t2 = process_pass(&t1, Tier::MulDiv, n, &mut steps);
    let ghost s2 = pass_spec(s1, Tier::MulDiv);
    proof {
        assert(n + steps@.len() + number_count(t2@) <= usize::MAX + 1);
    }
    let t3 = process_pass(&t2, Tier::AddSub, n, &mut steps);
    let ghost s3 = pass_spec(s2, Tier::AddSub);
    let ghost env3 = slot_exprs(n as nat, steps@);
    proof {
        lemma_full_reduce(s0);
        assert(s3 == full_reduce(s0));
        assert(tokens_view(t3@, env3) == s3);
        assert(t3@.len() == s3.len());
        assert(tokens_view(t3@, env3)[0] == token_view(t3@[0], env3));
    }
    match t3[0] {
        Token::Number(slot) => {
            proof {
                assert(s3[0] == ExprToken::Number(env3[slot as int]));
                assert(final_expr(s0) == env3[slot as int]);
                lemma_slot_exprs_len(n as nat, steps@);
            }
            let p = Program { literals, steps, result: slot };
            proof {
                assert(p.wf()) by {
                    assert(forall|j: int|
                        0 <= j < p.literals@.len() ==> spec_valid_literal(
                            #[trigger] p.literals@[j]@,
                        )) by {
                        assert forall|j: int| 0 <= j < p.literals@.len() implies spec_valid_literal(
                            #[trigger] p.literals@[j]@,
                        ) by {
                            assert(lits_v[j] == p.literals@[j]@);
                        }
                    }
                }
                assert(p.literal_views() == lits_v);
                assert(p.denoted() == env3[p.result as int]);
            }
            Ok(p)
        },
        Token::Operator(_) => {
            proof {
                assert(s3[0] is Number);
                assert(false);
            }
            Err(CalculationError { kind: CalculationErrorKind::EmptyExpression })
        },
    }
}

} // verus!
