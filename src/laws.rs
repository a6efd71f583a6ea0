use vstd::prelude::*;
use crate::interpreter::{
    abs, eval, fits_i64, int_division, run_tokens, trunc_div, trunc_rem, Env, EvalFault,
    LineFault, Outcome, as_decimal, literal, written_zero, zeros_only, int_result,
};
use crate::lex::Tok;
use crate::parser::{
    branch, expr_at, is_product_op, is_sum_op, leaf, summand_at, term_at, tree_of_tokens, Parsed,
    SyntaxFault, Tree,
};
use vstd::arithmetic::div_mod::lemma_div_is_ordered_by_denominator;
use crate::value::{DecTerm, Val};

verus! {

/// Dividing one integer literal by another gives an integer when the division
/// is exact and the decimal `a / b` otherwise; dividing the least `i64` by -1
/// overflows.
pub proof fn law_integer_division(a: i64, b: i64, env: Env)
    requires
        b != 0,
    ensures
        run_tokens(seq![Tok::Integer(a), Tok::ForwardSlash, Tok::Integer(b)], env) == (
            if trunc_rem(a as int, b as int) != 0 {
                Ok::<Val, LineFault>(
                    Val::Decimal(
                        DecTerm::Div(
                            Box::new(DecTerm::FromInteger(a)),
                            Box::new(DecTerm::FromInteger(b)),
                        ),
                    ),
                )
            } else if a == i64::MIN && b == -1 {
                Err(LineFault::Eval(EvalFault::Overflow))
            } else {
                Ok(Val::Integer(trunc_div(a as int, b as int) as i64))
            },
            env,
        ),
{
    let t = seq![Tok::Integer(a), Tok::ForwardSlash, Tok::Integer(b)];
    let n = branch(Tok::ForwardSlash, leaf(Tok::Integer(a)), leaf(Tok::Integer(b)));
    assert(term_at(t, 0) == Parsed::Ok((leaf(Tok::Integer(a)), 1)));
    assert(term_at(t, 2) == Parsed::Ok((leaf(Tok::Integer(b)), 3)));
    assert(summand_at(t, 2) == Parsed::Ok((leaf(Tok::Integer(b)), 3)));
    assert(summand_at(t, 0) == Parsed::Ok((n, 3)));
    assert(expr_at(t, 0) == Parsed::Ok((n, 3)));
    assert(tree_of_tokens(t) == Ok::<Tree, SyntaxFault>(n));
    lemma_quotient_fits(a, b);
    assert(n.children[0] == leaf(Tok::Integer(a)));
    assert(n.children[1] == leaf(Tok::Integer(b)));
    assert(eval(leaf(Tok::Integer(a)), env) == (Outcome::Ok(Val::Integer(a)), env));
    assert(eval(leaf(Tok::Integer(b)), env) == (Outcome::Ok(Val::Integer(b)), env));
    assert(eval(n, env) == (int_division(a, b), env));
}

/// The quotient of two `i64` values fits in an `i64`, but for the least one by -1.
proof fn lemma_quotient_fits(a: i64, b: i64)
    requires
        b != 0,
    ensures
        fits_i64(trunc_div(a as int, b as int)) <==> !(a == i64::MIN && b == -1),
{
    let x = abs(a as int);
    let y = abs(b as int);
    lemma_div_is_ordered_by_denominator(x, 1, y);
    if y >= 2 {
        lemma_div_is_ordered_by_denominator(x, 2, y);
    }
}

/// Dividing a number by a zero, written as the integer 0 or as a decimal made
/// of zeros, fails with a division by zero.
pub proof fn law_division_by_zero(x: Tok, z: Tok, env: Env)
    requires
        x is Integer || x is Decimal,
        z == Tok::Integer(0) || (z is Decimal && zeros_only(z->Decimal_0)),
    ensures
        run_tokens(seq![x, Tok::ForwardSlash, z], env) == (
            Err::<Val, LineFault>(LineFault::Eval(EvalFault::DivisionByZero)),
            env,
        ),
{
    let t = seq![x, Tok::ForwardSlash, z];
    let n = branch(Tok::ForwardSlash, leaf(x), leaf(z));
    assert(term_at(t, 0) == Parsed::Ok((leaf(x), 1)));
    assert(term_at(t, 2) == Parsed::Ok((leaf(z), 3)));
    assert(summand_at(t, 2) == Parsed::Ok((leaf(z), 3)));
    assert(summand_at(t, 0) == Parsed::Ok((n, 3)));
    assert(expr_at(t, 0) == Parsed::Ok((n, 3)));
    assert(tree_of_tokens(t) == Ok::<Tree, SyntaxFault>(n));
    assert(n.children[0] == leaf(x));
    assert(n.children[1] == leaf(z));
    assert(eval(leaf(x), env) == (Outcome::Ok(literal(x)), env));
    assert(eval(leaf(z), env) == (Outcome::Ok(literal(z)), env));
    assert(written_zero(as_decimal(literal(z))));
}

/// A name that was never assigned cannot be evaluated.
pub proof fn law_undefined_name(name: Seq<char>, env: Env)
    requires
        !env.contains_key(name),
    ensures
        run_tokens(seq![Tok::Identifier(name)], env) == (
            Err::<Val, LineFault>(LineFault::Eval(EvalFault::UndefinedVariable(name))),
            env,
        ),
{
    let t = seq![Tok::Identifier(name)];
    assert(term_at(t, 0) == Parsed::Ok((leaf(t[0]), 1)));
    assert(summand_at(t, 0) == Parsed::Ok((leaf(t[0]), 1)));
    assert(expr_at(t, 0) == Parsed::Ok((leaf(t[0]), 1)));
    assert(eval(leaf(t[0]), env) == (Outcome::Ok(Val::Identifier(name)), env));
}

/// `a = b = k` binds both names to `k`, `b` first, and has the value `k`.
pub proof fn law_chained_assignment(a: Seq<char>, b: Seq<char>, k: i64, env: Env)
    ensures
        run_tokens(
            seq![Tok::Identifier(a), Tok::Assign, Tok::Identifier(b), Tok::Assign, Tok::Integer(k)],
            env,
        ) == (
            Ok::<Val, LineFault>(Val::Integer(k)),
            env.insert(b, Val::Integer(k)).insert(a, Val::Integer(k)),
        ),
{
    let t = seq![Tok::Identifier(a), Tok::Assign, Tok::Identifier(b), Tok::Assign, Tok::Integer(k)];
    let inner = branch(Tok::Assign, leaf(t[2]), leaf(t[4]));
    let n = branch(Tok::Assign, leaf(t[0]), inner);
    assert(term_at(t, 4) == Parsed::Ok((leaf(t[4]), 5)));
    assert(summand_at(t, 4) == Parsed::Ok((leaf(t[4]), 5)));
    assert(expr_at(t, 4) == Parsed::Ok((leaf(t[4]), 5)));
    assert(term_at(t, 2) == Parsed::Ok((leaf(t[2]), 3)));
    assert(summand_at(t, 2) == Parsed::Ok((leaf(t[2]), 3)));
    assert(expr_at(t, 2) == Parsed::Ok((inner, 5)));
    assert(term_at(t, 0) == Parsed::Ok((leaf(t[0]), 1)));
    assert(summand_at(t, 0) == Parsed::Ok((leaf(t[0]), 1)));
    assert(expr_at(t, 0) == Parsed::Ok((n, 5)));
    let e1 = env.insert(b, Val::Integer(k));
    assert(eval(leaf(t[0]), env) == (Outcome::Ok(Val::Identifier(a)), env));
    assert(eval(leaf(t[2]), env) == (Outcome::Ok(Val::Identifier(b)), env));
    assert(eval(leaf(t[4]), env) == (Outcome::Ok(Val::Integer(k)), env));
    assert(inner.children[0] == leaf(t[2]) && inner.children[1] == leaf(t[4]));
    assert(eval(inner, env) == (Outcome::Ok(Val::Integer(k)), e1));
    assert(n.children[0] == leaf(t[0]) && n.children[1] == inner);
    assert(eval(n, env) == (Outcome::Ok(Val::Integer(k)), e1.insert(a, Val::Integer(k))));
}

/// `a - b - c` groups to the right: it is `a - (b - c)`.
pub proof fn law_subtraction_groups_right(a: i64, b: i64, c: i64, env: Env)
    ensures
        tree_of_tokens(
            seq![Tok::Integer(a), Tok::Minus, Tok::Integer(b), Tok::Minus, Tok::Integer(c)],
        ) == Ok::<Tree, SyntaxFault>(
            branch(
                Tok::Minus,
                leaf(Tok::Integer(a)),
                branch(Tok::Minus, leaf(Tok::Integer(b)), leaf(Tok::Integer(c))),
            ),
        ),
        fits_i64(b - c) ==> run_tokens(
            seq![Tok::Integer(a), Tok::Minus, Tok::Integer(b), Tok::Minus, Tok::Integer(c)],
            env,
        ) == (
            if fits_i64(a - (b - c)) {
                Ok::<Val, LineFault>(Val::Integer((a - (b - c)) as i64))
            } else {
                Err(LineFault::Eval(EvalFault::Overflow))
            },
            env,
        ),
{
    let t = seq![Tok::Integer(a), Tok::Minus, Tok::Integer(b), Tok::Minus, Tok::Integer(c)];
    let inner = branch(Tok::Minus, leaf(t[2]), leaf(t[4]));
    let n = branch(Tok::Minus, leaf(t[0]), inner);
    assert(term_at(t, 4) == Parsed::Ok((leaf(t[4]), 5)));
    assert(summand_at(t, 4) == Parsed::Ok((leaf(t[4]), 5)));
    assert(expr_at(t, 4) == Parsed::Ok((leaf(t[4]), 5)));
    assert(term_at(t, 2) == Parsed::Ok((leaf(t[2]), 3)));
    assert(summand_at(t, 2) == Parsed::Ok((leaf(t[2]), 3)));
    assert(expr_at(t, 2) == Parsed::Ok((inner, 5)));
    assert(term_at(t, 0) == Parsed::Ok((leaf(t[0]), 1)));
    assert(summand_at(t, 0) == Parsed::Ok((leaf(t[0]), 1)));
    assert(expr_at(t, 0) == Parsed::Ok((n, 5)));
    assert(eval(leaf(t[0]), env) == (Outcome::Ok(Val::Integer(a)), env));
    assert(eval(leaf(t[2]), env) == (Outcome::Ok(Val::Integer(b)), env));
    assert(eval(leaf(t[4]), env) == (Outcome::Ok(Val::Integer(c)), env));
    assert(inner.children[0] == leaf(t[2]) && inner.children[1] == leaf(t[4]));
    assert(eval(inner, env) == (int_result(b - c), env));
    assert(n.children[0] == leaf(t[0]) && n.children[1] == inner);
}

/// Whether the tokens after an expression would end it: the first one, if
/// any, continues neither a sum nor a product.
pub open spec fn ends_expression(post: Seq<Tok>) -> bool {
    post.len() > 0 ==> !is_sum_op(post[0]) && !is_product_op(post[0])
}

proof fn lemma_expr_shift(pre: Seq<Tok>, t: Seq<Tok>, post: Seq<Tok>, p: int)
    requires
        0 <= p <= t.len(),
        ends_expression(post),
        expr_at(t, p) is Ok,
    ensures
        p < expr_at(t, p)->Ok_0.1 <= t.len(),
        expr_at(pre + t + post, p + pre.len()) == Parsed::Ok(
            (expr_at(t, p)->Ok_0.0, expr_at(t, p)->Ok_0.1 + pre.len()),
        ),
    decreases t.len() - p, 2nat,
{
    let w = pre + t + post;
    let s = pre.len() as int;
    lemma_summand_shift(pre, t, post, p);
    let q = summand_at(t, p)->Ok_0.1;
    if q < t.len() && is_sum_op(t[q]) {
        assert(w[q + s] == t[q]);
        lemma_expr_shift(pre, t, post, q + 1);
    } else if q < t.len() {
        assert(w[q + s] == t[q]);
    } else if q + s < w.len() {
        assert(w[q + s] == post[0]);
    }
}

proof fn lemma_summand_shift(pre: Seq<Tok>, t: Seq<Tok>, post: Seq<Tok>, p: int)
    requires
        0 <= p <= t.len(),
        ends_expression(post),
        summand_at(t, p) is Ok,
    ensures
        p < summand_at(t, p)->Ok_0.1 <= t.len(),
        summand_at(pre + t + post, p + pre.len()) == Parsed::Ok(
            (summand_at(t, p)->Ok_0.0, summand_at(t, p)->Ok_0.1 + pre.len()),
        ),
    decreases t.len() - p, 1nat,
{
    let w = pre + t + post;
    let s = pre.len() as int;
    lemma_term_shift(pre, t, post, p);
    let q = term_at(t, p)->Ok_0.1;
    if q < t.len() && is_product_op(t[q]) {
        assert(w[q + s] == t[q]);
        lemma_summand_shift(pre, t, post, q + 1);
    } else if q < t.len() {
        assert(w[q + s] == t[q]);
    } else if q + s < w.len() {
        assert(w[q + s] == post[0]);
    }
}

proof fn lemma_term_shift(pre: Seq<Tok>, t: Seq<Tok>, post: Seq<Tok>, p: int)
    requires
        0 <= p <= t.len(),
        ends_expression(post),
        term_at(t, p) is Ok,
    ensures
        p < term_at(t, p)->Ok_0.1 <= t.len(),
        term_at(pre + t + post, p + pre.len()) == Parsed::Ok(
            (term_at(t, p)->Ok_0.0, term_at(t, p)->Ok_0.1 + pre.len()),
        ),
    decreases t.len() - p, 0nat,
{
    let w = pre + t + post;
    let s = pre.len() as int;
    assert(w[p + s] == t[p]);
    match t[p] {
        Tok::Lparen => {
            lemma_expr_shift(pre, t, post, p + 1);
            let q = expr_at(t, p + 1)->Ok_0.1;
            assert(w[q + s] == t[q]);
        },
        Tok::Plus => {
            lemma_expr_shift(pre, t, post, p + 1);
        },
        Tok::Minus => {
            lemma_summand_shift(pre, t, post, p + 1);
        },
        _ => {},
    }
}

/// Putting parentheses round a whole expression changes neither its tree
/// nor, so, its value.
pub proof fn law_parentheses(t: Seq<Tok>, env: Env)
    requires
        tree_of_tokens(t) is Ok,
    ensures
        tree_of_tokens(seq![Tok::Lparen] + t + seq![Tok::Rparen]) == tree_of_tokens(t),
        run_tokens(seq![Tok::Lparen] + t + seq![Tok::Rparen], env) == run_tokens(t, env),
{
    let w = seq![Tok::Lparen] + t + seq![Tok::Rparen];
    lemma_expr_shift(seq![Tok::Lparen], t, seq![Tok::Rparen], 0);
    let n = expr_at(t, 0)->Ok_0.0;
    let k = expr_at(t, 0)->Ok_0.1;
    assert(k == t.len());
    assert(w[0] == Tok::Lparen);
    assert(w[k + 1] == Tok::Rparen);
    assert(term_at(w, 0) == Parsed::Ok((n, k + 2)));
    assert(summand_at(w, 0) == Parsed::Ok((n, k + 2)));
    assert(expr_at(w, 0) == Parsed::Ok((n, k + 2)));
}

} // verus!
