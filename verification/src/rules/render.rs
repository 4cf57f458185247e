//! Expressions as text, and what rules ask of an expression: the names it
//! refers to, and whether it is a literal, true or false.

use crate::ast::{BinOp, Expression, ExprModel};
use crate::text::{chars_of, decimal_text, lemma_texts_push, push_i64, push_str, string_of, texts};
use vstd::prelude::*;

verus! {

/// The sign of an operator, as sources write it.
pub open spec fn op_symbol(op: BinOp) -> Seq<char> {
    match op {
        BinOp::Div => "/"@,
        BinOp::Add => "+"@,
        BinOp::Sub => "-"@,
        BinOp::Mul => "*"@,
        BinOp::Eq => "="@,
        BinOp::Lt => "<"@,
        BinOp::Le => "<="@,
        BinOp::Gt => ">"@,
        BinOp::Ge => ">="@,
    }
}

/// An expression as text: a name as it is, a number in decimal, a truth
/// value as `true` or `false`, an operation in infix with blanks around the
/// sign, an indexing with the index in brackets.
pub open spec fn rendered(e: ExprModel) -> Seq<char>
    decreases e,
{
    match e {
        ExprModel::VariableRef(s) => s,
        ExprModel::NumberLiteral(n, _) => decimal_text(n as int),
        ExprModel::BoolLiteral(b, _) => if b {
            "true"@
        } else {
            "false"@
        },
        ExprModel::BinaryOp { op, left, right, .. } => rendered(*left) + seq![' '] + op_symbol(op)
            + seq![' '] + rendered(*right),
        ExprModel::Index { base, index, .. } => rendered(*base) + seq!['['] + rendered(*index)
            + seq![']'],
    }
}

fn symbol_of(op: BinOp) -> (r: &'static str)
    ensures
        r@ == op_symbol(op),
{
    match op {
        BinOp::Div => "/",
        BinOp::Add => "+",
        BinOp::Sub => "-",
        BinOp::Mul => "*",
        BinOp::Eq => "=",
        BinOp::Lt => "<",
        BinOp::Le => "<=",
        BinOp::Gt => ">",
        BinOp::Ge => ">=",
    }
}

/// Appends the text of an expression to `out`.
pub fn push_expr(out: &mut Vec<char>, e: &Expression)
    ensures
        final(out)@ == old(out)@ + rendered(e@),
    decreases e,
{
    match e {
        Expression::VariableRef(s) => {
            push_str(out, s.as_str());
        },
        Expression::NumberLiteral(n, _) => {
            push_i64(out, *n);
        },
        Expression::BoolLiteral(b, _) => {
            if *b {
                push_str(out, "true");
            } else {
                push_str(out, "false");
            }
        },
        Expression::BinaryOp { op, left, right, .. } => {
            push_expr(out, left);
            out.push(' ');
            push_str(out, symbol_of(*op));
            out.push(' ');
            push_expr(out, right);
            assert(out@ =~= old(out)@ + rendered(e@));
        },
        Expression::Index { base, index, .. } => {
            push_expr(out, base);
            out.push('[');
            push_expr(out, index);
            out.push(']');
            assert(out@ =~= old(out)@ + rendered(e@));
        },
    }
}

/// The text of an expression, as characters.
pub fn expr_chars(e: &Expression) -> (r: Vec<char>)
    ensures
        r@ == rendered(e@),
{
    let mut out: Vec<char> = Vec::new();
    push_expr(&mut out, e);
    assert(Seq::<char>::empty() + rendered(e@) =~= rendered(e@));
    out
}

/// The text of an expression.
pub fn expr_text(e: &Expression) -> (r: String)
    ensures
        r@ == rendered(e@),
{
    string_of(&expr_chars(e))
}

/// The names that an expression refers to, from left to right.
pub open spec fn variables(e: ExprModel) -> Seq<Seq<char>>
    decreases e,
{
    match e {
        ExprModel::VariableRef(s) => seq![s],
        ExprModel::BinaryOp { left, right, .. } => variables(*left) + variables(*right),
        ExprModel::Index { base, index, .. } => variables(*base) + variables(*index),
        _ => Seq::empty(),
    }
}

/// Appends the names that an expression refers to.
pub fn collect_vars(e: &Expression, out: &mut Vec<Vec<char>>)
    ensures
        texts(final(out)@) == texts(old(out)@) + variables(e@),
    decreases e,
{
    match e {
        Expression::VariableRef(s) => {
            let name = chars_of(s.as_str());
            proof {
                lemma_texts_push(out@, name);
            }
            out.push(name);
            assert(texts(out@) =~= texts(old(out)@) + variables(e@));
        },
        Expression::BinaryOp { left, right, .. } => {
            collect_vars(left, out);
            collect_vars(right, out);
            assert(texts(out@) =~= texts(old(out)@) + variables(e@));
        },
        Expression::Index { base, index, .. } => {
            collect_vars(base, out);
            collect_vars(index, out);
            assert(texts(out@) =~= texts(old(out)@) + variables(e@));
        },
        _ => {
            assert(texts(out@) =~= texts(old(out)@) + variables(e@));
        },
    }
}

/// The names that an expression refers to, from left to right.
pub fn variables_of(e: &Expression) -> (r: Vec<Vec<char>>)
    ensures
        texts(r@) == variables(e@),
{
    let mut out: Vec<Vec<char>> = Vec::new();
    collect_vars(e, &mut out);
    assert(texts(Seq::<Vec<char>>::empty()) + variables(e@) =~= variables(e@));
    out
}

/// Whether an expression is a literal.
pub open spec fn literal(e: ExprModel) -> bool {
    e is NumberLiteral || e is BoolLiteral
}

/// Whether an expression is the literal `true` or a number other than zero.
pub open spec fn truthy(e: ExprModel) -> bool {
    match e {
        ExprModel::BoolLiteral(b, _) => b,
        ExprModel::NumberLiteral(n, _) => n != 0,
        _ => false,
    }
}

/// Whether an expression is the literal `false` or the number zero.
pub open spec fn falsy(e: ExprModel) -> bool {
    match e {
        ExprModel::BoolLiteral(b, _) => !b,
        ExprModel::NumberLiteral(n, _) => n == 0,
        _ => false,
    }
}

/// Whether an expression is a literal.
pub fn is_literal(e: &Expression) -> (r: bool)
    ensures
        r == literal(e@),
{
    match e {
        Expression::NumberLiteral(_, _) => true,
        Expression::BoolLiteral(_, _) => true,
        _ => false,
    }
}

/// Whether an expression is the literal `true` or a number other than zero.
pub fn is_true_expr(e: &Expression) -> (r: bool)
    ensures
        r == truthy(e@),
{
    match e {
        Expression::BoolLiteral(b, _) => *b,
        Expression::NumberLiteral(n, _) => *n != 0,
        _ => false,
    }
}

/// Whether an expression is the literal `false` or the number zero.
pub fn is_false_expr(e: &Expression) -> (r: bool)
    ensures
        r == falsy(e@),
{
    match e {
        Expression::BoolLiteral(b, _) => !*b,
        Expression::NumberLiteral(n, _) => *n == 0,
        _ => false,
    }
}

} // verus!
