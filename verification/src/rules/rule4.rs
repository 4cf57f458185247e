//! Rule 4: divisions stand under a check of the status word. A division
//! outside every conditional that tests the status flags is reported.

use crate::ast::{
    BinOp, Expression, ExprModel, FunctionModel, lemma_stmts_view_step, Program, ProgramModel,
    Statement, StmtModel, stmts_view,
};
use crate::rules::{
    lemma_numbered_add, lemma_over_functions_numbered, lemma_over_functions_step, numbered, outcome,
    over_functions, report, RuleResult, Violation, violation, ViolationModel, violations_view,
};
use crate::rules::render::{expr_chars, rendered};
use crate::rules::words::mentions;
use crate::text::{chars_of, contains_str, to_upper};
use vstd::prelude::*;

verus! {

/// Whether a condition tests the status word: it names `SW.` and one of the
/// flag tests, in any case.
pub open spec fn is_flag_guard(condition: ExprModel) -> bool {
    let c = rendered(condition);
    mentions(c, "SW."@) && (mentions(c, "OV=0"@) || mentions(c, "OS=0"@) || mentions(c, "Z=0"@)
        || mentions(c, "/=0"@))
}

/// The finding for a division at a line.
pub open spec fn division_violation(line: usize) -> ViolationModel {
    ViolationModel {
        rule_no: 4,
        rule_name: "Use PLC flags as integrity checks"@,
        line,
        reason: "Division operation without status-word / zero-divisor guard"@,
        suggestion: "Wrap division inside IF SW.OV=0 AND SW.OS=0 AND divisor<>0 THEN ..."@,
    }
}

/// The findings in one expression: one for each division in it, where it is
/// not guarded. The operands of every operation and indexing are searched.
pub open spec fn division_violations(
    e: ExprModel,
    line: usize,
    guarded: bool,
) -> Seq<ViolationModel>
    decreases e,
{
    match e {
        ExprModel::BinaryOp { op, left, right, .. } => (if op == BinOp::Div && !guarded {
            seq![division_violation(line)]
        } else {
            Seq::empty()
        }) + division_violations(*left, line, guarded) + division_violations(*right, line, guarded),
        ExprModel::Index { base, index, .. } => division_violations(*base, line, guarded)
            + division_violations(*index, line, guarded),
        _ => Seq::empty(),
    }
}

/// The findings in one statement. Both branches of a conditional are
/// guarded where the conditional stands guarded or its condition tests the
/// status word.
pub open spec fn stmt_violations(st: StmtModel, guarded: bool) -> Seq<ViolationModel>
    decreases st,
{
    match st {
        StmtModel::IfStmt { condition, then_branch, else_branch, .. } => {
            let g = guarded || is_flag_guard(condition);
            stmts_violations(then_branch, g) + stmts_violations(else_branch, g)
        },
        StmtModel::Assign { value, line, .. } => division_violations(value, line, guarded),
        StmtModel::Expr { expr, line } => division_violations(expr, line, guarded),
        _ => Seq::empty(),
    }
}

/// The findings in a sequence of statements, in order.
pub open spec fn stmts_violations(stmts: Seq<StmtModel>, guarded: bool) -> Seq<ViolationModel>
    decreases stmts,
{
    if stmts.len() == 0 {
        Seq::empty()
    } else {
        stmts_violations(stmts.drop_last(), guarded) + stmt_violations(stmts.last(), guarded)
    }
}

/// The findings of the rule for a program: those of the bodies of its
/// routines, each unguarded at its start.
pub open spec fn rule_violations(p: ProgramModel) -> Seq<ViolationModel> {
    over_functions(p.functions, |f: FunctionModel| stmts_violations(f.statements, false))
}

/// Appends the findings in one expression.
pub fn find_divs(expr: &Expression, line: usize, guarded: bool, out: &mut Vec<Violation>)
    ensures
        violations_view(final(out)@) == violations_view(old(out)@) + division_violations(
            expr@,
            line,
            guarded,
        ),
    decreases expr,
{
    match expr {
        Expression::BinaryOp { op, left, right, .. } => {
            if *op == BinOp::Div && !guarded {
                report(
                    out,
                    violation(
                        4,
                        "Use PLC flags as integrity checks",
                        line,
                        &chars_of("Division operation without status-word / zero-divisor guard"),
                        "Wrap division inside IF SW.OV=0 AND SW.OS=0 AND divisor<>0 THEN ...",
                    ),
                );
            }
            find_divs(left, line, guarded, out);
            find_divs(right, line, guarded, out);
            assert(violations_view(out@) =~= violations_view(old(out)@) + division_violations(
                expr@,
                line,
                guarded,
            ));
        },
        Expression::Index { base, index, .. } => {
            find_divs(base, line, guarded, out);
            find_divs(index, line, guarded, out);
            assert(violations_view(out@) =~= violations_view(old(out)@) + division_violations(
                expr@,
                line,
                guarded,
            ));
        },
        _ => {
            assert(violations_view(out@) =~= violations_view(old(out)@) + division_violations(
                expr@,
                line,
                guarded,
            ));
        },
    }
}

fn tests_flags(condition: &Expression) -> (r: bool)
    ensures
        r == is_flag_guard(condition@),
{
    let c = to_upper(&expr_chars(condition));
    contains_str(&c, "SW.") && (contains_str(&c, "OV=0") || contains_str(&c, "OS=0")
        || contains_str(&c, "Z=0") || contains_str(&c, "/=0"))
}

/// Appends the findings in a sequence of statements.
pub fn collect_div_violations(stmts: &Vec<Statement>, guarded: bool, out: &mut Vec<Violation>)
    ensures
        violations_view(final(out)@) == violations_view(old(out)@) + stmts_violations(
            stmts_view(stmts@),
            guarded,
        ),
    decreases stmts,
{
    let ghost sv = stmts_view(stmts@);
    let mut i: usize = 0;
    assert(violations_view(out@) =~= violations_view(old(out)@) + stmts_violations(
        sv.take(0),
        guarded,
    ));
    while i < stmts.len()
        invariant
            i <= stmts.len(),
            sv == stmts_view(stmts@),
            violations_view(out@) == violations_view(old(out)@) + stmts_violations(
                sv.take(i as int),
                guarded,
            ),
        decreases stmts.len() - i,
    {
        proof {
            lemma_stmts_view_step(stmts@, i as int);
        }
        let ghost before = violations_view(out@);
        match &stmts[i] {
            Statement::IfStmt { condition, then_branch, else_branch, .. } => {
                let g = guarded || tests_flags(condition);
                collect_div_violations(then_branch, g, out);
                collect_div_violations(else_branch, g, out);
            },
            Statement::Assign { value, line, .. } => {
                find_divs(value, *line, guarded, out);
            },
            Statement::Expr { expr, line } => {
                find_divs(expr, *line, guarded, out);
            },
            _ => {},
        }
        assert(violations_view(out@) =~= before + stmt_violations(stmts@[i as int]@, guarded));
        i += 1;
        assert(violations_view(out@) =~= violations_view(old(out)@) + stmts_violations(
            sv.take(i as int),
            guarded,
        ));
    }
    proof {
        if stmts.len() > 0 {
            lemma_stmts_view_step(stmts@, 0);
        } else {
            assert(sv.take(0) =~= sv);
        }
    }
}

/// Checks every routine of the program.
pub fn check(program: &Program) -> (r: RuleResult)
    ensures
        r@ == outcome(rule_violations(program@)),
{
    let mut out: Vec<Violation> = Vec::new();
    let ghost per = |f: FunctionModel| stmts_violations(f.statements, false);
    let mut i: usize = 0;
    while i < program.functions.len()
        invariant
            i <= program.functions.len(),
            per == (|f: FunctionModel| stmts_violations(f.statements, false)),
            violations_view(out@) == over_functions(program@.functions.take(i as int), per),
        decreases program.functions.len() - i,
    {
        proof {
            lemma_over_functions_step(program@.functions, per, i as int);
        }
        collect_div_violations(&program.functions[i].statements, false, &mut out);
        i += 1;
    }
    assert(program@.functions.take(program.functions.len() as int) =~= program@.functions);
    RuleResult::violations(out)
}

proof fn lemma_expr_numbered(e: ExprModel, line: usize, guarded: bool)
    ensures
        numbered(division_violations(e, line, guarded), 4),
    decreases e,
{
    match e {
        ExprModel::BinaryOp { op, left, right, .. } => {
            lemma_expr_numbered(*left, line, guarded);
            lemma_expr_numbered(*right, line, guarded);
            let head = if op == BinOp::Div && !guarded {
                seq![division_violation(line)]
            } else {
                Seq::empty()
            };
            lemma_numbered_add(head, division_violations(*left, line, guarded), 4);
            lemma_numbered_add(
                head + division_violations(*left, line, guarded),
                division_violations(*right, line, guarded),
                4,
            );
        },
        ExprModel::Index { base, index, .. } => {
            lemma_expr_numbered(*base, line, guarded);
            lemma_expr_numbered(*index, line, guarded);
            lemma_numbered_add(
                division_violations(*base, line, guarded),
                division_violations(*index, line, guarded),
                4,
            );
        },
        _ => {},
    }
}

proof fn lemma_stmt_numbered(st: StmtModel, guarded: bool)
    ensures
        numbered(stmt_violations(st, guarded), 4),
    decreases st,
{
    match st {
        StmtModel::IfStmt { condition, then_branch, else_branch, .. } => {
            let g = guarded || is_flag_guard(condition);
            lemma_stmts_numbered(then_branch, g);
            lemma_stmts_numbered(else_branch, g);
            lemma_numbered_add(stmts_violations(then_branch, g), stmts_violations(else_branch, g), 4);
        },
        StmtModel::Assign { value, line, .. } => {
            lemma_expr_numbered(value, line, guarded);
        },
        StmtModel::Expr { expr, line } => {
            lemma_expr_numbered(expr, line, guarded);
        },
        _ => {},
    }
}

proof fn lemma_stmts_numbered(stmts: Seq<StmtModel>, guarded: bool)
    ensures
        numbered(stmts_violations(stmts, guarded), 4),
    decreases stmts,
{
    if stmts.len() > 0 {
        lemma_stmts_numbered(stmts.drop_last(), guarded);
        lemma_stmt_numbered(stmts.last(), guarded);
        lemma_numbered_add(
            stmts_violations(stmts.drop_last(), guarded),
            stmt_violations(stmts.last(), guarded),
            4,
        );
    }
}

/// Every finding of the rule carries the number 4.
pub proof fn lemma_numbered(p: ProgramModel)
    ensures
        numbered(rule_violations(p), 4),
{
    let per = |f: FunctionModel| stmts_violations(f.statements, false);
    assert forall|f: FunctionModel| numbered(#[trigger] per(f), 4) by {
        lemma_stmts_numbered(f.statements, false);
    }
    lemma_over_functions_numbered(p.functions, per, 4);
}

} // verus!
