//! Rule 9: indirections are validated. An array access through a variable
//! index is reported unless a conditional around it tests the index.

use crate::ast::{
    Expression, ExprModel, FunctionModel, lemma_stmts_view_step, Program, ProgramModel, Statement,
    StmtModel, stmts_view,
};
use crate::rules::{
    lemma_numbered_add, lemma_over_functions_numbered, lemma_over_functions_step, numbered, outcome,
    over_functions, report, RuleResult, Violation, violation, ViolationModel, violations_view,
};
use crate::rules::render::{expr_chars, rendered};
use crate::rules::words::{covered, is_covered, with_guard};
use crate::text::{chars_of, push_all, push_str, texts, to_upper, upper};
use vstd::prelude::*;

verus! {

/// The words of which a guard must hold one to count as a bounds check.
pub open spec fn bound_words() -> Seq<Seq<char>> {
    seq!["<"@, ">"@, "BOUND"@, "LEN"@]
}

/// The finding for an access through the given index.
pub open spec fn index_violation(line: usize, index_text: Seq<char>) -> ViolationModel {
    ViolationModel {
        rule_no: 9,
        rule_name: "Validate indirections"@,
        line,
        reason: "Array indexed by variable '"@ + index_text + "' without bounds check"@,
        suggestion: "Validate index against array bounds before access."@,
    }
}

/// The findings in one expression: one for each indexing whose index is a
/// name that no guard covers. The parts of every indexing and operation are
/// searched.
pub open spec fn index_violations(
    e: ExprModel,
    line: usize,
    guards: Seq<Seq<char>>,
) -> Seq<ViolationModel>
    decreases e,
{
    match e {
        ExprModel::Index { base, index, .. } => (if *index is VariableRef && !covered(
            guards,
            upper(rendered(*index)),
            bound_words(),
        ) {
            seq![index_violation(line, rendered(*index))]
        } else {
            Seq::empty()
        }) + index_violations(*base, line, guards) + index_violations(*index, line, guards),
        ExprModel::BinaryOp { left, right, .. } => index_violations(*left, line, guards)
            + index_violations(*right, line, guards),
        _ => Seq::empty(),
    }
}

/// The findings in one statement. The condition of a conditional guards
/// both of its branches.
pub open spec fn stmt_violations(st: StmtModel, guards: Seq<Seq<char>>) -> Seq<ViolationModel>
    decreases st,
{
    match st {
        StmtModel::IfStmt { condition, then_branch, else_branch, .. } => {
            let g = guards.push(rendered(condition));
            stmts_violations(then_branch, g) + stmts_violations(else_branch, g)
        },
        StmtModel::Assign { value, line, .. } => index_violations(value, line, guards),
        StmtModel::Expr { expr, line } => index_violations(expr, line, guards),
        _ => Seq::empty(),
    }
}

/// The findings in a sequence of statements, in order.
pub open spec fn stmts_violations(
    stmts: Seq<StmtModel>,
    guards: Seq<Seq<char>>,
) -> Seq<ViolationModel>
    decreases stmts,
{
    if stmts.len() == 0 {
        Seq::empty()
    } else {
        stmts_violations(stmts.drop_last(), guards) + stmt_violations(stmts.last(), guards)
    }
}

/// The findings of the rule for a program: those of the bodies of its
/// routines, each without a guard at its start.
pub open spec fn rule_violations(p: ProgramModel) -> Seq<ViolationModel> {
    over_functions(p.functions, |f: FunctionModel| stmts_violations(f.statements, Seq::empty()))
}

fn bound_word_list() -> (r: Vec<Vec<char>>)
    ensures
        texts(r@) == bound_words(),
{
    let r = vec![chars_of("<"), chars_of(">"), chars_of("BOUND"), chars_of("LEN")];
    assert(texts(r@) =~= bound_words());
    r
}

/// Appends the findings in one expression under the given guards.
pub fn find_index_violations(
    e: &Expression,
    line: usize,
    guards: &Vec<Vec<char>>,
    out: &mut Vec<Violation>,
)
    ensures
        violations_view(final(out)@) == violations_view(old(out)@) + index_violations(
            e@,
            line,
            texts(guards@),
        ),
    decreases e,
{
    match e {
        Expression::Index { base, index, .. } => {
            let is_name = match **index {
                Expression::VariableRef(_) => true,
                _ => false,
            };
            if is_name {
                let index_text = expr_chars(index);
                if !is_covered(guards, &to_upper(&index_text), &bound_word_list()) {
                    let mut reason = chars_of("Array indexed by variable '");
                    push_all(&mut reason, &index_text);
                    push_str(&mut reason, "' without bounds check");
                    report(
                        out,
                        violation(
                            9,
                            "Validate indirections",
                            line,
                            &reason,
                            "Validate index against array bounds before access.",
                        ),
                    );
                }
            }
            find_index_violations(base, line, guards, out);
            find_index_violations(index, line, guards, out);
            assert(violations_view(out@) =~= violations_view(old(out)@) + index_violations(
                e@,
                line,
                texts(guards@),
            ));
        },
        Expression::BinaryOp { left, right, .. } => {
            find_index_violations(left, line, guards, out);
            find_index_violations(right, line, guards, out);
            assert(violations_view(out@) =~= violations_view(old(out)@) + index_violations(
                e@,
                line,
                texts(guards@),
            ));
        },
        _ => {
            assert(violations_view(out@) =~= violations_view(old(out)@) + index_violations(
                e@,
                line,
                texts(guards@),
            ));
        },
    }
}

/// Appends the findings in a sequence of statements under the given guards.
pub fn walk(stmts: &Vec<Statement>, guards: &Vec<Vec<char>>, out: &mut Vec<Violation>)
    ensures
        violations_view(final(out)@) == violations_view(old(out)@) + stmts_violations(
            stmts_view(stmts@),
            texts(guards@),
        ),
    decreases stmts,
{
    let ghost sv = stmts_view(stmts@);
    let mut i: usize = 0;
    assert(violations_view(out@) =~= violations_view(old(out)@) + stmts_violations(
        sv.take(0),
        texts(guards@),
    ));
    while i < stmts.len()
        invariant
            i <= stmts.len(),
            sv == stmts_view(stmts@),
            violations_view(out@) == violations_view(old(out)@) + stmts_violations(
                sv.take(i as int),
                texts(guards@),
            ),
        decreases stmts.len() - i,
    {
        proof {
            lemma_stmts_view_step(stmts@, i as int);
        }
        let ghost before = violations_view(out@);
        match &stmts[i] {
            Statement::IfStmt { condition, then_branch, else_branch, .. } => {
                let inner = with_guard(guards, expr_chars(condition));
                walk(then_branch, &inner, out);
                walk(else_branch, &inner, out);
            },
            Statement::Assign { value, line, .. } => {
                find_index_violations(value, *line, guards, out);
            },
            Statement::Expr { expr, line } => {
                find_index_violations(expr, *line, guards, out);
            },
            _ => {},
        }
        assert(violations_view(out@) =~= before + stmt_violations(
            stmts@[i as int]@,
            texts(guards@),
        ));
        i += 1;
        assert(violations_view(out@) =~= violations_view(old(out)@) + stmts_violations(
            sv.take(i as int),
            texts(guards@),
        ));
    }
    proof {
        if stmts.len() > 0 {
            lemma_stmts_view_step(stmts@, 0);
        } else {
            assert(sv.take(0) =~= sv);
        }
    }
}

/// Checks every routine of the program.
pub fn check(program: &Program) -> (r: RuleResult)
    ensures
        r@ == outcome(rule_violations(program@)),
{
    let mut out: Vec<Violation> = Vec::new();
    let ghost per = |f: FunctionModel| stmts_violations(f.statements, Seq::empty());
    let guards: Vec<Vec<char>> = Vec::new();
    assert(texts(guards@) =~= Seq::empty());
    let mut i: usize = 0;
    while i < program.functions.len()
        invariant
            i <= program.functions.len(),
            texts(guards@) == Seq::<Seq<char>>::empty(),
            per == (|f: FunctionModel| stmts_violations(f.statements, Seq::empty())),
            violations_view(out@) == over_functions(program@.functions.take(i as int), per),
        decreases program.functions.len() - i,
    {
        proof {
            lemma_over_functions_step(program@.functions, per, i as int);
        }
        walk(&program.functions[i].statements, &guards, &mut out);
        i += 1;
    }
    assert(program@.functions.take(program.functions.len() as int) =~= program@.functions);
    RuleResult::violations(out)
}

proof fn lemma_expr_numbered(e: ExprModel, line: usize, guards: Seq<Seq<char>>)
    ensures
        numbered(index_violations(e, line, guards), 9),
    decreases e,
{
    match e {
        ExprModel::Index { base, index, .. } => {
            lemma_expr_numbered(*base, line, guards);
            lemma_expr_numbered(*index, line, guards);
            let head = if *index is VariableRef && !covered(
                guards,
                upper(rendered(*index)),
                bound_words(),
            ) {
                seq![index_violation(line, rendered(*index))]
            } else {
                Seq::empty()
            };
            lemma_numbered_add(head, index_violations(*base, line, guards), 9);
            lemma_numbered_add(
                head + index_violations(*base, line, guards),
                index_violations(*index, line, guards),
                9,
            );
        },
        ExprModel::BinaryOp { left, right, .. } => {
            lemma_expr_numbered(*left, line, guards);
            lemma_expr_numbered(*right, line, guards);
            lemma_numbered_add(
                index_violations(*left, line, guards),
                index_violations(*right, line, guards),
                9,
            );
        },
        _ => {},
    }
}

proof fn lemma_stmt_numbered(st: StmtModel, guards: Seq<Seq<char>>)
    ensures
        numbered(stmt_violations(st, guards), 9),
    decreases st,
{
    match st {
        StmtModel::IfStmt { condition, then_branch, else_branch, .. } => {
            let g = guards.push(rendered(condition));
            lemma_stmts_numbered(then_branch, g);
            lemma_stmts_numbered(else_branch, g);
            lemma_numbered_add(
                stmts_violations(then_branch, g),
                stmts_violations(else_branch, g),
                9,
            );
        },
        StmtModel::Assign { value, line, .. } => {
            lemma_expr_numbered(value, line, guards);
        },
        StmtModel::Expr { expr, line } => {
            lemma_expr_numbered(expr, line, guards);
        },
        _ => {},
    }
}

proof fn lemma_stmts_numbered(stmts: Seq<StmtModel>, guards: Seq<Seq<char>>)
    ensures
        numbered(stmts_violations(stmts, guards), 9),
    decreases stmts,
{
    if stmts.len() > 0 {
        lemma_stmts_numbered(stmts.drop_last(), guards);
        lemma_stmt_numbered(stmts.last(), guards);
        lemma_numbered_add(
            stmts_violations(stmts.drop_last(), guards),
            stmt_violations(stmts.last(), guards),
            9,
        );
    }
}

/// Every finding of the rule carries the number 9.
pub proof fn lemma_numbered(p: ProgramModel)
    ensures
        numbered(rule_violations(p), 9),
{
    let per = |f: FunctionModel| stmts_violations(f.statements, Seq::empty());
    assert forall|f: FunctionModel| numbered(#[trigger] per(f), 9) by {
        lemma_stmts_numbered(f.statements, Seq::empty());
    }
    lemma_over_functions_numbered(p.functions, per, 9);
}

} // verus!
