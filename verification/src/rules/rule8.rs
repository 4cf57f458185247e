//! Rule 8: values from the operator panel are validated. A variable whose
//! name suggests that it comes from outside is reported where it is used,
//! unless a conditional around the use tests it.

use crate::ast::{
    Expression, FunctionModel, lemma_stmts_view_step, Program, ProgramModel, Statement, StmtModel,
    stmts_view,
};
use crate::rules::{
    lemma_numbered_add, lemma_over_functions_numbered, lemma_over_functions_step, numbered, outcome,
    over_functions, report, RuleResult, Violation, violation, ViolationModel, violations_view,
};
use crate::rules::render::{expr_chars, rendered, variables, variables_of};
use crate::rules::words::{covered, is_covered, is_external, names_external, with_guard};
use crate::text::{chars_of, push_all, push_str, texts, to_upper, upper};
use vstd::prelude::*;

verus! {

/// The words of which a guard must hold one to count as a range check.
pub open spec fn range_words() -> Seq<Seq<char>> {
    seq!["<"@, ">"@, "MIN"@, "MAX"@, "RANGE"@]
}

/// The finding for a use of the given name.
pub open spec fn input_violation(line: usize, name: Seq<char>) -> ViolationModel {
    ViolationModel {
        rule_no: 8,
        rule_name: "Validate HMI input variables"@,
        line,
        reason: "HMI/DB variable '"@ + name + "' used without prior sanitization"@,
        suggestion: "Precede usage with range-checking IF or plausibility check."@,
    }
}

/// The findings for the names that one statement uses: one for each name
/// from outside that no guard covers, in order.
pub open spec fn names_violations(
    names: Seq<Seq<char>>,
    line: usize,
    guards: Seq<Seq<char>>,
) -> Seq<ViolationModel>
    decreases names.len(),
{
    if names.len() == 0 {
        Seq::empty()
    } else {
        names_violations(names.drop_last(), line, guards) + (if is_external(names.last())
            && !covered(guards, upper(names.last()), range_words()) {
            seq![input_violation(line, names.last())]
        } else {
            Seq::empty()
        })
    }
}

/// The findings in one statement. The condition of a conditional guards
/// both of its branches.
pub open spec fn stmt_violations(st: StmtModel, guards: Seq<Seq<char>>) -> Seq<ViolationModel>
    decreases st,
{
    match st {
        StmtModel::IfStmt { condition, then_branch, else_branch, .. } => {
            let g = guards.push(rendered(condition));
            stmts_violations(then_branch, g) + stmts_violations(else_branch, g)
        },
        StmtModel::Assign { value, line, .. } => names_violations(variables(value), line, guards),
        StmtModel::Expr { expr, line } => names_violations(variables(expr), line, guards),
        _ => Seq::empty(),
    }
}

/// The findings in a sequence of statements, in order.
pub open spec fn stmts_violations(
    stmts: Seq<StmtModel>,
    guards: Seq<Seq<char>>,
) -> Seq<ViolationModel>
    decreases stmts,
{
    if stmts.len() == 0 {
        Seq::empty()
    } else {
        stmts_violations(stmts.drop_last(), guards) + stmt_violations(stmts.last(), guards)
    }
}

/// The findings of the rule for a program: those of the bodies of its
/// routines, each without a guard at its start.
pub open spec fn rule_violations(p: ProgramModel) -> Seq<ViolationModel> {
    over_functions(p.functions, |f: FunctionModel| stmts_violations(f.statements, Seq::empty()))
}

fn range_word_list() -> (r: Vec<Vec<char>>)
    ensures
        texts(r@) == range_words(),
{
    let r = vec![chars_of("<"), chars_of(">"), chars_of("MIN"), chars_of("MAX"), chars_of("RANGE")];
    assert(texts(r@) =~= range_words());
    r
}

fn check_value(value: &Expression, line: usize, guards: &Vec<Vec<char>>, out: &mut Vec<Violation>)
    ensures
        violations_view(final(out)@) == violations_view(old(out)@) + names_violations(
            variables(value@),
            line,
            texts(guards@),
        ),
{
    let names = variables_of(value);
    let words = range_word_list();
    let ghost all = texts(names@);
    let mut i: usize = 0;
    assert(violations_view(out@) =~= violations_view(old(out)@) + names_violations(
        all.take(0),
        line,
        texts(guards@),
    ));
    while i < names.len()
        invariant
            i <= names.len(),
            all == texts(names@),
            texts(words@) == range_words(),
            violations_view(out@) == violations_view(old(out)@) + names_violations(
                all.take(i as int),
                line,
                texts(guards@),
            ),
        decreases names.len() - i,
    {
        assert(all.take(i as int + 1).drop_last() =~= all.take(i as int));
        assert(all.take(i as int + 1).last() == names@[i as int]@);
        let name = &names[i];
        if names_external(name) && !is_covered(guards, &to_upper(name), &words) {
            let mut reason = chars_of("HMI/DB variable '");
            push_all(&mut reason, name);
            push_str(&mut reason, "' used without prior sanitization");
            report(
                out,
                violation(
                    8,
                    "Validate HMI input variables",
                    line,
                    &reason,
                    "Precede usage with range-checking IF or plausibility check.",
                ),
            );
        }
        i += 1;
        assert(violations_view(out@) =~= violations_view(old(out)@) + names_violations(
            all.take(i as int),
            line,
            texts(guards@),
        ));
    }
    assert(all.take(names.len() as int) =~= all);
}

/// Appends the findings in a sequence of statements under the given guards.
pub fn check_stmts(stmts: &Vec<Statement>, guards: &Vec<Vec<char>>, out: &mut Vec<Violation>)
    ensures
        violations_view(final(out)@) == violations_view(old(out)@) + stmts_violations(
            stmts_view(stmts@),
            texts(guards@),
        ),
    decreases stmts,
{
    let ghost sv = stmts_view(stmts@);
    let mut i: usize = 0;
    assert(violations_view(out@) =~= violations_view(old(out)@) + stmts_violations(
        sv.take(0),
        texts(guards@),
    ));
    while i < stmts.len()
        invariant
            i <= stmts.len(),
            sv == stmts_view(stmts@),
            violations_view(out@) == violations_view(old(out)@) + stmts_violations(
                sv.take(i as int),
                texts(guards@),
            ),
        decreases stmts.len() - i,
    {
        proof {
            lemma_stmts_view_step(stmts@, i as int);
        }
        let ghost before = violations_view(out@);
        match &stmts[i] {
            Statement::IfStmt { condition, then_branch, else_branch, .. } => {
                let inner = with_guard(guards, expr_chars(condition));
                check_stmts(then_branch, &inner, out);
                check_stmts(else_branch, &inner, out);
            },
            Statement::Assign { value, line, .. } => {
                check_value(value, *line, guards, out);
            },
            Statement::Expr { expr, line } => {
                check_value(expr, *line, guards, out);
            },
            _ => {},
        }
        assert(violations_view(out@) =~= before + stmt_violations(
            stmts@[i as int]@,
            texts(guards@),
        ));
        i += 1;
        assert(violations_view(out@) =~= violations_view(old(out)@) + stmts_violations(
            sv.take(i as int),
            texts(guards@),
        ));
    }
    proof {
        if stmts.len() > 0 {
            lemma_stmts_view_step(stmts@, 0);
        } else {
            assert(sv.take(0) =~= sv);
        }
    }
}

/// Checks every routine of the program.
pub fn check(program: &Program) -> (r: RuleResult)
    ensures
        r@ == outcome(rule_violations(program@)),
{
    let mut out: Vec<Violation> = Vec::new();
    let ghost per = |f: FunctionModel| stmts_violations(f.statements, Seq::empty());
    let guards: Vec<Vec<char>> = Vec::new();
    assert(texts(guards@) =~= Seq::empty());
    let mut i: usize = 0;
    while i < program.functions.len()
        invariant
            i <= program.functions.len(),
            texts(guards@) == Seq::<Seq<char>>::empty(),
            per == (|f: FunctionModel| stmts_violations(f.statements, Seq::empty())),
            violations_view(out@) == over_functions(program@.functions.take(i as int), per),
        decreases program.functions.len() - i,
    {
        proof {
            lemma_over_functions_step(program@.functions, per, i as int);
        }
        check_stmts(&program.functions[i].statements, &guards, &mut out);
        i += 1;
    }
    assert(program@.functions.take(program.functions.len() as int) =~= program@.functions);
    RuleResult::violations(out)
}

proof fn lemma_names_numbered(names: Seq<Seq<char>>, line: usize, guards: Seq<Seq<char>>)
    ensures
        numbered(names_violations(names, line, guards), 8),
    decreases names.len(),
{
    if names.len() > 0 {
        lemma_names_numbered(names.drop_last(), line, guards);
        let tail = if is_external(names.last()) && !covered(
            guards,
            upper(names.last()),
            range_words(),
        ) {
            seq![input_violation(line, names.last())]
        } else {
            Seq::empty()
        };
        lemma_numbered_add(names_violations(names.drop_last(), line, guards), tail, 8);
    }
}

proof fn lemma_stmt_numbered(st: StmtModel, guards: Seq<Seq<char>>)
    ensures
        numbered(stmt_violations(st, guards), 8),
    decreases st,
{
    match st {
        StmtModel::IfStmt { condition, then_branch, else_branch, .. } => {
            let g = guards.push(rendered(condition));
            lemma_stmts_numbered(then_branch, g);
            lemma_stmts_numbered(else_branch, g);
            lemma_numbered_add(
                stmts_violations(then_branch, g),
                stmts_violations(else_branch, g),
                8,
            );
        },
        StmtModel::Assign { value, line, .. } => {
            lemma_names_numbered(variables(value), line, guards);
        },
        StmtModel::Expr { expr, line } => {
            lemma_names_numbered(variables(expr), line, guards);
        },
        _ => {},
    }
}

proof fn lemma_stmts_numbered(stmts: Seq<StmtModel>, guards: Seq<Seq<char>>)
    ensures
        numbered(stmts_violations(stmts, guards), 8),
    decreases stmts,
{
    if stmts.len() > 0 {
        lemma_stmts_numbered(stmts.drop_last(), guards);
        lemma_stmt_numbered(stmts.last(), guards);
        lemma_numbered_add(
            stmts_violations(stmts.drop_last(), guards),
            stmt_violations(stmts.last(), guards),
            8,
        );
    }
}

/// Every finding of the rule carries the number 8.
pub proof fn lemma_numbered(p: ProgramModel)
    ensures
        numbered(rule_violations(p), 8),
{
    let per = |f: FunctionModel| stmts_violations(f.statements, Seq::empty());
    assert forall|f: FunctionModel| numbered(#[trigger] per(f), 8) by {
        lemma_stmts_numbered(f.statements, Seq::empty());
    }
    lemma_over_functions_numbered(p.functions, per, 8);
}

} // verus!
