//! Rule 1: routines are kept small. A function or function block is
//! reported where its cyclomatic complexity or its number of statements is
//! too large.

use crate::ast::{
    branch_count, branches_of, flattened, flattened_of, Function, FunctionKind, FunctionModel,
    Program, ProgramModel, Statement, StmtModel, stmts_view,
};
use crate::rules::{
    lemma_over_functions_numbered, lemma_over_functions_step, numbered, outcome, over_functions,
    report, RuleResult, Violation, violation, ViolationModel, violations_view,
};
use crate::text::{chars_of, decimal_text, push_str, push_usize};
use vstd::prelude::*;

verus! {

/// The number of statements, nested ones included.
pub open spec fn statement_total(stmts: Seq<StmtModel>) -> nat
    decreases stmts,
{
    if stmts.len() == 0 {
        0
    } else {
        statement_total(stmts.drop_last()) + statements_of(stmts.last())
    }
}

/// The number of statements that one statement holds, itself included.
pub open spec fn statements_of(st: StmtModel) -> nat
    decreases st,
{
    match st {
        StmtModel::IfStmt { then_branch, else_branch, .. } => 1 + statement_total(then_branch)
            + statement_total(else_branch),
        _ => 1,
    }
}

/// A count as the machine holds it: itself, or the largest `usize` where
/// it is larger.
pub open spec fn clipped(n: nat) -> usize {
    if n > usize::MAX {
        usize::MAX
    } else {
        n as usize
    }
}

/// The cyclomatic complexity of a body: one more than its conditionals.
pub open spec fn complexity(stmts: Seq<StmtModel>) -> usize {
    clipped(1 + branch_count(stmts))
}

/// The largest complexity that is not reported.
pub const MAX_COMPLEXITY: usize = 50;

/// The largest number of statements that is not reported.
pub const MAX_STATEMENTS: usize = 500;

/// The finding for a complexity that is too large.
pub open spec fn complexity_violation(line: usize, complexity: usize) -> ViolationModel {
    ViolationModel {
        rule_no: 1,
        rule_name: "Modularize PLC Code"@,
        line,
        reason: "Cyclomatic complexity "@ + decimal_text(complexity as int) + " exceeds 50"@,
        suggestion: "Split logic into smaller FC/FBs; reduce branching."@,
    }
}

/// The finding for a body that is too long.
pub open spec fn size_violation(line: usize, count: usize) -> ViolationModel {
    ViolationModel {
        rule_no: 1,
        rule_name: "Modularize PLC Code"@,
        line,
        reason: "Statement count "@ + decimal_text(count as int) + " exceeds 500"@,
        suggestion: "Refactor large routines into smaller units."@,
    }
}

/// The findings for one routine: for a function or function block, one
/// where the complexity is above 50 and one where the statements are more
/// than 500.
pub open spec fn function_violations(f: FunctionModel) -> Seq<ViolationModel> {
    if f.kind == FunctionKind::FC || f.kind == FunctionKind::FB {
        let c = complexity(f.statements);
        let n = clipped(statement_total(f.statements));
        (if c > MAX_COMPLEXITY {
            seq![complexity_violation(f.line, c)]
        } else {
            Seq::empty()
        }) + (if n > MAX_STATEMENTS {
            seq![size_violation(f.line, n)]
        } else {
            Seq::empty()
        })
    } else {
        Seq::empty()
    }
}

/// The findings of the rule for a program.
pub open spec fn rule_violations(p: ProgramModel) -> Seq<ViolationModel> {
    over_functions(p.functions, |f: FunctionModel| function_violations(f))
}

/// The sum of two counts as the machine holds it.
pub open spec fn clipped_sum(a: usize, b: usize) -> usize {
    clipped((a + b) as nat)
}

/// Clipping the parts first does not change the clipped sum.
pub proof fn lemma_clipped_sum(x: nat, y: nat)
    ensures
        clipped(x + y) == clipped_sum(clipped(x), clipped(y)),
{
}

fn saturating_sum(a: usize, b: usize) -> (r: usize)
    ensures
        r == clipped_sum(a, b),
{
    if a > usize::MAX - b {
        usize::MAX
    } else {
        a + b
    }
}

/// The number of conditionals among the statements, nested ones included.
pub fn count_branches(stmts: &Vec<Statement>) -> (c: usize)
    ensures
        c == clipped(branch_count(stmts_view(stmts@))),
    decreases stmts,
{
    let mut c: usize = 0;
    let mut i: usize = 0;
    while i < stmts.len()
        invariant
            i <= stmts.len(),
            c == clipped(branch_count(stmts_view(stmts@).take(i as int))),
        decreases stmts.len() - i,
    {
        let ghost sv = stmts_view(stmts@);
        assert(sv.take(i as int + 1).drop_last() =~= sv.take(i as int));
        assert(sv.take(i as int + 1).last() == stmts@[i as int]@);
        assert(branch_count(sv.take(i as int + 1)) == branch_count(sv.take(i as int))
            + branches_of(stmts@[i as int]@));
        match &stmts[i] {
            Statement::IfStmt { then_branch, else_branch, .. } => {
                let t = count_branches(then_branch);
                let e = count_branches(else_branch);
                let inner = saturating_sum(saturating_sum(1, t), e);
                proof {
                    let bt = branch_count(stmts_view(then_branch@));
                    let be = branch_count(stmts_view(else_branch@));
                    lemma_clipped_sum(1, bt);
                    lemma_clipped_sum(1 + bt, be);
                    lemma_clipped_sum(
                        branch_count(stmts_view(stmts@).take(i as int)),
                        1 + bt + be,
                    );
                }
                c = saturating_sum(c, inner);
            },
            _ => {},
        }
        i += 1;
    }
    assert(stmts_view(stmts@).take(stmts.len() as int) =~= stmts_view(stmts@));
    c
}

/// The cyclomatic complexity of a body.
pub fn cyclomatic_complexity(stmts: &Vec<Statement>) -> (c: usize)
    ensures
        c == complexity(stmts_view(stmts@)),
{
    proof {
        lemma_clipped_sum(1, branch_count(stmts_view(stmts@)));
    }
    saturating_sum(1, count_branches(stmts))
}

/// The number of statements, nested ones included.
pub fn statement_count(stmts: &Vec<Statement>) -> (n: usize)
    ensures
        n == clipped(statement_total(stmts_view(stmts@))),
    decreases stmts,
{
    let mut n: usize = 0;
    let mut i: usize = 0;
    while i < stmts.len()
        invariant
            i <= stmts.len(),
            n == clipped(statement_total(stmts_view(stmts@).take(i as int))),
        decreases stmts.len() - i,
    {
        let ghost sv = stmts_view(stmts@);
        assert(sv.take(i as int + 1).drop_last() =~= sv.take(i as int));
        assert(sv.take(i as int + 1).last() == stmts@[i as int]@);
        assert(statement_total(sv.take(i as int + 1)) == statement_total(sv.take(i as int))
            + statements_of(stmts@[i as int]@));
        match &stmts[i] {
            Statement::IfStmt { then_branch, else_branch, .. } => {
                let t = statement_count(then_branch);
                let e = statement_count(else_branch);
                let inner = saturating_sum(saturating_sum(1, t), e);
                proof {
                    let st = statement_total(stmts_view(then_branch@));
                    let se = statement_total(stmts_view(else_branch@));
                    lemma_clipped_sum(1, st);
                    lemma_clipped_sum(1 + st, se);
                    lemma_clipped_sum(
                        statement_total(stmts_view(stmts@).take(i as int)),
                        1 + st + se,
                    );
                }
                n = saturating_sum(n, inner);
            },
            _ => {
                proof {
                    lemma_clipped_sum(statement_total(stmts_view(stmts@).take(i as int)), 1);
                }
                n = saturating_sum(n, 1);
            },
        }
        i += 1;
    }
    assert(stmts_view(stmts@).take(stmts.len() as int) =~= stmts_view(stmts@));
    n
}

fn check_function(f: &Function, out: &mut Vec<Violation>)
    ensures
        violations_view(final(out)@) == violations_view(old(out)@) + function_violations(f@),
{
    if f.kind == FunctionKind::FC || f.kind == FunctionKind::FB {
        let c = cyclomatic_complexity(&f.statements);
        let n = statement_count(&f.statements);
        if c > MAX_COMPLEXITY {
            let mut reason = chars_of("Cyclomatic complexity ");
            push_usize(&mut reason, c);
            push_str(&mut reason, " exceeds 50");
            report(
                out,
                violation(
                    1,
                    "Modularize PLC Code",
                    f.line,
                    &reason,
                    "Split logic into smaller FC/FBs; reduce branching.",
                ),
            );
        }
        if n > MAX_STATEMENTS {
            let mut reason = chars_of("Statement count ");
            push_usize(&mut reason, n);
            push_str(&mut reason, " exceeds 500");
            report(
                out,
                violation(
                    1,
                    "Modularize PLC Code",
                    f.line,
                    &reason,
                    "Refactor large routines into smaller units.",
                ),
            );
        }
    }
    assert(violations_view(out@) =~= violations_view(old(out)@) + function_violations(f@));
}

/// Checks every function and function block of the program.
pub fn check(program: &Program) -> (r: RuleResult)
    ensures
        r@ == outcome(rule_violations(program@)),
{
    let mut out: Vec<Violation> = Vec::new();
    let ghost per = |f: FunctionModel| function_violations(f);
    let mut i: usize = 0;
    while i < program.functions.len()
        invariant
            i <= program.functions.len(),
            per == (|f: FunctionModel| function_violations(f)),
            violations_view(out@) == over_functions(program@.functions.take(i as int), per),
        decreases program.functions.len() - i,
    {
        proof {
            lemma_over_functions_step(program@.functions, per, i as int);
        }
        check_function(&program.functions[i], &mut out);
        i += 1;
    }
    assert(program@.functions.take(program.functions.len() as int) =~= program@.functions);
    RuleResult::violations(out)
}

/// The number of the statements, taken as they stand, that are
/// conditionals.
pub open spec fn conditionals_in(stmts: Seq<StmtModel>) -> nat
    decreases stmts.len(),
{
    if stmts.len() == 0 {
        0
    } else {
        conditionals_in(stmts.drop_last()) + (if stmts.last() is IfStmt {
            1nat
        } else {
            0nat
        })
    }
}

/// Whether no conditional among the statements holds a conditional.
pub open spec fn independent(stmts: Seq<StmtModel>) -> bool {
    forall|i: int|
        0 <= i < stmts.len() ==> match #[trigger] stmts[i] {
            StmtModel::IfStmt { then_branch, else_branch, .. } => branch_count(then_branch) == 0
                && branch_count(else_branch) == 0,
            _ => true,
        }
}

/// Whether the statements are conditionals nested `depth` deep inside one
/// another and nothing else: one conditional, of which one branch holds the
/// rest of the nesting and the other branch is empty.
pub open spec fn nested_chain(stmts: Seq<StmtModel>, depth: nat) -> bool
    decreases depth,
{
    if depth == 0 {
        stmts.len() == 0
    } else {
        stmts.len() == 1 && match stmts[0] {
            StmtModel::IfStmt { then_branch, else_branch, .. } => (nested_chain(
                then_branch,
                (depth - 1) as nat,
            ) && else_branch.len() == 0) || (nested_chain(else_branch, (depth - 1) as nat)
                && then_branch.len() == 0),
            _ => false,
        }
    }
}

/// A body whose conditionals hold no conditionals has as many branches as
/// it has conditionals: with C of them its complexity is 1 + C. The count
/// is exact wherever 1 + C is a number of the machine, and so for every body
/// of fewer statements than the largest such number.
pub proof fn lemma_independent_conditionals(stmts: Seq<StmtModel>)
    requires
        independent(stmts),
    ensures
        branch_count(stmts) == conditionals_in(stmts),
        conditionals_in(stmts) <= stmts.len(),
        1 + conditionals_in(stmts) <= usize::MAX ==> complexity(stmts) == 1 + conditionals_in(
            stmts,
        ),
        stmts.len() < usize::MAX ==> complexity(stmts) == 1 + conditionals_in(stmts),
    decreases stmts.len(),
{
    if stmts.len() > 0 {
        let rest = stmts.drop_last();
        assert forall|i: int| 0 <= i < rest.len() implies match #[trigger] rest[i] {
            StmtModel::IfStmt { then_branch, else_branch, .. } => branch_count(then_branch) == 0
                && branch_count(else_branch) == 0,
            _ => true,
        } by {
            assert(rest[i] == stmts[i]);
        }
        lemma_independent_conditionals(rest);
        let last = stmts[stmts.len() - 1];
        assert(stmts.last() == last);
        assert(branch_count(stmts) == branch_count(rest) + branches_of(last));
        match last {
            StmtModel::IfStmt { then_branch, else_branch, .. } => {
                assert(branches_of(last) == 1 + branch_count(then_branch) + branch_count(
                    else_branch,
                ));
            },
            _ => {
                assert(branches_of(last) == 0);
            },
        }
    }
}

/// Conditionals nested D deep inside one another, without siblings, have D
/// branches, through whichever branch the nesting runs: their complexity is
/// 1 + D.
pub proof fn lemma_nested_conditionals(stmts: Seq<StmtModel>, depth: nat)
    requires
        nested_chain(stmts, depth),
    ensures
        branch_count(stmts) == depth,
        1 + depth <= usize::MAX ==> complexity(stmts) == 1 + depth,
    decreases depth,
{
    if depth > 0 {
        match stmts[0] {
            StmtModel::IfStmt { then_branch, else_branch, .. } => {
                if nested_chain(then_branch, (depth - 1) as nat) && else_branch.len() == 0 {
                    lemma_nested_conditionals(then_branch, (depth - 1) as nat);
                    assert(branch_count(else_branch) == 0);
                } else {
                    lemma_nested_conditionals(else_branch, (depth - 1) as nat);
                    assert(branch_count(then_branch) == 0);
                }
                assert(stmts.drop_last().len() == 0);
                assert(branch_count(stmts.drop_last()) == 0);
                assert(stmts.last() == stmts[0]);
                assert(branch_count(stmts) == branch_count(stmts.drop_last()) + branches_of(
                    stmts.last(),
                ));
            },
            _ => {},
        }
    }
}

/// A function or function block has a finding exactly where its complexity
/// is above 50 or its statements are more than 500. So a complexity of 51
/// is reported and one of 50 is not, and 501 statements are reported and 500
/// are not.
pub proof fn lemma_thresholds(f: FunctionModel)
    requires
        f.kind == FunctionKind::FC || f.kind == FunctionKind::FB,
    ensures
        function_violations(f).len() > 0 <==> complexity(f.statements) > 50 || clipped(
            statement_total(f.statements),
        ) > 500,
        complexity(f.statements) == 51 ==> function_violations(f)[0] == complexity_violation(
            f.line,
            51,
        ),
        complexity(f.statements) == 50 && statement_total(f.statements) <= 500
            ==> function_violations(f).len() == 0,
        statement_total(f.statements) == 501 && complexity(f.statements) <= 50
            ==> function_violations(f) == seq![size_violation(f.line, 501)],
        statement_total(f.statements) == 500 && complexity(f.statements) <= 50
            ==> function_violations(f).len() == 0,
{
}

/// The number of statements, nested ones included, is the length of the
/// body laid out flat.
pub proof fn lemma_statement_total_is_flat_length(stmts: Seq<StmtModel>)
    ensures
        statement_total(stmts) == flattened(stmts).len(),
    decreases stmts,
{
    if stmts.len() > 0 {
        lemma_statement_total_is_flat_length(stmts.drop_last());
        match stmts.last() {
            StmtModel::IfStmt { then_branch, else_branch, .. } => {
                lemma_statement_total_is_flat_length(then_branch);
                lemma_statement_total_is_flat_length(else_branch);
            },
            _ => {},
        }
        assert(statement_total(stmts) == statement_total(stmts.drop_last()) + statements_of(
            stmts.last(),
        ));
        assert(flattened(stmts) == flattened(stmts.drop_last()) + flattened_of(stmts.last()));
    }
}

/// Every finding of the rule carries the number 1.
pub proof fn lemma_numbered(p: ProgramModel)
    ensures
        numbered(rule_violations(p), 1),
{
    lemma_over_functions_numbered(p.functions, |f: FunctionModel| function_violations(f), 1);
}

} // verus!
