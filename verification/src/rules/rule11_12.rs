//! Rules 11 and 12: uses of outside values are marked as plausible. A use
//! of a variable whose name suggests that it comes from outside is reported
//! unless the statement just before it, in the order of the source, is a
//! plausibility comment.

use crate::ast::{
    Expression, flatten, flattened, Function, FunctionModel, lemma_stmts_view_step, Program,
    ProgramModel, Statement, StmtModel, stmts_view,
};
use crate::rules::{
    lemma_numbered_add, lemma_over_functions_numbered, lemma_over_functions_step, numbered, outcome,
    over_functions, report, RuleResult, Violation, violation, ViolationModel, violations_view,
};
use crate::rules::render::{variables, variables_of};
use crate::rules::words::{is_external, names_external};
use crate::text::{chars_of, has_prefix, push_all, push_str, starts_with_str, texts, trim, trimmed};
use vstd::prelude::*;

verus! {

/// Whether a comment is a plausibility mark.
pub open spec fn is_mark(text: Seq<char>) -> bool {
    has_prefix(trim(text), "(* @PlausibilityCheck:"@)
}

/// The finding for a use of the given name.
pub open spec fn use_violation(line: usize, name: Seq<char>) -> ViolationModel {
    ViolationModel {
        rule_no: 11,
        rule_name: "Plausibility Checks"@,
        line,
        reason: "Use of '"@ + name + "' not preceded by @PlausibilityCheck comment"@,
        suggestion: "Add '(* @PlausibilityCheck: ... *)' immediately before usage."@,
    }
}

/// The findings for the names that one statement uses: none where it is
/// marked, else one for each name from outside, in order.
pub open spec fn names_violations(
    names: Seq<Seq<char>>,
    line: usize,
    marked: bool,
) -> Seq<ViolationModel>
    decreases names.len(),
{
    if names.len() == 0 {
        Seq::empty()
    } else {
        names_violations(names.drop_last(), line, marked) + (if is_external(names.last())
            && !marked {
            seq![use_violation(line, names.last())]
        } else {
            Seq::empty()
        })
    }
}

/// The findings of one statement, and whether the statement after it is
/// marked: it is after a plausibility comment, and after nothing else.
pub open spec fn stmt_step(st: StmtModel, marked: bool) -> (Seq<ViolationModel>, bool) {
    match st {
        StmtModel::Comment { text, .. } => (Seq::empty(), is_mark(text)),
        StmtModel::Assign { value, line, .. } => (
            names_violations(variables(value), line, marked),
            false,
        ),
        StmtModel::Expr { expr, line } => (names_violations(variables(expr), line, marked), false),
        _ => (Seq::empty(), false),
    }
}

/// The findings of a sequence of statements, each taken as it stands, and
/// whether what follows them is marked.
pub open spec fn body_walk(stmts: Seq<StmtModel>) -> (Seq<ViolationModel>, bool)
    decreases stmts.len(),
{
    if stmts.len() == 0 {
        (Seq::empty(), false)
    } else {
        let (found, marked) = body_walk(stmts.drop_last());
        let (more, next) = stmt_step(stmts.last(), marked);
        (found + more, next)
    }
}

/// The findings of the rule for a program: those of the statements of its
/// routines in the order of the source, at every depth.
pub open spec fn rule_violations(p: ProgramModel) -> Seq<ViolationModel> {
    over_functions(p.functions, |f: FunctionModel| body_walk(flattened(f.statements)).0)
}

fn check_value(value: &Expression, line: usize, marked: bool, out: &mut Vec<Violation>)
    ensures
        violations_view(final(out)@) == violations_view(old(out)@) + names_violations(
            variables(value@),
            line,
            marked,
        ),
{
    let names = variables_of(value);
    let ghost all = texts(names@);
    let mut i: usize = 0;
    assert(violations_view(out@) =~= violations_view(old(out)@) + names_violations(
        all.take(0),
        line,
        marked,
    ));
    while i < names.len()
        invariant
            i <= names.len(),
            all == texts(names@),
            violations_view(out@) == violations_view(old(out)@) + names_violations(
                all.take(i as int),
                line,
                marked,
            ),
        decreases names.len() - i,
    {
        assert(all.take(i as int + 1).drop_last() =~= all.take(i as int));
        assert(all.take(i as int + 1).last() == names@[i as int]@);
        let name = &names[i];
        if names_external(name) && !marked {
            let mut reason = chars_of("Use of '");
            push_all(&mut reason, name);
            push_str(&mut reason, "' not preceded by @PlausibilityCheck comment");
            report(
                out,
                violation(
                    11,
                    "Plausibility Checks",
                    line,
                    &reason,
                    "Add '(* @PlausibilityCheck: ... *)' immediately before usage.",
                ),
            );
        }
        i += 1;
        assert(violations_view(out@) =~= violations_view(old(out)@) + names_violations(
            all.take(i as int),
            line,
            marked,
        ));
    }
    assert(all.take(names.len() as int) =~= all);
}

fn check_function(f: &Function, out: &mut Vec<Violation>)
    ensures
        violations_view(final(out)@) == violations_view(old(out)@) + body_walk(
            flattened(f@.statements),
        ).0,
{
    let flat = flatten(&f.statements);
    let stmts = &flat;
    let ghost sv = stmts_view(stmts@);
    let mut marked = false;
    let mut i: usize = 0;
    assert(violations_view(out@) =~= violations_view(old(out)@) + body_walk(sv.take(0)).0);
    while i < stmts.len()
        invariant
            i <= stmts.len(),
            sv == stmts_view(stmts@),
            violations_view(out@) == violations_view(old(out)@) + body_walk(sv.take(i as int)).0,
            marked == body_walk(sv.take(i as int)).1,
        decreases stmts.len() - i,
    {
        proof {
            lemma_stmts_view_step(stmts@, i as int);
        }
        let ghost before = violations_view(out@);
        let ghost prior = marked;
        match &stmts[i] {
            Statement::Comment { text, .. } => {
                marked = starts_with_str(
                    &trimmed(&chars_of(text.as_str())),
                    "(* @PlausibilityCheck:",
                );
            },
            Statement::Assign { value, line, .. } => {
                check_value(value, *line, marked, out);
                marked = false;
            },
            Statement::Expr { expr, line } => {
                check_value(expr, *line, marked, out);
                marked = false;
            },
            _ => {
                marked = false;
            },
        }
        assert(violations_view(out@) =~= before + stmt_step(stmts@[i as int]@, prior).0);
        assert(marked == stmt_step(stmts@[i as int]@, prior).1);
        i += 1;
        assert(violations_view(out@) =~= violations_view(old(out)@) + body_walk(
            sv.take(i as int),
        ).0);
    }
    proof {
        if stmts.len() > 0 {
            lemma_stmts_view_step(stmts@, 0);
        } else {
            assert(sv.take(0) =~= sv);
        }
    }
}

/// Checks every statement of the program's routines.
pub fn check(program: &Program) -> (r: RuleResult)
    ensures
        r@ == outcome(rule_violations(program@)),
{
    let mut out: Vec<Violation> = Vec::new();
    let ghost per = |f: FunctionModel| body_walk(flattened(f.statements)).0;
    let mut i: usize = 0;
    while i < program.functions.len()
        invariant
            i <= program.functions.len(),
            per == (|f: FunctionModel| body_walk(flattened(f.statements)).0),
            violations_view(out@) == over_functions(program@.functions.take(i as int), per),
        decreases program.functions.len() - i,
    {
        proof {
            lemma_over_functions_step(program@.functions, per, i as int);
        }
        check_function(&program.functions[i], &mut out);
        i += 1;
    }
    assert(program@.functions.take(program.functions.len() as int) =~= program@.functions);
    RuleResult::violations(out)
}

proof fn lemma_names_numbered(names: Seq<Seq<char>>, line: usize, marked: bool)
    ensures
        numbered(names_violations(names, line, marked), 11),
    decreases names.len(),
{
    if names.len() > 0 {
        lemma_names_numbered(names.drop_last(), line, marked);
        let tail = if is_external(names.last()) && !marked {
            seq![use_violation(line, names.last())]
        } else {
            Seq::empty()
        };
        lemma_numbered_add(names_violations(names.drop_last(), line, marked), tail, 11);
    }
}

proof fn lemma_walk_numbered(stmts: Seq<StmtModel>)
    ensures
        numbered(body_walk(stmts).0, 11),
    decreases stmts.len(),
{
    if stmts.len() > 0 {
        lemma_walk_numbered(stmts.drop_last());
        let (found, marked) = body_walk(stmts.drop_last());
        match stmts.last() {
            StmtModel::Assign { value, line, .. } => {
                lemma_names_numbered(variables(value), line, marked);
            },
            StmtModel::Expr { expr, line } => {
                lemma_names_numbered(variables(expr), line, marked);
            },
            _ => {},
        }
        lemma_numbered_add(found, stmt_step(stmts.last(), marked).0, 11);
    }
}

/// Every finding of the rule carries the number 11.
pub proof fn lemma_numbered(p: ProgramModel)
    ensures
        numbered(rule_violations(p), 11),
{
    let per = |f: FunctionModel| body_walk(flattened(f.statements)).0;
    assert forall|f: FunctionModel| numbered(#[trigger] per(f), 11) by {
        lemma_walk_numbered(flattened(f.statements));
    }
    lemma_over_functions_numbered(p.functions, per, 11);
}

} // verus!
