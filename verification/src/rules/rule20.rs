//! Rule 20: false alerts are trapped. Each name of a routine that begins
//! with `Critical_Alert_` needs two companions in the same routine, the one
//! for false negatives and the one for false positives.

use crate::ast::{
    Function, FunctionModel, lemma_stmts_view_step, Program, ProgramModel, Statement, StmtModel,
    stmts_view,
};
use crate::rules::{
    lemma_numbered_add, lemma_over_functions_numbered, lemma_over_functions_step, numbered, outcome,
    over_functions, report, RuleResult, Violation, violation, ViolationModel, violations_view,
};
use crate::text::{chars_of, has_prefix, push_all, push_str, same_text, starts_with_str};
use vstd::prelude::*;

verus! {

/// The names that the statements assign to or call, each with its line, in
/// the order of the source, the branches of conditionals included.
pub open spec fn named_lines(stmts: Seq<StmtModel>) -> Seq<(Seq<char>, usize)>
    decreases stmts,
{
    if stmts.len() == 0 {
        Seq::empty()
    } else {
        named_lines(stmts.drop_last()) + named_lines_of(stmts.last())
    }
}

/// The names that one statement assigns to or calls, each with its line.
pub open spec fn named_lines_of(st: StmtModel) -> Seq<(Seq<char>, usize)>
    decreases st,
{
    match st {
        StmtModel::Assign { target, line, .. } => seq![(target, line)],
        StmtModel::Call { name, line, .. } => seq![(name, line)],
        StmtModel::IfStmt { then_branch, else_branch, .. } => named_lines(then_branch)
            + named_lines(else_branch),
        _ => Seq::empty(),
    }
}

/// Whether the name is among the first `n` of the names.
pub open spec fn named_before(names: Seq<(Seq<char>, usize)>, n: int, name: Seq<char>) -> bool {
    exists|j: int| 0 <= j < n && j < names.len() && (#[trigger] names[j]).0 == name
}

/// Whether the name is among the names.
pub open spec fn is_named(names: Seq<(Seq<char>, usize)>, name: Seq<char>) -> bool {
    named_before(names, names.len() as int, name)
}

/// The companion of an alert for false negatives.
pub open spec fn negative_trap(name: Seq<char>) -> Seq<char> {
    name + "_False_Negative"@
}

/// The companion of an alert for false positives.
pub open spec fn positive_trap(name: Seq<char>) -> Seq<char> {
    name + "_False_Positive"@
}

/// The finding for an alert without both of its companions.
pub open spec fn trap_violation(line: usize, name: Seq<char>) -> ViolationModel {
    ViolationModel {
        rule_no: 20,
        rule_name: "Trap false alerts"@,
        line,
        reason: "Missing trap variables '"@ + negative_trap(name) + "' or '"@ + positive_trap(name)
            + "'"@,
        suggestion: "Implement self-checking pattern with both false-negative and false-positive traps."@,
    }
}

/// The finding for the name at position `i`, if it gives one: the name
/// stands there for the first time, it begins with `Critical_Alert_`, and
/// one of its companions is not among the names.
pub open spec fn name_violations(names: Seq<(Seq<char>, usize)>, i: int) -> Seq<ViolationModel> {
    let name = names[i].0;
    if !named_before(names, i, name) && has_prefix(name, "Critical_Alert_"@) && !(is_named(
        names,
        negative_trap(name),
    ) && is_named(names, positive_trap(name))) {
        seq![trap_violation(names[i].1, name)]
    } else {
        Seq::empty()
    }
}

/// The findings for the first `n` of the names.
pub open spec fn names_violations(names: Seq<(Seq<char>, usize)>, n: int) -> Seq<ViolationModel>
    decreases n,
{
    if n <= 0 {
        Seq::empty()
    } else {
        names_violations(names, n - 1) + name_violations(names, n - 1)
    }
}

/// The findings for one routine: one for each alert without both
/// companions, at the line where the alert is first named.
pub open spec fn function_violations(f: FunctionModel) -> Seq<ViolationModel> {
    names_violations(named_lines(f.statements), named_lines(f.statements).len() as int)
}

/// The findings of the rule for a program.
pub open spec fn rule_violations(p: ProgramModel) -> Seq<ViolationModel> {
    over_functions(p.functions, |f: FunctionModel| function_violations(f))
}

/// The names with their lines, as the walk holds them.
pub open spec fn entries(v: Seq<(Vec<char>, usize)>) -> Seq<(Seq<char>, usize)> {
    Seq::new(v.len(), |i: int| (v[i].0@, v[i].1))
}

proof fn lemma_entries_push(v: Seq<(Vec<char>, usize)>, x: (Vec<char>, usize))
    ensures
        entries(v.push(x)) == entries(v).push((x.0@, x.1)),
{
    assert(entries(v.push(x)) =~= entries(v).push((x.0@, x.1)));
}

/// Appends the names that the statements assign to or call, each with its
/// line.
pub fn collect_names(stmts: &Vec<Statement>, out: &mut Vec<(Vec<char>, usize)>)
    ensures
        entries(final(out)@) == entries(old(out)@) + named_lines(stmts_view(stmts@)),
    decreases stmts,
{
    let ghost sv = stmts_view(stmts@);
    let mut i: usize = 0;
    assert(entries(out@) =~= entries(old(out)@) + named_lines(sv.take(0)));
    while i < stmts.len()
        invariant
            i <= stmts.len(),
            sv == stmts_view(stmts@),
            entries(out@) == entries(old(out)@) + named_lines(sv.take(i as int)),
        decreases stmts.len() - i,
    {
        proof {
            lemma_stmts_view_step(stmts@, i as int);
        }
        let ghost before = entries(out@);
        match &stmts[i] {
            Statement::Assign { target, line, .. } => {
                let entry = (chars_of(target.name.as_str()), *line);
                proof {
                    lemma_entries_push(out@, entry);
                }
                out.push(entry);
            },
            Statement::Call { name, line, .. } => {
                let entry = (chars_of(name.as_str()), *line);
                proof {
                    lemma_entries_push(out@, entry);
                }
                out.push(entry);
            },
            Statement::IfStmt { then_branch, else_branch, .. } => {
                collect_names(then_branch, out);
                collect_names(else_branch, out);
            },
            _ => {},
        }
        assert(entries(out@) =~= before + named_lines_of(stmts@[i as int]@));
        i += 1;
        assert(entries(out@) =~= entries(old(out)@) + named_lines(sv.take(i as int)));
    }
    proof {
        if stmts.len() > 0 {
            lemma_stmts_view_step(stmts@, 0);
        } else {
            assert(sv.take(0) =~= sv);
        }
    }
}

fn holds_name(names: &Vec<(Vec<char>, usize)>, n: usize, name: &Vec<char>) -> (r: bool)
    requires
        n <= names.len(),
    ensures
        r == named_before(entries(names@), n as int, name@),
{
    let mut j: usize = 0;
    while j < n
        invariant
            j <= n <= names.len(),
            forall|k: int| 0 <= k < j ==> (#[trigger] entries(names@)[k]).0 != name@,
        decreases n - j,
    {
        assert(entries(names@)[j as int].0 == names@[j as int].0@);
        if same_text(&names[j].0, name) {
            return true;
        }
        j += 1;
    }
    false
}

fn check_function(f: &Function, out: &mut Vec<Violation>)
    ensures
        violations_view(final(out)@) == violations_view(old(out)@) + function_violations(f@),
{
    let mut names: Vec<(Vec<char>, usize)> = Vec::new();
    collect_names(&f.statements, &mut names);
    let ghost all = entries(names@);
    assert(all =~= named_lines(f@.statements));
    let mut i: usize = 0;
    while i < names.len()
        invariant
            i <= names.len(),
            all == entries(names@),
            violations_view(out@) == violations_view(old(out)@) + names_violations(all, i as int),
        decreases names.len() - i,
    {
        let name = &names[i].0;
        let line = names[i].1;
        assert(all[i as int] == (name@, line));
        if !holds_name(&names, i, name) && starts_with_str(name, "Critical_Alert_") {
            let mut negative = slice_copy(name);
            push_str(&mut negative, "_False_Negative");
            let mut positive = slice_copy(name);
            push_str(&mut positive, "_False_Positive");
            if !(holds_name(&names, names.len(), &negative) && holds_name(
                &names,
                names.len(),
                &positive,
            )) {
                let mut reason = chars_of("Missing trap variables '");
                push_all(&mut reason, &negative);
                push_str(&mut reason, "' or '");
                push_all(&mut reason, &positive);
                push_str(&mut reason, "'");
                report(
                    out,
                    violation(
                        20,
                        "Trap false alerts",
                        line,
                        &reason,
                        "Implement self-checking pattern with both false-negative and false-positive traps.",
                    ),
                );
            }
        }
        i += 1;
        assert(violations_view(out@) =~= violations_view(old(out)@) + names_violations(
            all,
            i as int,
        ));
    }
}

fn slice_copy(s: &Vec<char>) -> (r: Vec<char>)
    ensures
        r@ == s@,
{
    let mut r: Vec<char> = Vec::new();
    push_all(&mut r, s);
    assert(Seq::<char>::empty() + s@ =~= s@);
    r
}

/// Checks every routine of the program.
pub fn check(program: &Program) -> (r: RuleResult)
    ensures
        r@ == outcome(rule_violations(program@)),
{
    let mut out: Vec<Violation> = Vec::new();
    let ghost per = |f: FunctionModel| function_violations(f);
    let mut i: usize = 0;
    while i < program.functions.len()
        invariant
            i <= program.functions.len(),
            per == (|f: FunctionModel| function_violations(f)),
            violations_view(out@) == over_functions(program@.functions.take(i as int), per),
        decreases program.functions.len() - i,
    {
        proof {
            lemma_over_functions_step(program@.functions, per, i as int);
        }
        check_function(&program.functions[i], &mut out);
        i += 1;
    }
    assert(program@.functions.take(program.functions.len() as int) =~= program@.functions);
    RuleResult::violations(out)
}

proof fn lemma_names_numbered(names: Seq<(Seq<char>, usize)>, n: int)
    ensures
        numbered(names_violations(names, n), 20),
    decreases n,
{
    if n > 0 {
        lemma_names_numbered(names, n - 1);
        lemma_numbered_add(names_violations(names, n - 1), name_violations(names, n - 1), 20);
    }
}

/// Every finding of the rule carries the number 20.
pub proof fn lemma_numbered(p: ProgramModel)
    ensures
        numbered(rule_violations(p), 20),
{
    let per = |f: FunctionModel| function_violations(f);
    assert forall|f: FunctionModel| numbered(#[trigger] per(f), 20) by {
        lemma_names_numbered(named_lines(f.statements), named_lines(f.statements).len() as int);
    }
    lemma_over_functions_numbered(p.functions, per, 20);
}

} // verus!
