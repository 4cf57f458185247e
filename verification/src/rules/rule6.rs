//! Rule 6: presets of timers and counters are validated. An assignment to
//! a preset from a value that is no literal is reported, unless a
//! conditional around it tests the value.

use crate::ast::{
    Expression, ExprModel, FunctionModel, lemma_stmts_view_step, Program, ProgramModel, Statement,
    StmtModel, stmts_view,
};
use crate::rules::{
    lemma_numbered_add, lemma_over_functions_numbered, lemma_over_functions_step, numbered, outcome,
    over_functions, report, RuleResult, Violation, violation, ViolationModel, violations_view,
};
use crate::rules::render::{expr_chars, is_literal, literal, rendered};
use crate::rules::words::{covered, is_covered, mentions, with_guard};
use crate::text::{chars_of, contains_str, push_all, push_str, texts, to_upper, upper, upper_of};
use vstd::prelude::*;

verus! {

/// The words of which a guard must hold one to count as a range check.
pub open spec fn range_words() -> Seq<Seq<char>> {
    seq!["<"@, ">"@, "MIN"@, "MAX"@]
}

/// Whether a name suggests the preset of a timer or a counter.
pub open spec fn is_preset(target: Seq<char>) -> bool {
    mentions(target, "TIMER"@) || mentions(target, "COUNTER"@) || mentions(target, ".PT"@)
        || mentions(target, "PRESET"@)
}

/// The finding for a preset that is set from the given value.
pub open spec fn preset_violation(
    line: usize,
    target: Seq<char>,
    value_text: Seq<char>,
) -> ViolationModel {
    ViolationModel {
        rule_no: 6,
        rule_name: "Validate timers and counters"@,
        line,
        reason: "Preset '"@ + target + "' set from external value '"@ + value_text
            + "' without range check"@,
        suggestion: "Precede with IF value within expected min/max range."@,
    }
}

/// The finding for one assignment, if it gives one: its target is a preset,
/// its value is no literal, and no guard covers the text of the value.
pub open spec fn assign_violations(
    target: Seq<char>,
    value: ExprModel,
    line: usize,
    guards: Seq<Seq<char>>,
) -> Seq<ViolationModel> {
    if is_preset(target) && !literal(value) && !covered(
        guards,
        upper(rendered(value)),
        range_words(),
    ) {
        seq![preset_violation(line, target, rendered(value))]
    } else {
        Seq::empty()
    }
}

/// The findings in one statement. The condition of a conditional guards
/// both of its branches.
pub open spec fn stmt_violations(st: StmtModel, guards: Seq<Seq<char>>) -> Seq<ViolationModel>
    decreases st,
{
    match st {
        StmtModel::IfStmt { condition, then_branch, else_branch, .. } => {
            let g = guards.push(rendered(condition));
            stmts_violations(then_branch, g) + stmts_violations(else_branch, g)
        },
        StmtModel::Assign { target, value, line } => assign_violations(target, value, line, guards),
        _ => Seq::empty(),
    }
}

/// The findings in a sequence of statements, in order.
pub open spec fn stmts_violations(
    stmts: Seq<StmtModel>,
    guards: Seq<Seq<char>>,
) -> Seq<ViolationModel>
    decreases stmts,
{
    if stmts.len() == 0 {
        Seq::empty()
    } else {
        stmts_violations(stmts.drop_last(), guards) + stmt_violations(stmts.last(), guards)
    }
}

/// The findings of the rule for a program: those of the bodies of its
/// routines, each without a guard at its start.
pub open spec fn rule_violations(p: ProgramModel) -> Seq<ViolationModel> {
    over_functions(p.functions, |f: FunctionModel| stmts_violations(f.statements, Seq::empty()))
}

fn range_word_list() -> (r: Vec<Vec<char>>)
    ensures
        texts(r@) == range_words(),
{
    let r = vec![chars_of("<"), chars_of(">"), chars_of("MIN"), chars_of("MAX")];
    assert(texts(r@) =~= range_words());
    r
}

fn names_preset(target: &str) -> (r: bool)
    ensures
        r == is_preset(target@),
{
    let up = upper_of(target);
    contains_str(&up, "TIMER") || contains_str(&up, "COUNTER") || contains_str(&up, ".PT")
        || contains_str(&up, "PRESET")
}

fn check_assign(
    target: &str,
    value: &Expression,
    line: usize,
    guards: &Vec<Vec<char>>,
    out: &mut Vec<Violation>,
)
    ensures
        violations_view(final(out)@) == violations_view(old(out)@) + assign_violations(
            target@,
            value@,
            line,
            texts(guards@),
        ),
{
    if names_preset(target) && !is_literal(value) {
        let value_text = expr_chars(value);
        if !is_covered(guards, &to_upper(&value_text), &range_word_list()) {
            let mut reason = chars_of("Preset '");
            push_str(&mut reason, target);
            push_str(&mut reason, "' set from external value '");
            push_all(&mut reason, &value_text);
            push_str(&mut reason, "' without range check");
            report(
                out,
                violation(
                    6,
                    "Validate timers and counters",
                    line,
                    &reason,
                    "Precede with IF value within expected min/max range.",
                ),
            );
        }
    }
    assert(violations_view(out@) =~= violations_view(old(out)@) + assign_violations(
        target@,
        value@,
        line,
        texts(guards@),
    ));
}

/// Appends the findings in a sequence of statements under the given guards.
pub fn check_stmts(stmts: &Vec<Statement>, guards: &Vec<Vec<char>>, out: &mut Vec<Violation>)
    ensures
        violations_view(final(out)@) == violations_view(old(out)@) + stmts_violations(
            stmts_view(stmts@),
            texts(guards@),
        ),
    decreases stmts,
{
    let ghost sv = stmts_view(stmts@);
    let mut i: usize = 0;
    assert(violations_view(out@) =~= violations_view(old(out)@) + stmts_violations(
        sv.take(0),
        texts(guards@),
    ));
    while i < stmts.len()
        invariant
            i <= stmts.len(),
            sv == stmts_view(stmts@),
            violations_view(out@) == violations_view(old(out)@) + stmts_violations(
                sv.take(i as int),
                texts(guards@),
            ),
        decreases stmts.len() - i,
    {
        proof {
            lemma_stmts_view_step(stmts@, i as int);
        }
        let ghost before = violations_view(out@);
        match &stmts[i] {
            Statement::IfStmt { condition, then_branch, else_branch, .. } => {
                let inner = with_guard(guards, expr_chars(condition));
                check_stmts(then_branch, &inner, out);
                check_stmts(else_branch, &inner, out);
            },
            Statement::Assign { target, value, line } => {
                check_assign(target.name.as_str(), value, *line, guards, out);
            },
            _ => {},
        }
        assert(violations_view(out@) =~= before + stmt_violations(
            stmts@[i as int]@,
            texts(guards@),
        ));
        i += 1;
        assert(violations_view(out@) =~= violations_view(old(out)@) + stmts_violations(
            sv.take(i as int),
            texts(guards@),
        ));
    }
    proof {
        if stmts.len() > 0 {
            lemma_stmts_view_step(stmts@, 0);
        } else {
            assert(sv.take(0) =~= sv);
        }
    }
}

/// Checks every routine of the program.
pub fn check(program: &Program) -> (r: RuleResult)
    ensures
        r@ == outcome(rule_violations(program@)),
{
    let mut out: Vec<Violation> = Vec::new();
    let ghost per = |f: FunctionModel| stmts_violations(f.statements, Seq::empty());
    let guards: Vec<Vec<char>> = Vec::new();
    assert(texts(guards@) =~= Seq::empty());
    let mut i: usize = 0;
    while i < program.functions.len()
        invariant
            i <= program.functions.len(),
            texts(guards@) == Seq::<Seq<char>>::empty(),
            per == (|f: FunctionModel| stmts_violations(f.statements, Seq::empty())),
            violations_view(out@) == over_functions(program@.functions.take(i as int), per),
        decreases program.functions.len() - i,
    {
        proof {
            lemma_over_functions_step(program@.functions, per, i as int);
        }
        check_stmts(&program.functions[i].statements, &guards, &mut out);
        i += 1;
    }
    assert(program@.functions.take(program.functions.len() as int) =~= program@.functions);
    RuleResult::violations(out)
}

proof fn lemma_stmt_numbered(st: StmtModel, guards: Seq<Seq<char>>)
    ensures
        numbered(stmt_violations(st, guards), 6),
    decreases st,
{
    match st {
        StmtModel::IfStmt { condition, then_branch, else_branch, .. } => {
            let g = guards.push(rendered(condition));
            lemma_stmts_numbered(then_branch, g);
            lemma_stmts_numbered(else_branch, g);
            lemma_numbered_add(
                stmts_violations(then_branch, g),
                stmts_violations(else_branch, g),
                6,
            );
        },

        _ => {},
    }
}

proof fn lemma_stmts_numbered(stmts: Seq<StmtModel>, guards: Seq<Seq<char>>)
    ensures
        numbered(stmts_violations(stmts, guards), 6),
    decreases stmts,
{
    if stmts.len() > 0 {
        lemma_stmts_numbered(stmts.drop_last(), guards);
        lemma_stmt_numbered(stmts.last(), guards);
        lemma_numbered_add(
            stmts_violations(stmts.drop_last(), guards),
            stmt_violations(stmts.last(), guards),
            6,
        );
    }
}

/// Every finding of the rule carries the number 6.
pub proof fn lemma_numbered(p: ProgramModel)
    ensures
        numbered(rule_violations(p), 6),
{
    let per = |f: FunctionModel| stmts_violations(f.statements, Seq::empty());
    assert forall|f: FunctionModel| numbered(#[trigger] per(f), 6) by {
        lemma_stmts_numbered(f.statements, Seq::empty());
    }
    lemma_over_functions_numbered(p.functions, per, 6);
}

} // verus!
