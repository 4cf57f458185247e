//! The pattern that two rules share: a routine that makes a certain call
//! must hold a conditional that tests what the call gave and raises an
//! alarm.

use crate::ast::{
    Expression, ExprModel, Function, FunctionModel, lemma_stmts_view_step, Program, ProgramModel,
    Statement, StmtModel, stmts_view,
};
use crate::rules::{
    lemma_over_functions_numbered, lemma_over_functions_step, numbered, outcome, over_functions,
    report, RuleResult, Violation, violation, ViolationModel, violations_view,
};
use crate::rules::render::{expr_chars, rendered};
use crate::rules::search::{branch_sets_alarm_true, call_lines, collect_call_lines, raises_alarm};
use crate::rules::words::{holds_any, mentions_any};
use crate::text::{chars_of, texts, to_upper};
use vstd::prelude::*;

verus! {

/// A rule of this pattern.
pub struct AlarmRule {
    /// The words by which the call is known.
    pub call_words: Vec<Vec<char>>,
    /// The words of which the condition must hold one to name its subject.
    pub subject_words: Vec<Vec<char>>,
    /// The words of which the condition must hold one to compare it.
    pub comparison_words: Vec<Vec<char>>,
    /// Whether a finding stands at the last such call, not at the first.
    pub at_last_call: bool,
    pub rule_no: u8,
    pub rule_name: &'static str,
    pub reason: &'static str,
    pub suggestion: &'static str,
}

/// The model of a rule of this pattern.
pub struct AlarmPattern {
    pub call_words: Seq<Seq<char>>,
    pub subject_words: Seq<Seq<char>>,
    pub comparison_words: Seq<Seq<char>>,
    pub at_last_call: bool,
    pub rule_no: u8,
    pub rule_name: Seq<char>,
    pub reason: Seq<char>,
    pub suggestion: Seq<char>,
}

impl View for AlarmRule {
    type V = AlarmPattern;

    open spec fn view(&self) -> AlarmPattern {
        AlarmPattern {
            call_words: texts(self.call_words@),
            subject_words: texts(self.subject_words@),
            comparison_words: texts(self.comparison_words@),
            at_last_call: self.at_last_call,
            rule_no: self.rule_no,
            rule_name: self.rule_name@,
            reason: self.reason@,
            suggestion: self.suggestion@,
        }
    }
}

/// Whether a condition makes the test: its text names the subject and
/// compares it, in any case.
pub open spec fn is_test(condition: ExprModel, pattern: AlarmPattern) -> bool {
    mentions_any(rendered(condition), pattern.subject_words) && mentions_any(
        rendered(condition),
        pattern.comparison_words,
    )
}

/// Whether the statements hold, at any depth, a conditional that makes the
/// test and sets an alarm directly in its first branch.
pub open spec fn has_alarm(stmts: Seq<StmtModel>, pattern: AlarmPattern) -> bool
    decreases stmts,
{
    if stmts.len() == 0 {
        false
    } else {
        has_alarm(stmts.drop_last(), pattern) || alarm_in(stmts.last(), pattern)
    }
}

/// Whether a statement is such a conditional or holds one.
pub open spec fn alarm_in(st: StmtModel, pattern: AlarmPattern) -> bool
    decreases st,
{
    match st {
        StmtModel::IfStmt { condition, then_branch, else_branch, .. } => (is_test(
            condition,
            pattern,
        ) && raises_alarm(then_branch)) || has_alarm(then_branch, pattern) || has_alarm(
            else_branch,
            pattern,
        ),
        _ => false,
    }
}

/// The finding of the rule at a line.
pub open spec fn alarm_violation(pattern: AlarmPattern, line: usize) -> ViolationModel {
    ViolationModel {
        rule_no: pattern.rule_no,
        rule_name: pattern.rule_name,
        line,
        reason: pattern.reason,
        suggestion: pattern.suggestion,
    }
}

/// The finding for one routine, if it gives one: it holds such a call, at
/// any depth, and no such conditional. The finding stands at the first or at
/// the last such call, as the rule says.
pub open spec fn function_violations(
    f: FunctionModel,
    pattern: AlarmPattern,
) -> Seq<ViolationModel> {
    let calls = call_lines(f.statements, pattern.call_words);
    if calls.len() > 0 && !has_alarm(f.statements, pattern) {
        seq![
            alarm_violation(
                pattern,
                if pattern.at_last_call {
                    calls.last()
                } else {
                    calls.first()
                },
            ),
        ]
    } else {
        Seq::empty()
    }
}

/// The findings of a rule of this pattern for a program.
pub open spec fn alarm_violations(p: ProgramModel, pattern: AlarmPattern) -> Seq<ViolationModel> {
    over_functions(p.functions, |f: FunctionModel| function_violations(f, pattern))
}

/// A conditional among the statements that counts makes the whole count.
pub proof fn lemma_has_alarm_from(stmts: Seq<StmtModel>, pattern: AlarmPattern, i: int)
    requires
        0 <= i < stmts.len(),
        alarm_in(stmts[i], pattern),
    ensures
        has_alarm(stmts, pattern),
    decreases stmts.len(),
{
    if i < stmts.len() - 1 {
        lemma_has_alarm_from(stmts.drop_last(), pattern, i);
    }
}

fn makes_test(condition: &Expression, rule: &AlarmRule) -> (r: bool)
    ensures
        r == is_test(condition@, rule@),
{
    let c = to_upper(&expr_chars(condition));
    holds_any(&c, &rule.subject_words) && holds_any(&c, &rule.comparison_words)
}

/// Whether the statements hold a conditional that makes the test and
/// raises an alarm.
pub fn holds_alarm(stmts: &Vec<Statement>, rule: &AlarmRule) -> (r: bool)
    ensures
        r == has_alarm(stmts_view(stmts@), rule@),
    decreases stmts,
{
    let ghost sv = stmts_view(stmts@);
    let mut i: usize = 0;
    while i < stmts.len()
        invariant
            i <= stmts.len(),
            sv == stmts_view(stmts@),
            !has_alarm(sv.take(i as int), rule@),
        decreases stmts.len() - i,
    {
        proof {
            lemma_stmts_view_step(stmts@, i as int);
        }
        match &stmts[i] {
            Statement::IfStmt { condition, then_branch, else_branch, .. } => {
                if makes_test(condition, rule) && branch_sets_alarm_true(then_branch) {
                    proof {
                        lemma_has_alarm_from(sv, rule@, i as int);
                    }
                    return true;
                }
                if holds_alarm(then_branch, rule) || holds_alarm(else_branch, rule) {
                    proof {
                        lemma_has_alarm_from(sv, rule@, i as int);
                    }
                    return true;
                }
            },
            _ => {},
        }
        assert(!alarm_in(stmts@[i as int]@, rule@));
        assert(has_alarm(sv.take(i as int + 1), rule@) == (has_alarm(sv.take(i as int), rule@)
            || alarm_in(stmts@[i as int]@, rule@)));
        i += 1;
    }
    proof {
        if stmts.len() > 0 {
            lemma_stmts_view_step(stmts@, 0);
        } else {
            assert(sv.take(0) =~= sv);
        }
    }
    false
}

fn check_function(f: &Function, rule: &AlarmRule, out: &mut Vec<Violation>)
    ensures
        violations_view(final(out)@) == violations_view(old(out)@) + function_violations(
            f@,
            rule@,
        ),
{
    let mut calls: Vec<usize> = Vec::new();
    collect_call_lines(&f.statements, &rule.call_words, &mut calls);
    assert(calls@ =~= call_lines(f@.statements, rule@.call_words));
    if calls.len() > 0 && !holds_alarm(&f.statements, rule) {
        let line = if rule.at_last_call {
            calls[calls.len() - 1]
        } else {
            calls[0]
        };
        report(
            out,
            violation(rule.rule_no, rule.rule_name, line, &chars_of(rule.reason), rule.suggestion),
        );
    }
    assert(violations_view(out@) =~= violations_view(old(out)@) + function_violations(f@, rule@));
}

/// Checks every routine of the program by a rule of this pattern.
pub fn check_alarm(program: &Program, rule: &AlarmRule) -> (r: RuleResult)
    ensures
        r@ == outcome(alarm_violations(program@, rule@)),
{
    let mut out: Vec<Violation> = Vec::new();
    let ghost per = |f: FunctionModel| function_violations(f, rule@);
    let mut i: usize = 0;
    while i < program.functions.len()
        invariant
            i <= program.functions.len(),
            per == (|f: FunctionModel| function_violations(f, rule@)),
            violations_view(out@) == over_functions(program@.functions.take(i as int), per),
        decreases program.functions.len() - i,
    {
        proof {
            lemma_over_functions_step(program@.functions, per, i as int);
        }
        check_function(&program.functions[i], rule, &mut out);
        i += 1;
    }
    assert(program@.functions.take(program.functions.len() as int) =~= program@.functions);
    RuleResult::violations(out)
}

/// Every finding of a rule of this pattern carries the number of the rule.
pub proof fn lemma_numbered(p: ProgramModel, pattern: AlarmPattern)
    ensures
        numbered(alarm_violations(p, pattern), pattern.rule_no),
{
    lemma_over_functions_numbered(
        p.functions,
        |f: FunctionModel| function_violations(f, pattern),
        pattern.rule_no,
    );
}

} // verus!
