//! The pattern that two rules share: a routine that makes a certain call
//! must move what the call gave to a tag where it is seen.

use crate::ast::{flatten, flattened, Function, FunctionModel, Program, ProgramModel};
use crate::rules::{
    lemma_over_functions_numbered, lemma_over_functions_step, numbered, outcome, over_functions,
    report, RuleResult, Violation, violation, ViolationModel, violations_view,
};
use crate::rules::search::{find_last_call, has_report, last_call_line, reports};
use crate::text::{chars_of, texts};
use vstd::prelude::*;

verus! {

/// A rule of this pattern.
pub struct ReportRule {
    /// The words by which the call is known.
    pub call_words: Vec<Vec<char>>,
    /// The words by which a target of reports is known.
    pub target_words: Vec<Vec<char>>,
    /// The words by which a reported value is known.
    pub value_words: Vec<Vec<char>>,
    pub rule_no: u8,
    pub rule_name: &'static str,
    pub reason: &'static str,
    pub suggestion: &'static str,
}

/// The model of a rule of this pattern.
pub struct ReportPattern {
    pub call_words: Seq<Seq<char>>,
    pub target_words: Seq<Seq<char>>,
    pub value_words: Seq<Seq<char>>,
    pub rule_no: u8,
    pub rule_name: Seq<char>,
    pub reason: Seq<char>,
    pub suggestion: Seq<char>,
}

impl View for ReportRule {
    type V = ReportPattern;

    open spec fn view(&self) -> ReportPattern {
        ReportPattern {
            call_words: texts(self.call_words@),
            target_words: texts(self.target_words@),
            value_words: texts(self.value_words@),
            rule_no: self.rule_no,
            rule_name: self.rule_name@,
            reason: self.reason@,
            suggestion: self.suggestion@,
        }
    }
}

/// The finding of the rule at a line.
pub open spec fn report_violation(pattern: ReportPattern, line: usize) -> ViolationModel {
    ViolationModel {
        rule_no: pattern.rule_no,
        rule_name: pattern.rule_name,
        line,
        reason: pattern.reason,
        suggestion: pattern.suggestion,
    }
}

/// The finding for one routine, if it gives one: a statement of it, at any
/// depth, is such a call, and none reports the value. The finding stands at
/// the last such call.
pub open spec fn function_violations(
    f: FunctionModel,
    pattern: ReportPattern,
) -> Seq<ViolationModel> {
    let all = flattened(f.statements);
    match last_call_line(all, pattern.call_words) {
        Some(line) => if reports(all, pattern.target_words, pattern.value_words) {
            Seq::empty()
        } else {
            seq![report_violation(pattern, line)]
        },
        None => Seq::empty(),
    }
}

/// The findings of a rule of this pattern for a program.
pub open spec fn report_violations(p: ProgramModel, pattern: ReportPattern) -> Seq<ViolationModel> {
    over_functions(p.functions, |f: FunctionModel| function_violations(f, pattern))
}

fn check_function(f: &Function, rule: &ReportRule, out: &mut Vec<Violation>)
    ensures
        violations_view(final(out)@) == violations_view(old(out)@) + function_violations(
            f@,
            rule@,
        ),
{
    let all = flatten(&f.statements);
    match find_last_call(&all, &rule.call_words) {
        Some(line) => {
            if !has_report(&all, &rule.target_words, &rule.value_words) {
                report(
                    out,
                    violation(
                        rule.rule_no,
                        rule.rule_name,
                        line,
                        &chars_of(rule.reason),
                        rule.suggestion,
                    ),
                );
            }
        },
        None => {},
    }
    assert(violations_view(out@) =~= violations_view(old(out)@) + function_violations(f@, rule@));
}

/// Checks every routine of the program by a rule of this pattern.
pub fn check_reporting(program: &Program, rule: &ReportRule) -> (r: RuleResult)
    ensures
        r@ == outcome(report_violations(program@, rule@)),
{
    let mut out: Vec<Violation> = Vec::new();
    let ghost per = |f: FunctionModel| function_violations(f, rule@);
    let mut i: usize = 0;
    while i < program.functions.len()
        invariant
            i <= program.functions.len(),
            per == (|f: FunctionModel| function_violations(f, rule@)),
            violations_view(out@) == over_functions(program@.functions.take(i as int), per),
        decreases program.functions.len() - i,
    {
        proof {
            lemma_over_functions_step(program@.functions, per, i as int);
        }
        check_function(&program.functions[i], rule, &mut out);
        i += 1;
    }
    assert(program@.functions.take(program.functions.len() as int) =~= program@.functions);
    RuleResult::violations(out)
}

/// Every finding of a rule of this pattern carries the number of the rule.
pub proof fn lemma_numbered(p: ProgramModel, pattern: ReportPattern)
    ensures
        numbered(report_violations(p, pattern), pattern.rule_no),
{
    lemma_over_functions_numbered(
        p.functions,
        |f: FunctionModel| function_violations(f, pattern),
        pattern.rule_no,
    );
}

} // verus!
