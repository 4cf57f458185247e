//! Rule 19: the memory usage is monitored. A routine that tests the
//! memory is reported unless it moves the result to a reporting tag.

use crate::ast::{Program, ProgramModel};
use crate::rules::{outcome, RuleResult, ViolationModel};
use crate::rules::reporting::{check_reporting, report_violations, ReportPattern, ReportRule};
use crate::text::{chars_of, texts};
use vstd::prelude::*;

verus! {

/// The rule as a pattern: the calls that test the memory; the tags of the
/// operator panel, of memory and of data blocks; the values that hold what
/// the test gave.
pub open spec fn pattern() -> ReportPattern {
    ReportPattern {
        call_words: seq!["SFC24"@, "TEST_DB"@],
        target_words: seq!["HMI"@, "MEM"@, "DB"@],
        value_words: seq!["SFC24"@, "TEST_DB"@],
        rule_no: 19,
        rule_name: "Monitor PLC memory usage"@,
        reason: "SFC24/TEST_DB used but memory usage not reported"@,
        suggestion: "Assign memory usage data to an HMI/DB tag for monitoring."@,
    }
}

/// The findings of the rule for a program.
pub open spec fn rule_violations(p: ProgramModel) -> Seq<ViolationModel> {
    report_violations(p, pattern())
}

/// Checks every routine of the program.
pub fn check(program: &Program) -> (r: RuleResult)
    ensures
        r@ == outcome(rule_violations(program@)),
{
    let rule = ReportRule {
        call_words: vec![chars_of("SFC24"), chars_of("TEST_DB")],
        target_words: vec![chars_of("HMI"), chars_of("MEM"), chars_of("DB")],
        value_words: vec![chars_of("SFC24"), chars_of("TEST_DB")],
        rule_no: 19,
        rule_name: "Monitor PLC memory usage",
        reason: "SFC24/TEST_DB used but memory usage not reported",
        suggestion: "Assign memory usage data to an HMI/DB tag for monitoring.",
    };
    assert(rule@ == pattern()) by {
        assert(texts(rule.call_words@) =~= pattern().call_words);
        assert(texts(rule.target_words@) =~= pattern().target_words);
        assert(texts(rule.value_words@) =~= pattern().value_words);
    }
    check_reporting(program, &rule)
}

} // verus!
