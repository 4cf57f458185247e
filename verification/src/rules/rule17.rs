//! Rule 17: the uptime is logged. A routine that reads the system
//! information is reported unless it moves the uptime to a reporting tag.

use crate::ast::{Program, ProgramModel};
use crate::rules::{outcome, RuleResult, ViolationModel};
use crate::rules::reporting::{check_reporting, report_violations, ReportPattern, ReportRule};
use crate::text::{chars_of, texts};
use vstd::prelude::*;

verus! {

/// The rule as a pattern: the calls that read the system information; the
/// tags of the operator panel and of the uptime; the values that hold what
/// was read, or the runtime.
pub open spec fn pattern() -> ReportPattern {
    ReportPattern {
        call_words: seq!["SFC6"@, "RD_SINFO"@],
        target_words: seq!["HMI"@, "UPTIME"@],
        value_words: seq!["SFC6"@, "RD_SINFO"@, "RUNTIME"@],
        rule_no: 17,
        rule_name: "Log PLC uptime"@,
        reason: "SFC6/RD_SINFO used but uptime not reported"@,
        suggestion: "Move uptime counter to an HMI tag or logging DB."@,
    }
}

/// The findings of the rule for a program.
pub open spec fn rule_violations(p: ProgramModel) -> Seq<ViolationModel> {
    report_violations(p, pattern())
}

/// Checks every routine of the program.
pub fn check(program: &Program) -> (r: RuleResult)
    ensures
        r@ == outcome(rule_violations(program@)),
{
    let rule = ReportRule {
        call_words: vec![chars_of("SFC6"), chars_of("RD_SINFO")],
        target_words: vec![chars_of("HMI"), chars_of("UPTIME")],
        value_words: vec![chars_of("SFC6"), chars_of("RD_SINFO"), chars_of("RUNTIME")],
        rule_no: 17,
        rule_name: "Log PLC uptime",
        reason: "SFC6/RD_SINFO used but uptime not reported",
        suggestion: "Move uptime counter to an HMI tag or logging DB.",
    };
    assert(rule@ == pattern()) by {
        assert(texts(rule.call_words@) =~= pattern().call_words);
        assert(texts(rule.target_words@) =~= pattern().target_words);
        assert(texts(rule.value_words@) =~= pattern().value_words);
    }
    check_reporting(program, &rule)
}

} // verus!
