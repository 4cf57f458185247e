//! Rule 5: checksums are compared. A routine that fetches a checksum is
//! reported unless it raises an alarm where the checksum differs.

use crate::ast::{Program, ProgramModel};
use crate::rules::alarm::{alarm_violations, AlarmPattern, AlarmRule, check_alarm};
use crate::rules::{outcome, RuleResult, ViolationModel};
use crate::text::{chars_of, texts};
use vstd::prelude::*;

verus! {

/// The rule as a pattern: the call that fetches the checksum; the
/// condition names the checksum and compares it for inequality; a finding
/// stands at the last such call.
pub open spec fn pattern() -> AlarmPattern {
    AlarmPattern {
        call_words: seq!["GETCHECKSUM"@],
        subject_words: seq!["CHECKSUM"@],
        comparison_words: seq!["<>"@, "!="@],
        at_last_call: true,
        rule_no: 5,
        rule_name: "Use checksum integrity checks"@,
        reason: "GetChecksum called but its result is not compared and alarmed"@,
        suggestion: "Compare checksum to stored value and raise alarm when mismatched."@,
    }
}

/// The findings of the rule for a program.
pub open spec fn rule_violations(p: ProgramModel) -> Seq<ViolationModel> {
    alarm_violations(p, pattern())
}

/// Checks every routine of the program.
pub fn check(program: &Program) -> (r: RuleResult)
    ensures
        r@ == outcome(rule_violations(program@)),
{
    let rule = AlarmRule {
        call_words: vec![chars_of("GETCHECKSUM")],
        subject_words: vec![chars_of("CHECKSUM")],
        comparison_words: vec![chars_of("<>"), chars_of("!=")],
        at_last_call: true,
        rule_no: 5,
        rule_name: "Use checksum integrity checks",
        reason: "GetChecksum called but its result is not compared and alarmed",
        suggestion: "Compare checksum to stored value and raise alarm when mismatched.",
    };
    assert(rule@ == pattern()) by {
        assert(texts(rule.call_words@) =~= pattern().call_words);
        assert(texts(rule.subject_words@) =~= pattern().subject_words);
        assert(texts(rule.comparison_words@) =~= pattern().comparison_words);
    }
    check_alarm(program, &rule)
}

} // verus!
