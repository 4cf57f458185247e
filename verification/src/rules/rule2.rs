//! Rule 2: the operating mode is tracked. A routine that reads the
//! operating mode is reported unless it raises an alarm where the mode is
//! not RUN.

use crate::ast::{Program, ProgramModel};
use crate::rules::alarm::{alarm_violations, AlarmPattern, AlarmRule, check_alarm};
use crate::rules::{outcome, RuleResult, ViolationModel};
use crate::text::{chars_of, texts};
use vstd::prelude::*;

verus! {

/// The rule as a pattern: the calls that read the mode; the condition
/// names the mode and compares it with the value 8 for inequality; a
/// finding stands at the first such call.
pub open spec fn pattern() -> AlarmPattern {
    AlarmPattern {
        call_words: seq!["RD_SYS"@, "RD_SINFO"@, "SFC"@],
        subject_words: seq!["MODE"@, "RUN"@],
        comparison_words: seq!["<> 8"@, "!= 8"@, "NOT 8"@, "8 = FALSE"@],
        at_last_call: false,
        rule_no: 2,
        rule_name: "Track operating modes"@,
        reason: "CPU operating mode read without alarm on non-RUN (value != 8)"@,
        suggestion: "Add IF (Mode <> 8) THEN Alarm := TRUE; END_IF;"@,
    }
}

/// The findings of the rule for a program.
pub open spec fn rule_violations(p: ProgramModel) -> Seq<ViolationModel> {
    alarm_violations(p, pattern())
}

/// Checks every routine of the program.
pub fn check(program: &Program) -> (r: RuleResult)
    ensures
        r@ == outcome(rule_violations(program@)),
{
    let rule = AlarmRule {
        call_words: vec![chars_of("RD_SYS"), chars_of("RD_SINFO"), chars_of("SFC")],
        subject_words: vec![chars_of("MODE"), chars_of("RUN")],
        comparison_words: vec![
            chars_of("<> 8"),
            chars_of("!= 8"),
            chars_of("NOT 8"),
            chars_of("8 = FALSE"),
        ],
        at_last_call: false,
        rule_no: 2,
        rule_name: "Track operating modes",
        reason: "CPU operating mode read without alarm on non-RUN (value != 8)",
        suggestion: "Add IF (Mode <> 8) THEN Alarm := TRUE; END_IF;",
    };
    assert(rule@ == pattern()) by {
        assert(texts(rule.call_words@) =~= pattern().call_words);
        assert(texts(rule.subject_words@) =~= pattern().subject_words);
        assert(texts(rule.comparison_words@) =~= pattern().comparison_words);
    }
    check_alarm(program, &rule)
}

} // verus!
