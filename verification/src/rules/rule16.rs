//! Rule 16: cycle times are summarised. The cyclic organisation block is
//! reported where it reads the time of the previous cycle without moving it
//! to a tag of the operator panel.

use crate::ast::{flatten, flattened, FunctionKind, FunctionModel, Program, ProgramModel};
use crate::rules::{
    numbered, outcome, report, RuleResult, Violation, violation, ViolationModel, violations_view,
};
use crate::rules::search::{
    find_kind, find_last_read, first_of_kind, has_report, last_read_line, reports,
};
use crate::text::{chars_of, texts};
use vstd::prelude::*;

verus! {

/// The word by which a read of the previous cycle time is known.
pub open spec fn cycle_words() -> Seq<Seq<char>> {
    seq!["OB1_PREV_CYCLE"@]
}

/// The word by which a tag of the operator panel is known.
pub open spec fn panel_words() -> Seq<Seq<char>> {
    seq!["HMI"@]
}

/// The finding of the rule at a line.
pub open spec fn rule_violation(line: usize) -> ViolationModel {
    ViolationModel {
        rule_no: 16,
        rule_name: "Summarize PLC cycle times"@,
        line,
        reason: "OB1_PREV_CYCLE read but not reported to HMI"@,
        suggestion: "Move OB1_PREV_CYCLE to a designated HMI tag."@,
    }
}

/// The finding for the cyclic block, if it gives one: a statement of it, at
/// any depth, reads the previous cycle time, and none moves it to the panel.
/// The finding stands at the last such read.
pub open spec fn function_violations(f: FunctionModel) -> Seq<ViolationModel> {
    let all = flattened(f.statements);
    match last_read_line(all, cycle_words()) {
        Some(line) => if reports(all, panel_words(), cycle_words()) {
            Seq::empty()
        } else {
            seq![rule_violation(line)]
        },
        None => Seq::empty(),
    }
}

/// The findings of the rule for a program: those of its first cyclic
/// organisation block, if it has one.
pub open spec fn rule_violations(p: ProgramModel) -> Seq<ViolationModel> {
    match first_of_kind(p.functions, FunctionKind::OB1) {
        Some(f) => function_violations(f),
        None => Seq::empty(),
    }
}

/// Checks the first cyclic organisation block of the program.
pub fn check(program: &Program) -> (r: RuleResult)
    ensures
        r@ == outcome(rule_violations(program@)),
{
    let mut out: Vec<Violation> = Vec::new();
    assert(violations_view(out@) =~= Seq::empty());
    match find_kind(program, FunctionKind::OB1) {
        Some(i) => {
            let all = flatten(&program.functions[i].statements);
            let cycle = vec![chars_of("OB1_PREV_CYCLE")];
            let panel = vec![chars_of("HMI")];
            assert(texts(cycle@) =~= cycle_words());
            assert(texts(panel@) =~= panel_words());
            match find_last_read(&all, &cycle) {
                Some(line) => {
                    if !has_report(&all, &panel, &cycle) {
                        report(
                            &mut out,
                            violation(
                                16,
                                "Summarize PLC cycle times",
                                line,
                                &chars_of("OB1_PREV_CYCLE read but not reported to HMI"),
                                "Move OB1_PREV_CYCLE to a designated HMI tag.",
                            ),
                        );
                    }
                },
                None => {},
            }
        },
        None => {},
    }
    assert(violations_view(out@) =~= rule_violations(program@));
    RuleResult::violations(out)
}

/// Every finding of the rule carries the number 16.
pub proof fn lemma_numbered(p: ProgramModel)
    ensures
        numbered(rule_violations(p), 16),
{
}

} // verus!
