//! Rule 18: hard stops are logged. The organisation blocks for rack
//! failure, programming error and diagnostic interrupt must each exist with
//! a body.

use crate::ast::{FunctionKind, FunctionModel, Program, ProgramModel};
use crate::rules::{
    lemma_numbered_add, numbered, outcome, report, RuleResult, Violation, violation, ViolationModel,
    violations_view,
};
use crate::text::chars_of;
use vstd::prelude::*;

verus! {

/// Whether the program has a routine of the given kind whose body is not
/// empty.
pub open spec fn has_body_of(functions: Seq<FunctionModel>, kind: FunctionKind) -> bool {
    exists|i: int|
        0 <= i < functions.len() && (#[trigger] functions[i]).kind == kind
            && functions[i].statements.len() > 0
}

/// A finding of the rule; it stands at line 0.
pub open spec fn rule_violation(reason: Seq<char>, suggestion: Seq<char>) -> ViolationModel {
    ViolationModel { rule_no: 18, rule_name: "Log PLC hard stops"@, line: 0, reason, suggestion }
}

/// The finding for one kind of block, if the program has none with a body.
pub open spec fn kind_violations(
    p: ProgramModel,
    kind: FunctionKind,
    reason: Seq<char>,
    suggestion: Seq<char>,
) -> Seq<ViolationModel> {
    if has_body_of(p.functions, kind) {
        Seq::empty()
    } else {
        seq![rule_violation(reason, suggestion)]
    }
}

/// The findings of the rule for a program: one for each of the three blocks
/// that is missing or empty, each for itself, in this order.
pub open spec fn rule_violations(p: ProgramModel) -> Seq<ViolationModel> {
    kind_violations(
        p,
        FunctionKind::OB86,
        "OB86 (Rack Failure) missing or empty"@,
        "Implement OB86 to log rack failures and take safe action."@,
    ) + kind_violations(
        p,
        FunctionKind::OB121,
        "OB121 (Programming Error) missing or empty"@,
        "Implement OB121 to log and safely recover from programming errors."@,
    ) + kind_violations(
        p,
        FunctionKind::OB82,
        "OB82 (Diagnostic Interrupt) missing or empty"@,
        "Implement OB82 to capture diagnostic interrupts."@,
    )
}

fn non_empty(program: &Program, kind: FunctionKind) -> (r: bool)
    ensures
        r == has_body_of(program@.functions, kind),
{
    let mut i: usize = 0;
    while i < program.functions.len()
        invariant
            i <= program.functions.len(),
            forall|j: int|
                0 <= j < i ==> !((#[trigger] program@.functions[j]).kind == kind
                    && program@.functions[j].statements.len() > 0),
        decreases program.functions.len() - i,
    {
        let f = &program.functions[i];
        assert(program@.functions[i as int] == f@);
        if f.kind == kind && f.statements.len() > 0 {
            return true;
        }
        i += 1;
    }
    false
}

fn check_kind(
    program: &Program,
    kind: FunctionKind,
    reason: &str,
    suggestion: &str,
    out: &mut Vec<Violation>,
)
    ensures
        violations_view(final(out)@) == violations_view(old(out)@) + kind_violations(
            program@,
            kind,
            reason@,
            suggestion@,
        ),
{
    if !non_empty(program, kind) {
        report(out, violation(18, "Log PLC hard stops", 0, &chars_of(reason), suggestion));
    }
    assert(violations_view(out@) =~= violations_view(old(out)@) + kind_violations(
        program@,
        kind,
        reason@,
        suggestion@,
    ));
}

/// Checks that the three blocks exist with a body.
pub fn check(program: &Program) -> (r: RuleResult)
    ensures
        r@ == outcome(rule_violations(program@)),
{
    let mut out: Vec<Violation> = Vec::new();
    assert(violations_view(out@) =~= Seq::empty());
    check_kind(
        program,
        FunctionKind::OB86,
        "OB86 (Rack Failure) missing or empty",
        "Implement OB86 to log rack failures and take safe action.",
        &mut out,
    );
    check_kind(
        program,
        FunctionKind::OB121,
        "OB121 (Programming Error) missing or empty",
        "Implement OB121 to log and safely recover from programming errors.",
        &mut out,
    );
    check_kind(
        program,
        FunctionKind::OB82,
        "OB82 (Diagnostic Interrupt) missing or empty",
        "Implement OB82 to capture diagnostic interrupts.",
        &mut out,
    );
    assert(violations_view(out@) =~= rule_violations(program@));
    RuleResult::violations(out)
}

/// Every finding of the rule carries the number 18.
pub proof fn lemma_numbered(p: ProgramModel)
    ensures
        numbered(rule_violations(p), 18),
{
    let a = kind_violations(
        p,
        FunctionKind::OB86,
        "OB86 (Rack Failure) missing or empty"@,
        "Implement OB86 to log rack failures and take safe action."@,
    );
    let b = kind_violations(
        p,
        FunctionKind::OB121,
        "OB121 (Programming Error) missing or empty"@,
        "Implement OB121 to log and safely recover from programming errors."@,
    );
    let c = kind_violations(
        p,
        FunctionKind::OB82,
        "OB82 (Diagnostic Interrupt) missing or empty"@,
        "Implement OB82 to capture diagnostic interrupts."@,
    );
    lemma_numbered_add(a, b, 18);
    lemma_numbered_add(a + b, c, 18);
}

} // verus!
