//! Rule 15: a safe restart state is defined. The startup organisation
//! block must exist, must not be empty, and must set a critical output to a
//! safe value.

use crate::ast::{
    flatten, flattened, FunctionKind, Program, ProgramModel, Statement, StmtModel, stmts_view,
};
use crate::rules::{
    numbered, outcome, report, RuleResult, Violation, violation, ViolationModel, violations_view,
};
use crate::rules::render::{falsy, is_false_expr};
use crate::rules::search::{find_kind, first_of_kind};
use crate::rules::words::mentions;
use crate::text::{chars_of, contains_str, ends_with_str, has_suffix, upper, upper_of};
use vstd::prelude::*;

verus! {

/// Whether a name is that of a critical output: it holds `CRITICAL` or
/// `SAFE`, or ends with `_OUT`, in any case.
pub open spec fn is_critical(target: Seq<char>) -> bool {
    mentions(target, "CRITICAL"@) || mentions(target, "SAFE"@) || has_suffix(
        upper(target),
        "_OUT"@,
    )
}

/// Whether a statement sets a critical output to a safe value.
pub open spec fn is_safe_init(st: StmtModel) -> bool {
    match st {
        StmtModel::Assign { target, value, .. } => is_critical(target) && falsy(value),
        _ => false,
    }
}

/// Whether one of the statements, taken as they stand, sets a critical
/// output to a safe value.
pub open spec fn has_safe_init(stmts: Seq<StmtModel>) -> bool {
    exists|i: int| 0 <= i < stmts.len() && is_safe_init(#[trigger] stmts[i])
}

/// A finding of the rule.
pub open spec fn rule_violation(
    line: usize,
    reason: Seq<char>,
    suggestion: Seq<char>,
) -> ViolationModel {
    ViolationModel {
        rule_no: 15,
        rule_name: "Define a safe restart state"@,
        line,
        reason,
        suggestion,
    }
}

/// The one finding of the rule, if there is one: at line 0 where the
/// program has no startup block; else at the line of its first startup
/// block, where that is empty or sets no critical output to a safe value
/// at any depth.
pub open spec fn rule_violations(p: ProgramModel) -> Seq<ViolationModel> {
    match first_of_kind(p.functions, FunctionKind::OB100) {
        Some(f) => if f.statements.len() == 0 {
            seq![
                rule_violation(
                    f.line,
                    "OB100 exists but is empty"@,
                    "Initialize critical outputs to FALSE in OB100."@,
                ),
            ]
        } else if !has_safe_init(flattened(f.statements)) {
            seq![
                rule_violation(
                    f.line,
                    "OB100 does not initialize critical outputs to a safe value"@,
                    "Set critical outputs to FALSE/0 in OB100."@,
                ),
            ]
        } else {
            Seq::empty()
        },
        None => seq![
            rule_violation(
                0,
                "OB100 (Startup OB) not found"@,
                "Add OB100 and initialize outputs to safe state."@,
            ),
        ],
    }
}

fn names_critical(target: &str) -> (r: bool)
    ensures
        r == is_critical(target@),
{
    let up = upper_of(target);
    contains_str(&up, "CRITICAL") || contains_str(&up, "SAFE") || ends_with_str(&up, "_OUT")
}

fn sets_safe_state(stmts: &Vec<Statement>) -> (r: bool)
    ensures
        r == has_safe_init(stmts_view(stmts@)),
{
    let mut i: usize = 0;
    while i < stmts.len()
        invariant
            i <= stmts.len(),
            forall|j: int| 0 <= j < i ==> !is_safe_init(#[trigger] stmts_view(stmts@)[j]),
        decreases stmts.len() - i,
    {
        let found = match &stmts[i] {
            Statement::Assign { target, value, .. } => names_critical(target.name.as_str())
                && is_false_expr(value),
            _ => false,
        };
        assert(found == is_safe_init(stmts_view(stmts@)[i as int]));
        if found {
            return true;
        }
        i += 1;
    }
    false
}

/// Checks the first startup organisation block of the program.
pub fn check(program: &Program) -> (r: RuleResult)
    ensures
        r@ == outcome(rule_violations(program@)),
{
    let mut out: Vec<Violation> = Vec::new();
    assert(violations_view(out@) =~= Seq::empty());
    match find_kind(program, FunctionKind::OB100) {
        Some(i) => {
            let f = &program.functions[i];
            if f.statements.len() == 0 {
                report(
                    &mut out,
                    violation(
                        15,
                        "Define a safe restart state",
                        f.line,
                        &chars_of("OB100 exists but is empty"),
                        "Initialize critical outputs to FALSE in OB100.",
                    ),
                );
            } else if !sets_safe_state(&flatten(&f.statements)) {
                report(
                    &mut out,
                    violation(
                        15,
                        "Define a safe restart state",
                        f.line,
                        &chars_of("OB100 does not initialize critical outputs to a safe value"),
                        "Set critical outputs to FALSE/0 in OB100.",
                    ),
                );
            }
        },
        None => {
            report(
                &mut out,
                violation(
                    15,
                    "Define a safe restart state",
                    0,
                    &chars_of("OB100 (Startup OB) not found"),
                    "Add OB100 and initialize outputs to safe state.",
                ),
            );
        },
    }
    assert(violations_view(out@) =~= rule_violations(program@));
    RuleResult::violations(out)
}

/// Every finding of the rule carries the number 15.
pub proof fn lemma_numbered(p: ProgramModel)
    ensures
        numbered(rule_violations(p), 15),
{
}

} // verus!
