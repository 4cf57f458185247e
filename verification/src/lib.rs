//! Static checks of PLC control logic against a fixed catalogue of
//! secure-coding rules.
//!
//! A source text is read by one of three frontends into a common syntax
//! tree, and every rule is a function from that tree, and for two rules a
//! policy, to its findings.

use crate::ast::Program;
use crate::parser::{parse_file_from_str, parsed_as};
use crate::rules::{all_outcomes, joined_records, records_view, run_all_for_wasm, WasmRuleResult};
use crate::rules::policy::Policy;
use vstd::prelude::*;

pub mod ast;
pub mod parser;
pub mod rules;
pub mod text;

verus! {

/// Whether `r` is what checking a source gives: the error of the frontend,
/// or the structured report for a program that the frontend gives.
pub open spec fn checked_as(
    r: Result<Vec<WasmRuleResult>, String>,
    source: &str,
    policy: Policy,
    file_name: Seq<char>,
) -> bool {
    match r {
        Ok(records) => exists|program: Program|
            parsed_as(Ok(program), source, file_name) && records_view(records@) == joined_records(
                all_outcomes(#[trigger] program@, policy@),
            ),
        Err(e) => parsed_as(Err(e), source, file_name),
    }
}

/// Reads a source with the frontend that its file name selects, and runs
/// all rules on the program.
pub fn check_plc_code(
    source_code: &str,
    policy: &Policy,
    file_name: &str,
) -> (r: Result<Vec<WasmRuleResult>, String>)
    ensures
        checked_as(r, source_code, *policy, file_name@),
{
    match parse_file_from_str(source_code, file_name) {
        Ok(program) => Ok(run_all_for_wasm(&program, policy)),
        Err(e) => Err(e),
    }
}

} // verus!
