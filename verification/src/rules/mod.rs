//! The rules, the types of their outcomes, and the two reports that all of
//! them together give: the structured one and the one in lines.
//!
//! Every rule is a function from a program, and for two rules a policy, to
//! its findings; none changes what it reads, and none fails.

use crate::ast::{FunctionModel, Program, ProgramModel};
use crate::rules::policy::{Policy, PolicyModel};
use crate::text::{chars_of, decimal_text, push_str, push_usize, string_of};
use vstd::prelude::*;

pub mod alarm;
pub mod policy;
pub mod render;
pub mod reporting;
pub mod rule1;
pub mod rule10;
pub mod rule11_12;
pub mod rule15;
pub mod rule16;
pub mod rule17;
pub mod rule18;
pub mod rule19;
pub mod rule2;
pub mod rule20;
pub mod rule5;
pub mod rule4;
pub mod rule6;
pub mod rule7;
pub mod rule8;
pub mod rule9;
pub mod search;
pub mod words;

verus! {

/// One finding of a rule.
#[derive(Debug, Clone, PartialEq, Eq)]
pub struct Violation {
    pub rule_no: u8,
    pub rule_name: &'static str,
    pub line: usize,
    pub reason: String,
    pub suggestion: String,
}

/// The outcome of one rule: followed, or the findings.
#[derive(Debug, Clone, PartialEq, Eq)]
pub struct RuleResult {
    pub ok: bool,
    pub violations: Vec<Violation>,
}

/// The model of a finding.
pub struct ViolationModel {
    pub rule_no: u8,
    pub rule_name: Seq<char>,
    pub line: usize,
    pub reason: Seq<char>,
    pub suggestion: Seq<char>,
}

/// The model of an outcome.
pub struct RuleResultModel {
    pub ok: bool,
    pub violations: Seq<ViolationModel>,
}

impl View for Violation {
    type V = ViolationModel;

    open spec fn view(&self) -> ViolationModel {
        ViolationModel {
            rule_no: self.rule_no,
            rule_name: self.rule_name@,
            line: self.line,
            reason: self.reason@,
            suggestion: self.suggestion@,
        }
    }
}

/// The models of a sequence of findings, one for one.
pub open spec fn violations_view(v: Seq<Violation>) -> Seq<ViolationModel> {
    Seq::new(v.len(), |i: int| v[i]@)
}

impl View for RuleResult {
    type V = RuleResultModel;

    open spec fn view(&self) -> RuleResultModel {
        RuleResultModel { ok: self.ok, violations: violations_view(self.violations@) }
    }
}

/// The outcome that a sequence of findings makes: followed exactly where
/// there is none.
pub open spec fn outcome(v: Seq<ViolationModel>) -> RuleResultModel {
    RuleResultModel { ok: v.len() == 0, violations: v }
}

impl RuleResult {
    /// The outcome of a rule that is followed.
    pub fn ok(_rule_no: u8, _name: &'static str) -> (r: Self)
        ensures
            r@ == outcome(Seq::empty()),
    {
        let r = RuleResult { ok: true, violations: Vec::new() };
        assert(violations_view(r.violations@) =~= Seq::empty());
        r
    }

    /// The outcome that the given findings make.
    pub fn violations(v: Vec<Violation>) -> (r: Self)
        ensures
            r@ == outcome(violations_view(v@)),
            r.violations == v,
    {
        RuleResult { ok: v.len() == 0, violations: v }
    }
}

/// Pushing a finding pushes its model.
pub proof fn lemma_violations_view_push(v: Seq<Violation>, x: Violation)
    ensures
        violations_view(v.push(x)) == violations_view(v).push(x@),
{
    assert(violations_view(v.push(x)) =~= violations_view(v).push(x@));
}

/// A finding with the given parts.
pub fn violation(
    rule_no: u8,
    rule_name: &'static str,
    line: usize,
    reason: &Vec<char>,
    suggestion: &str,
) -> (v: Violation)
    ensures
        v@ == (ViolationModel {
            rule_no,
            rule_name: rule_name@,
            line,
            reason: reason@,
            suggestion: suggestion@,
        }),
{
    Violation {
        rule_no,
        rule_name,
        line,
        reason: string_of(reason),
        suggestion: suggestion.to_owned(),
    }
}

/// Appends a finding to `out`.
pub fn report(out: &mut Vec<Violation>, v: Violation)
    ensures
        violations_view(final(out)@) == violations_view(old(out)@).push(v@),
{
    proof {
        lemma_violations_view_push(out@, v);
    }
    out.push(v);
}

/// The findings of all routines of a program, in order, `per` giving those
/// of one routine.
pub open spec fn over_functions(
    functions: Seq<FunctionModel>,
    per: spec_fn(FunctionModel) -> Seq<ViolationModel>,
) -> Seq<ViolationModel>
    decreases functions.len(),
{
    if functions.len() == 0 {
        Seq::empty()
    } else {
        over_functions(functions.drop_last(), per) + per(functions.last())
    }
}

/// The findings of the first `n + 1` routines are those of the first `n`
/// and those of the next.
pub proof fn lemma_over_functions_step(
    functions: Seq<FunctionModel>,
    per: spec_fn(FunctionModel) -> Seq<ViolationModel>,
    n: int,
)
    requires
        0 <= n < functions.len(),
    ensures
        over_functions(functions.take(n + 1), per) == over_functions(functions.take(n), per) + per(
            functions[n],
        ),
{
    assert(functions.take(n + 1).drop_last() =~= functions.take(n));
}

/// One record of the structured report: the status, the rule, and the
/// finding where the rule is not followed.
#[derive(Debug, Clone, PartialEq, Eq)]
pub struct WasmRuleResult {
    pub status: String,
    pub rule_no: u8,
    pub rule_name: &'static str,
    pub violation: Option<Violation>,
}

/// The model of a record.
pub struct RecordModel {
    pub status: Seq<char>,
    pub rule_no: u8,
    pub rule_name: Seq<char>,
    pub violation: Option<ViolationModel>,
}

impl View for WasmRuleResult {
    type V = RecordModel;

    open spec fn view(&self) -> RecordModel {
        RecordModel {
            status: self.status@,
            rule_no: self.rule_no,
            rule_name: self.rule_name@,
            violation: match self.violation {
                Some(v) => Some(v@),
                None => None,
            },
        }
    }
}

/// The models of a sequence of records, one for one.
pub open spec fn records_view(r: Seq<WasmRuleResult>) -> Seq<RecordModel> {
    Seq::new(r.len(), |i: int| r[i]@)
}

/// The record of a rule that is followed.
pub open spec fn ok_record(rule_no: u8, rule_name: Seq<char>) -> RecordModel {
    RecordModel { status: "OK"@, rule_no, rule_name, violation: None }
}

/// The record of one finding.
pub open spec fn failed_record(v: ViolationModel) -> RecordModel {
    RecordModel {
        status: "NOT FOLLOWED"@,
        rule_no: v.rule_no,
        rule_name: v.rule_name,
        violation: Some(v),
    }
}

/// The records of one outcome: one for a rule that is followed, else one
/// for each finding.
pub open spec fn outcome_records(
    rule_no: u8,
    rule_name: Seq<char>,
    result: RuleResultModel,
) -> Seq<RecordModel> {
    if result.ok {
        seq![ok_record(rule_no, rule_name)]
    } else {
        Seq::new(result.violations.len(), |i: int| failed_record(result.violations[i]))
    }
}

/// The line of a rule that is followed.
pub open spec fn ok_line(rule_no: u8, rule_name: Seq<char>) -> Seq<char> {
    "Rule "@ + decimal_text(rule_no as int) + ": "@ + rule_name + " -- OK"@
}

/// The line of one finding.
pub open spec fn failed_line(v: ViolationModel) -> Seq<char> {
    "Rule "@ + decimal_text(v.rule_no as int) + ": "@ + v.rule_name + " -- NOT FOLLOWED--Line "@
        + decimal_text(v.line as int) + ": "@ + v.reason + " "@ + v.suggestion
}

/// The lines of one outcome: one for a rule that is followed, else one for
/// each finding.
pub open spec fn outcome_lines(
    rule_no: u8,
    rule_name: Seq<char>,
    result: RuleResultModel,
) -> Seq<Seq<char>> {
    if result.ok {
        seq![ok_line(rule_no, rule_name)]
    } else {
        Seq::new(result.violations.len(), |i: int| failed_line(result.violations[i]))
    }
}

/// The outcomes of all rules for a program under a policy, each with the
/// number and the name under which it is reported, in the order of the
/// report. The plausibility rule is reported twice, as rule 11 and as rule
/// 12.
pub open spec fn all_outcomes(
    p: ProgramModel,
    policy: PolicyModel,
) -> Seq<(u8, Seq<char>, RuleResultModel)> {
    seq![
        (1, "Modularize PLC Code"@, outcome(rule1::rule_violations(p))),
        (2, "Track operating modes"@, outcome(rule2::rule_violations(p))),
        (4, "Use PLC flags as integrity checks"@, outcome(rule4::rule_violations(p))),
        (5, "Use checksum integrity checks"@, outcome(rule5::rule_violations(p))),
        (6, "Validate timers and counters"@, outcome(rule6::rule_violations(p))),
        (7, "Validate paired inputs/outputs"@, outcome(rule7::rule_violations(p, policy))),
        (8, "Validate HMI input variables"@, outcome(rule8::rule_violations(p))),
        (9, "Validate indirections"@, outcome(rule9::rule_violations(p))),
        (10, "Assign designated register blocks"@, outcome(rule10::rule_violations(p, policy))),
        (11, "Plausibility Checks"@, outcome(rule11_12::rule_violations(p))),
        (12, "Plausibility Checks"@, outcome(rule11_12::rule_violations(p))),
        (15, "Define a safe restart state"@, outcome(rule15::rule_violations(p))),
        (16, "Summarize PLC cycle times"@, outcome(rule16::rule_violations(p))),
        (17, "Log PLC uptime"@, outcome(rule17::rule_violations(p))),
        (18, "Log PLC hard stops"@, outcome(rule18::rule_violations(p))),
        (19, "Monitor PLC memory usage"@, outcome(rule19::rule_violations(p))),
        (20, "Trap false alerts"@, outcome(rule20::rule_violations(p))),
    ]
}

/// The records of the outcomes, joined in order.
pub open spec fn joined_records(outcomes: Seq<(u8, Seq<char>, RuleResultModel)>) -> Seq<RecordModel>
    decreases outcomes.len(),
{
    if outcomes.len() == 0 {
        Seq::empty()
    } else {
        joined_records(outcomes.drop_last()) + outcome_records(
            outcomes.last().0,
            outcomes.last().1,
            outcomes.last().2,
        )
    }
}

/// The lines of the outcomes, joined in order.
pub open spec fn joined_lines(outcomes: Seq<(u8, Seq<char>, RuleResultModel)>) -> Seq<Seq<char>>
    decreases outcomes.len(),
{
    if outcomes.len() == 0 {
        Seq::empty()
    } else {
        joined_lines(outcomes.drop_last()) + outcome_lines(
            outcomes.last().0,
            outcomes.last().1,
            outcomes.last().2,
        )
    }
}

/// The texts that a vector of strings holds.
pub open spec fn strings_view(v: Seq<String>) -> Seq<Seq<char>> {
    Seq::new(v.len(), |i: int| v[i]@)
}

/// A copy of a finding.
pub fn copy_violation(v: &Violation) -> (r: Violation)
    ensures
        r@ == v@,
{
    Violation {
        rule_no: v.rule_no,
        rule_name: v.rule_name,
        line: v.line,
        reason: v.reason.clone(),
        suggestion: v.suggestion.clone(),
    }
}

fn collect(rule_no: u8, rule_name: &'static str, result: &RuleResult, out: &mut Vec<WasmRuleResult>)
    ensures
        records_view(final(out)@) == records_view(old(out)@) + outcome_records(
            rule_no,
            rule_name@,
            result@,
        ),
{
    if result.ok {
        let record = WasmRuleResult {
            status: "OK".to_owned(),
            rule_no,
            rule_name,
            violation: None,
        };
        out.push(record);
        assert(records_view(out@) =~= records_view(old(out)@) + outcome_records(
            rule_no,
            rule_name@,
            result@,
        ));
    } else {
        let ghost all = outcome_records(rule_no, rule_name@, result@);
        let mut i: usize = 0;
        assert(records_view(out@) =~= records_view(old(out)@) + all.take(0));
        while i < result.violations.len()
            invariant
                i <= result.violations.len(),
                !result.ok,
                all == outcome_records(rule_no, rule_name@, result@),
                records_view(out@) == records_view(old(out)@) + all.take(i as int),
            decreases result.violations.len() - i,
        {
            let v = copy_violation(&result.violations[i]);
            let record = WasmRuleResult {
                status: "NOT FOLLOWED".to_owned(),
                rule_no: v.rule_no,
                rule_name: v.rule_name,
                violation: Some(v),
            };
            let ghost before = out@;
            assert(record@ == all[i as int]);
            out.push(record);
            assert(records_view(out@) =~= records_view(before).push(record@));
            i += 1;
            assert(records_view(out@) =~= records_view(old(out)@) + all.take(i as int));
        }
        assert(all.take(result.violations.len() as int) =~= all);
    }
}

fn print_result(rule_no: u8, rule_name: &'static str, result: &RuleResult, out: &mut Vec<String>)
    ensures
        strings_view(final(out)@) == strings_view(old(out)@) + outcome_lines(
            rule_no,
            rule_name@,
            result@,
        ),
{
    if result.ok {
        let mut line = chars_of("Rule ");
        push_usize(&mut line, rule_no as usize);
        push_str(&mut line, ": ");
        push_str(&mut line, rule_name);
        push_str(&mut line, " -- OK");
        out.push(string_of(&line));
        assert(strings_view(out@) =~= strings_view(old(out)@) + outcome_lines(
            rule_no,
            rule_name@,
            result@,
        ));
    } else {
        let ghost all = outcome_lines(rule_no, rule_name@, result@);
        let mut i: usize = 0;
        assert(strings_view(out@) =~= strings_view(old(out)@) + all.take(0));
        while i < result.violations.len()
            invariant
                i <= result.violations.len(),
                !result.ok,
                all == outcome_lines(rule_no, rule_name@, result@),
                strings_view(out@) == strings_view(old(out)@) + all.take(i as int),
            decreases result.violations.len() - i,
        {
            let v = &result.violations[i];
            let mut line = chars_of("Rule ");
            push_usize(&mut line, v.rule_no as usize);
            push_str(&mut line, ": ");
            push_str(&mut line, v.rule_name);
            push_str(&mut line, " -- NOT FOLLOWED--Line ");
            push_usize(&mut line, v.line);
            push_str(&mut line, ": ");
            push_str(&mut line, v.reason.as_str());
            push_str(&mut line, " ");
            push_str(&mut line, v.suggestion.as_str());
            let ghost before = out@;
            let text = string_of(&line);
            assert(text@ == all[i as int]);
            out.push(text);
            assert(strings_view(out@) =~= strings_view(before).push(text@));
            i += 1;
            assert(strings_view(out@) =~= strings_view(old(out)@) + all.take(i as int));
        }
        assert(all.take(result.violations.len() as int) =~= all);
    }
}

/// The records of one more outcome join those before.
pub proof fn lemma_joined_records_push(
    outcomes: Seq<(u8, Seq<char>, RuleResultModel)>,
    x: (u8, Seq<char>, RuleResultModel),
)
    ensures
        joined_records(outcomes.push(x)) == joined_records(outcomes) + outcome_records(
            x.0,
            x.1,
            x.2,
        ),
{
    assert(outcomes.push(x).drop_last() =~= outcomes);
}

/// The lines of one more outcome join those before.
pub proof fn lemma_joined_lines_push(
    outcomes: Seq<(u8, Seq<char>, RuleResultModel)>,
    x: (u8, Seq<char>, RuleResultModel),
)
    ensures
        joined_lines(outcomes.push(x)) == joined_lines(outcomes) + outcome_lines(x.0, x.1, x.2),
{
    assert(outcomes.push(x).drop_last() =~= outcomes);
}

/// The outcome of one rule, with the number and the name under which it
/// is reported.
#[derive(Debug, Clone, PartialEq, Eq)]
pub struct RuleOutcome {
    pub rule_no: u8,
    pub rule_name: &'static str,
    pub result: RuleResult,
}

/// The models of a sequence of outcomes, one for one.
pub open spec fn outcomes_view(o: Seq<RuleOutcome>) -> Seq<(u8, Seq<char>, RuleResultModel)> {
    Seq::new(o.len(), |i: int| (o[i].rule_no, o[i].rule_name@, o[i].result@))
}

fn add_outcome(out: &mut Vec<RuleOutcome>, rule_no: u8, rule_name: &'static str, result: RuleResult)
    ensures
        outcomes_view(final(out)@) == outcomes_view(old(out)@).push(
            (rule_no, rule_name@, result@),
        ),
{
    out.push(RuleOutcome { rule_no, rule_name, result });
    assert(outcomes_view(out@) =~= outcomes_view(old(out)@).push((rule_no, rule_name@, result@)));
}

/// Runs all rules, in the order of the report.
pub fn run_rules(program: &Program, policy: &Policy) -> (r: Vec<RuleOutcome>)
    ensures
        outcomes_view(r@) == all_outcomes(program@, policy@),
{
    let mut out: Vec<RuleOutcome> = Vec::new();
    assert(outcomes_view(out@) =~= Seq::empty());
    add_outcome(&mut out, 1, "Modularize PLC Code", rule1::check(program));
    add_outcome(&mut out, 2, "Track operating modes", rule2::check(program));
    add_outcome(&mut out, 4, "Use PLC flags as integrity checks", rule4::check(program));
    add_outcome(&mut out, 5, "Use checksum integrity checks", rule5::check(program));
    add_outcome(&mut out, 6, "Validate timers and counters", rule6::check(program));
    add_outcome(&mut out, 7, "Validate paired inputs/outputs", rule7::check(program, policy));
    add_outcome(&mut out, 8, "Validate HMI input variables", rule8::check(program));
    add_outcome(&mut out, 9, "Validate indirections", rule9::check(program));
    add_outcome(&mut out, 10, "Assign designated register blocks", rule10::check(program, policy));
    add_outcome(&mut out, 11, "Plausibility Checks", rule11_12::check(program));
    add_outcome(&mut out, 12, "Plausibility Checks", rule11_12::check(program));
    add_outcome(&mut out, 15, "Define a safe restart state", rule15::check(program));
    add_outcome(&mut out, 16, "Summarize PLC cycle times", rule16::check(program));
    add_outcome(&mut out, 17, "Log PLC uptime", rule17::check(program));
    add_outcome(&mut out, 18, "Log PLC hard stops", rule18::check(program));
    add_outcome(&mut out, 19, "Monitor PLC memory usage", rule19::check(program));
    add_outcome(&mut out, 20, "Trap false alerts", rule20::check(program));
    assert(outcomes_view(out@) =~= all_outcomes(program@, policy@));
    out
}

/// Runs all rules and gives the structured report: the records of their
/// outcomes, in order.
pub fn run_all_for_wasm(program: &Program, policy: &Policy) -> (r: Vec<WasmRuleResult>)
    ensures
        records_view(r@) == joined_records(all_outcomes(program@, policy@)),
{
    let outcomes = run_rules(program, policy);
    let ghost all = outcomes_view(outcomes@);
    let mut out: Vec<WasmRuleResult> = Vec::new();
    assert(records_view(out@) =~= joined_records(all.take(0)));
    let mut i: usize = 0;
    while i < outcomes.len()
        invariant
            i <= outcomes.len(),
            all == outcomes_view(outcomes@),
            records_view(out@) == joined_records(all.take(i as int)),
        decreases outcomes.len() - i,
    {
        proof {
            lemma_joined_records_push(all.take(i as int), all[i as int]);
            assert(all.take(i as int).push(all[i as int]) =~= all.take(i as int + 1));
        }
        let o = &outcomes[i];
        collect(o.rule_no, o.rule_name, &o.result, &mut out);
        i += 1;
    }
    assert(all.take(outcomes.len() as int) =~= all);
    out
}

/// Runs all rules and gives the line report: the lines of their outcomes,
/// in order.
pub fn report_lines(program: &Program, policy: &Policy) -> (r: Vec<String>)
    ensures
        strings_view(r@) == joined_lines(all_outcomes(program@, policy@)),
{
    let outcomes = run_rules(program, policy);
    let ghost all = outcomes_view(outcomes@);
    let mut out: Vec<String> = Vec::new();
    assert(strings_view(out@) =~= joined_lines(all.take(0)));
    let mut i: usize = 0;
    while i < outcomes.len()
        invariant
            i <= outcomes.len(),
            all == outcomes_view(outcomes@),
            strings_view(out@) == joined_lines(all.take(i as int)),
        decreases outcomes.len() - i,
    {
        proof {
            lemma_joined_lines_push(all.take(i as int), all[i as int]);
            assert(all.take(i as int).push(all[i as int]) =~= all.take(i as int + 1));
        }
        let o = &outcomes[i];
        print_result(o.rule_no, o.rule_name, &o.result, &mut out);
        i += 1;
    }
    assert(all.take(outcomes.len() as int) =~= all);
    out
}

/// Under a policy without pairs and without memory areas, the two rules
/// that read the policy have no finding, whatever the program.
pub proof fn lemma_empty_policy(p: ProgramModel, policy: PolicyModel)
    requires
        policy.pairs.len() == 0,
        policy.memory_areas.len() == 0,
    ensures
        outcome(rule7::rule_violations(p, policy)) == outcome(Seq::empty()),
        outcome(rule10::rule_violations(p, policy)) == outcome(Seq::empty()),
        outcome(rule7::rule_violations(p, policy)).ok,
        outcome(rule10::rule_violations(p, policy)).ok,
{
    rule7::lemma_no_pairs(p.functions, policy.pairs);
    rule10::lemma_no_areas(p.functions, policy.memory_areas);
}

/// A rule that is followed has one record, and a rule with findings has one
/// record for each of them; the same holds of the lines.
pub proof fn lemma_one_record_each(rule_no: u8, rule_name: Seq<char>, v: Seq<ViolationModel>)
    ensures
        v.len() == 0 ==> outcome_records(rule_no, rule_name, outcome(v)) == seq![
            ok_record(rule_no, rule_name),
        ],
        v.len() > 0 ==> outcome_records(rule_no, rule_name, outcome(v)).len() == v.len(),
        forall|i: int|
            0 <= i < v.len() ==> (#[trigger] outcome_records(
                rule_no,
                rule_name,
                outcome(v),
            )[i]).violation == Some(v[i]),
        outcome_lines(rule_no, rule_name, outcome(v)).len() == outcome_records(
            rule_no,
            rule_name,
            outcome(v),
        ).len(),
{
}

/// Whether every finding carries the given number.
pub open spec fn numbered(v: Seq<ViolationModel>, n: u8) -> bool {
    forall|i: int| 0 <= i < v.len() ==> (#[trigger] v[i]).rule_no == n
}

/// Findings that carry a number still carry it when joined.
pub proof fn lemma_numbered_add(a: Seq<ViolationModel>, b: Seq<ViolationModel>, n: u8)
    requires
        numbered(a, n),
        numbered(b, n),
    ensures
        numbered(a + b, n),
{
    assert forall|i: int| 0 <= i < (a + b).len() implies (#[trigger] (a + b)[i]).rule_no == n by {
        if i < a.len() {
            assert((a + b)[i] == a[i]);
        } else {
            assert((a + b)[i] == b[i - a.len()]);
        }
    }
}

/// Where the findings of every routine carry a number, those of the
/// program carry it.
pub proof fn lemma_over_functions_numbered(
    functions: Seq<FunctionModel>,
    per: spec_fn(FunctionModel) -> Seq<ViolationModel>,
    n: u8,
)
    requires
        forall|f: FunctionModel| numbered(#[trigger] per(f), n),
    ensures
        numbered(over_functions(functions, per), n),
    decreases functions.len(),
{
    if functions.len() > 0 {
        lemma_over_functions_numbered(functions.drop_last(), per, n);
        lemma_numbered_add(
            over_functions(functions.drop_last(), per),
            per(functions.last()),
            n,
        );
    }
}

/// The number of the records that carry the given number.
pub open spec fn count_numbered(records: Seq<RecordModel>, n: u8) -> nat
    decreases records.len(),
{
    if records.len() == 0 {
        0
    } else {
        count_numbered(records.drop_last(), n) + (if records.last().rule_no == n {
            1nat
        } else {
            0nat
        })
    }
}

/// Whether every record that carries the given number is the record of that
/// rule being followed.
pub open spec fn only_followed(records: Seq<RecordModel>, n: u8, name: Seq<char>) -> bool {
    forall|i: int|
        0 <= i < records.len() && (#[trigger] records[i]).rule_no == n ==> records[i] == ok_record(
            n,
            name,
        )
}

/// The records of one entry of the report.
pub open spec fn entry_records(entry: (u8, Seq<char>, RuleResultModel)) -> Seq<RecordModel> {
    outcome_records(entry.0, entry.1, entry.2)
}

proof fn lemma_count_add(a: Seq<RecordModel>, b: Seq<RecordModel>, n: u8)
    ensures
        count_numbered(a + b, n) == count_numbered(a, n) + count_numbered(b, n),
    decreases b.len(),
{
    if b.len() == 0 {
        assert(a + b =~= a);
    } else {
        assert((a + b).drop_last() =~= a + b.drop_last());
        assert((a + b).last() == b.last());
        lemma_count_add(a, b.drop_last(), n);
    }
}

proof fn lemma_count_none(records: Seq<RecordModel>, n: u8)
    requires
        forall|i: int| 0 <= i < records.len() ==> (#[trigger] records[i]).rule_no != n,
    ensures
        count_numbered(records, n) == 0,
    decreases records.len(),
{
    if records.len() > 0 {
        let rest = records.drop_last();
        assert forall|i: int| 0 <= i < rest.len() implies (#[trigger] rest[i]).rule_no != n by {
            assert(rest[i] == records[i]);
        }
        lemma_count_none(rest, n);
        assert(records.last() == records[records.len() - 1]);
    }
}

/// The records of one entry, as far as a number goes that the findings of
/// the entry do not carry: one record of the rule being followed where the
/// entry is reported under that number and has no finding, else none.
proof fn lemma_entry(rule_no: u8, rule_name: Seq<char>, v: Seq<ViolationModel>, m: u8, n: u8)
    requires
        numbered(v, m),
        m != n || v.len() == 0,
    ensures
        only_followed(outcome_records(rule_no, rule_name, outcome(v)), n, rule_name),
        count_numbered(outcome_records(rule_no, rule_name, outcome(v)), n) == (if rule_no == n
            && v.len() == 0 {
            1nat
        } else {
            0nat
        }),
{
    let records = outcome_records(rule_no, rule_name, outcome(v));
    if v.len() == 0 {
        assert(records == seq![ok_record(rule_no, rule_name)]);
        assert(records.drop_last().len() == 0);
        assert(records.last() == ok_record(rule_no, rule_name));
        assert(count_numbered(records.drop_last(), n) == 0);
    } else {
        assert forall|i: int| 0 <= i < records.len() implies (#[trigger] records[i]).rule_no
            != n by {
            assert(records[i] == failed_record(v[i]));
        }
        lemma_count_none(records, n);
    }
}

/// The count of a report is the sum of the counts of its entries: where one
/// entry has one record of a number and every other has none, the report
/// has one; and what holds of every record of each entry holds of every
/// record of the report.
proof fn lemma_joined_one(
    outcomes: Seq<(u8, Seq<char>, RuleResultModel)>,
    n: u8,
    name: Seq<char>,
    j: int,
)
    requires
        forall|i: int|
            0 <= i < outcomes.len() ==> only_followed(
                #[trigger] entry_records(outcomes[i]),
                n,
                name,
            ),
        forall|i: int|
            0 <= i < outcomes.len() ==> count_numbered(#[trigger] entry_records(outcomes[i]), n)
                == (if i == j {
                1nat
            } else {
                0nat
            }),
    ensures
        only_followed(joined_records(outcomes), n, name),
        count_numbered(joined_records(outcomes), n) == (if 0 <= j < outcomes.len() {
            1nat
        } else {
            0nat
        }),
    decreases outcomes.len(),
{
    if outcomes.len() > 0 {
        let rest = outcomes.drop_last();
        assert forall|i: int| 0 <= i < rest.len() implies only_followed(
            #[trigger] entry_records(rest[i]),
            n,
            name,
        ) by {
            assert(rest[i] == outcomes[i]);
        }
        assert forall|i: int| 0 <= i < rest.len() implies count_numbered(
            #[trigger] entry_records(rest[i]),
            n,
        ) == (if i == j {
            1nat
        } else {
            0nat
        }) by {
            assert(rest[i] == outcomes[i]);
        }
        lemma_joined_one(rest, n, name, j);
        let a = joined_records(rest);
        let b = entry_records(outcomes.last());
        assert(outcomes.last() == outcomes[outcomes.len() - 1]);
        assert(joined_records(outcomes) == a + b);
        lemma_count_add(a, b, n);
        assert forall|i: int| 0 <= i < (a + b).len() && (#[trigger] (a + b)[i]).rule_no
            == n implies (a + b)[i] == ok_record(n, name) by {
            if i < a.len() {
                assert((a + b)[i] == a[i]);
            } else {
                assert((a + b)[i] == b[i - a.len()]);
            }
        }
    }
}

/// The entries of the report under a policy without pairs and without
/// memory areas, as far as the number of one of the two policy rules goes.
proof fn lemma_entries_without_policy(p: ProgramModel, policy: PolicyModel, n: u8, name: Seq<char>)
    requires
        policy.pairs.len() == 0,
        policy.memory_areas.len() == 0,
        (n == 7 && name == "Validate paired inputs/outputs"@) || (n == 10 && name
            == "Assign designated register blocks"@),
    ensures
        forall|i: int|
            0 <= i < all_outcomes(p, policy).len() ==> only_followed(
                #[trigger] entry_records(all_outcomes(p, policy)[i]),
                n,
                name,
            ),
        forall|i: int|
            0 <= i < all_outcomes(p, policy).len() ==> count_numbered(
                #[trigger] entry_records(all_outcomes(p, policy)[i]),
                n,
            ) == (if (n == 7 && i == 5) || (n == 10 && i == 8) {
                1nat
            } else {
                0nat
            }),
{
    let o = all_outcomes(p, policy);
    assert forall|i: int| 0 <= i < o.len() implies only_followed(
        #[trigger] entry_records(o[i]),
        n,
        name,
    ) && count_numbered(entry_records(o[i]), n) == (if (n == 7 && i == 5) || (n == 10 && i == 8) {
        1nat
    } else {
        0nat
    }) by {
        rule7::lemma_no_pairs(p.functions, policy.pairs);
        rule10::lemma_no_areas(p.functions, policy.memory_areas);
        let here = entry_records(o[i]);
        if i == 0 {
                rule1::lemma_numbered(p);
                lemma_entry(o[i].0, o[i].1, rule1::rule_violations(p), 1, n);
            } else if i == 1 {
                alarm::lemma_numbered(p, rule2::pattern());
                lemma_entry(o[i].0, o[i].1, rule2::rule_violations(p), 2, n);
            } else if i == 2 {
                rule4::lemma_numbered(p);
                lemma_entry(o[i].0, o[i].1, rule4::rule_violations(p), 4, n);
            } else if i == 3 {
                alarm::lemma_numbered(p, rule5::pattern());
                lemma_entry(o[i].0, o[i].1, rule5::rule_violations(p), 5, n);
            } else if i == 4 {
                rule6::lemma_numbered(p);
                lemma_entry(o[i].0, o[i].1, rule6::rule_violations(p), 6, n);
            } else if i == 5 {
                rule7::lemma_no_pairs(p.functions, policy.pairs);
                lemma_entry(o[i].0, o[i].1, rule7::rule_violations(p, policy), 7, n);
            } else if i == 6 {
                rule8::lemma_numbered(p);
                lemma_entry(o[i].0, o[i].1, rule8::rule_violations(p), 8, n);
            } else if i == 7 {
                rule9::lemma_numbered(p);
                lemma_entry(o[i].0, o[i].1, rule9::rule_violations(p), 9, n);
            } else if i == 8 {
                rule10::lemma_no_areas(p.functions, policy.memory_areas);
                lemma_entry(o[i].0, o[i].1, rule10::rule_violations(p, policy), 10, n);
            } else if i == 9 {
                rule11_12::lemma_numbered(p);
                lemma_entry(o[i].0, o[i].1, rule11_12::rule_violations(p), 11, n);
            } else if i == 10 {
                rule11_12::lemma_numbered(p);
                lemma_entry(o[i].0, o[i].1, rule11_12::rule_violations(p), 11, n);
            } else if i == 11 {
                rule15::lemma_numbered(p);
                lemma_entry(o[i].0, o[i].1, rule15::rule_violations(p), 15, n);
            } else if i == 12 {
                rule16::lemma_numbered(p);
                lemma_entry(o[i].0, o[i].1, rule16::rule_violations(p), 16, n);
            } else if i == 13 {
                reporting::lemma_numbered(p, rule17::pattern());
                lemma_entry(o[i].0, o[i].1, rule17::rule_violations(p), 17, n);
            } else if i == 14 {
                rule18::lemma_numbered(p);
                lemma_entry(o[i].0, o[i].1, rule18::rule_violations(p), 18, n);
            } else if i == 15 {
                reporting::lemma_numbered(p, rule19::pattern());
                lemma_entry(o[i].0, o[i].1, rule19::rule_violations(p), 19, n);
            } else if i == 16 {
                rule20::lemma_numbered(p);
                lemma_entry(o[i].0, o[i].1, rule20::rule_violations(p), 20, n);
            }
        assert forall|k: int| 0 <= k < here.len() && (#[trigger] here[k]).rule_no
            == n implies here[k] == ok_record(n, name) by {
            assert(here[k] == ok_record(n, o[i].1));
            assert(here[k].rule_no == o[i].0);
        }
    }
}

/// Under a policy without pairs and without memory areas, the report of any
/// program has exactly one record for rule 7 and exactly one for rule 10,
/// and both say that the rule is followed.
pub proof fn lemma_empty_policy_report(p: ProgramModel, policy: PolicyModel)
    requires
        policy.pairs.len() == 0,
        policy.memory_areas.len() == 0,
    ensures
        count_numbered(joined_records(all_outcomes(p, policy)), 7) == 1,
        count_numbered(joined_records(all_outcomes(p, policy)), 10) == 1,
        only_followed(
            joined_records(all_outcomes(p, policy)),
            7,
            "Validate paired inputs/outputs"@,
        ),
        only_followed(
            joined_records(all_outcomes(p, policy)),
            10,
            "Assign designated register blocks"@,
        ),
{
    let o = all_outcomes(p, policy);
    assert(o.len() == 17);
    lemma_entries_without_policy(p, policy, 7, "Validate paired inputs/outputs"@);
    lemma_joined_one(o, 7, "Validate paired inputs/outputs"@, 5);
    lemma_entries_without_policy(p, policy, 10, "Assign designated register blocks"@);
    lemma_joined_one(o, 10, "Assign designated register blocks"@, 8);
}

} // verus!
