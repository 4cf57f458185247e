use plc_secure_checker::ast::{Expression, Function, FunctionKind, Program, Statement, Variable};
use plc_secure_checker::parser::scl::parse_scl_from_str;
use plc_secure_checker::rules::{rule1, rule15, rule16, rule17, rule18, rule19, rule2, rule20, rule5};
use plc_secure_checker::rules::{RuleResult, Violation};

fn var(name: &str) -> Expression {
    Expression::VariableRef(name.to_string())
}

fn assign(target: &str, value: Expression, line: usize) -> Statement {
    Statement::Assign { target: Variable { name: target.to_string() }, value, line }
}

fn call(name: &str, line: usize) -> Statement {
    Statement::Call { name: name.to_string(), args: vec![], line }
}

fn cond(text: &str, then_branch: Vec<Statement>, else_branch: Vec<Statement>, line: usize) -> Statement {
    Statement::IfStmt { condition: var(text), then_branch, else_branch, line }
}

fn function(name: &str, kind: FunctionKind, statements: Vec<Statement>, line: usize) -> Function {
    Function { name: name.to_string(), kind, statements, line }
}

fn program(functions: Vec<Function>) -> Program {
    Program { functions }
}

fn scl(src: &str) -> Program {
    parse_scl_from_str(src).unwrap()
}

fn nested(depth: usize) -> Vec<Statement> {
    let mut inner: Vec<Statement> = vec![];
    for _ in 0..depth {
        inner = vec![cond("c", inner, vec![], 1)];
    }
    inner
}

fn siblings(count: usize) -> Vec<Statement> {
    (0..count).map(|_| cond("c", vec![], vec![], 1)).collect()
}

#[test]
fn outcomes_are_ok_exactly_without_findings() {
    let r = RuleResult::ok(1, "Modularize PLC Code");
    assert!(r.ok);
    assert!(r.violations.is_empty());
    let r = RuleResult::violations(vec![]);
    assert!(r.ok);
    let v = Violation {
        rule_no: 4,
        rule_name: "Use PLC flags as integrity checks",
        line: 3,
        reason: "r".to_string(),
        suggestion: "s".to_string(),
    };
    let r = RuleResult::violations(vec![v.clone()]);
    assert!(!r.ok);
    assert_eq!(r.violations, vec![v]);
}

#[test]
fn complexity_is_one_more_than_the_conditionals() {
    assert_eq!(rule1::cyclomatic_complexity(&vec![]), 1);
    assert_eq!(rule1::cyclomatic_complexity(&siblings(7)), 8);
    assert_eq!(rule1::cyclomatic_complexity(&nested(7)), 8);
    let mixed = vec![
        assign("x", Expression::NumberLiteral(1, 1), 1),
        cond("a", nested(2), siblings(3), 2),
    ];
    assert_eq!(rule1::count_branches(&mixed), 6);
    assert_eq!(rule1::cyclomatic_complexity(&mixed), 7);
    assert_eq!(rule1::statement_count(&mixed), 7);
    assert_eq!(rule1::statement_count(&vec![]), 0);
}

#[test]
fn complexity_of_51_is_reported_and_50_is_not() {
    let p = program(vec![function("F", FunctionKind::FC, siblings(50), 9)]);
    let r = rule1::check(&p);
    assert!(!r.ok);
    assert_eq!(r.violations.len(), 1);
    assert_eq!(r.violations[0].rule_no, 1);
    assert_eq!(r.violations[0].rule_name, "Modularize PLC Code");
    assert_eq!(r.violations[0].line, 9);
    assert_eq!(r.violations[0].reason, "Cyclomatic complexity 51 exceeds 50");
    assert_eq!(r.violations[0].suggestion, "Split logic into smaller FC/FBs; reduce branching.");
    let p = program(vec![function("F", FunctionKind::FB, siblings(49), 9)]);
    assert!(rule1::check(&p).ok);
    let p = program(vec![function("F", FunctionKind::FB, nested(50), 9)]);
    assert_eq!(rule1::check(&p).violations.len(), 1);
}

#[test]
fn statement_count_of_501_is_reported_and_500_is_not() {
    let body = |n: usize| -> Vec<Statement> {
        (0..n).map(|i| assign("x", Expression::NumberLiteral(0, i), i)).collect()
    };
    let p = program(vec![function("F", FunctionKind::FC, body(501), 2)]);
    let r = rule1::check(&p);
    assert_eq!(r.violations.len(), 1);
    assert_eq!(r.violations[0].reason, "Statement count 501 exceeds 500");
    assert_eq!(r.violations[0].suggestion, "Refactor large routines into smaller units.");
    let p = program(vec![function("F", FunctionKind::FC, body(500), 2)]);
    assert!(rule1::check(&p).ok);
}

#[test]
fn both_limits_are_checked_each_for_itself() {
    let mut body = siblings(60);
    body.extend((0..450).map(|i| assign("x", Expression::NumberLiteral(0, i), i)));
    let p = program(vec![function("F", FunctionKind::FC, body, 2)]);
    let r = rule1::check(&p);
    assert_eq!(r.violations.len(), 2);
    assert_eq!(r.violations[0].reason, "Cyclomatic complexity 61 exceeds 50");
    assert_eq!(r.violations[1].reason, "Statement count 510 exceeds 500");
}

#[test]
fn organisation_blocks_are_not_measured() {
    let p = program(vec![function("OB1", FunctionKind::OB1, siblings(80), 2)]);
    assert!(rule1::check(&p).ok);
}

#[test]
fn a_mode_read_needs_an_alarm() {
    let p = scl("FUNCTION F\nX := 1;\nRD_SYSINFO(a);\nSFC51(b);\nEND_FUNCTION\n");
    let r = rule2::check(&p);
    assert_eq!(r.violations.len(), 1);
    assert_eq!(r.violations[0].rule_no, 2);
    assert_eq!(r.violations[0].line, 3);
    assert_eq!(
        r.violations[0].reason,
        "CPU operating mode read without alarm on non-RUN (value != 8)"
    );
    let p = scl(
        "FUNCTION F\nRD_SYSINFO(a);\nIF x THEN\nIF Mode <> 8 THEN\nAlarm_Mode := TRUE;\nEND_IF;\nEND_IF;\nEND_FUNCTION\n",
    );
    assert!(rule2::check(&p).ok);
    let p = scl("FUNCTION F\nRD_SYSINFO(a);\nIF Mode <> 8 THEN\nAlarm_Mode := FALSE;\nEND_IF;\nEND_FUNCTION\n");
    assert!(!rule2::check(&p).ok);
    let p = scl("FUNCTION F\nRD_SYSINFO(a);\nIF Mode <> 8 THEN\nELSE\nAlarm_Mode := TRUE;\nEND_IF;\nEND_FUNCTION\n");
    assert!(!rule2::check(&p).ok);
    let p = scl("FUNCTION F\nX := 1;\nEND_FUNCTION\n");
    assert!(rule2::check(&p).ok);
}

#[test]
fn a_checksum_needs_a_comparison() {
    let p = scl("FUNCTION F\nGetChecksum(a);\nIF x THEN\nGETCHECKSUM(b);\nEND_IF;\nEND_FUNCTION\n");
    let r = rule5::check(&p);
    assert_eq!(r.violations.len(), 1);
    assert_eq!(r.violations[0].rule_no, 5);
    assert_eq!(r.violations[0].line, 4);
    assert_eq!(
        r.violations[0].reason,
        "GetChecksum called but its result is not compared and alarmed"
    );
    let p = scl(
        "FUNCTION F\nGetChecksum(a);\nIF Checksum <> Stored THEN\nMain_Alarm := 1;\nEND_IF;\nEND_FUNCTION\n",
    );
    assert!(rule5::check(&p).ok);
    let p = scl("FUNCTION F\nGetChecksum(a);\nIF Checksum = Stored THEN\nMain_Alarm := 1;\nEND_IF;\nEND_FUNCTION\n");
    assert!(!rule5::check(&p).ok);
}

#[test]
fn a_missing_startup_block_is_reported_at_line_0() {
    let p = scl("FUNCTION F\nX := 1;\nEND_FUNCTION\n");
    let r = rule15::check(&p);
    assert_eq!(r.violations.len(), 1);
    assert_eq!(r.violations[0].rule_no, 15);
    assert_eq!(r.violations[0].rule_name, "Define a safe restart state");
    assert_eq!(r.violations[0].line, 0);
    assert_eq!(r.violations[0].reason, "OB100 (Startup OB) not found");
    assert_eq!(r.violations[0].suggestion, "Add OB100 and initialize outputs to safe state.");
}

#[test]
fn an_empty_startup_block_is_reported_as_empty() {
    let p = scl("FUNCTION F\nEND_FUNCTION\nORGANIZATION_BLOCK OB100\nEND_ORGANIZATION_BLOCK\n");
    let r = rule15::check(&p);
    assert_eq!(r.violations.len(), 1);
    assert_eq!(r.violations[0].line, 3);
    assert_eq!(r.violations[0].reason, "OB100 exists but is empty");
    assert_eq!(r.violations[0].suggestion, "Initialize critical outputs to FALSE in OB100.");
}

#[test]
fn a_startup_block_needs_a_safe_value() {
    let p = scl("ORGANIZATION_BLOCK OB100\nX := 1;\nPump_Out := TRUE;\nEND_ORGANIZATION_BLOCK\n");
    let r = rule15::check(&p);
    assert_eq!(r.violations.len(), 1);
    assert_eq!(r.violations[0].line, 1);
    assert_eq!(
        r.violations[0].reason,
        "OB100 does not initialize critical outputs to a safe value"
    );
    assert_eq!(r.violations[0].suggestion, "Set critical outputs to FALSE/0 in OB100.");
    for line in ["Pump_out := FALSE;", "Critical_Valve := 0;", "SafeState := false;"] {
        let src = format!("ORGANIZATION_BLOCK OB100\nX := 1;\n{}\nEND_ORGANIZATION_BLOCK\n", line);
        assert!(rule15::check(&scl(&src)).ok);
    }
    let p = scl("ORGANIZATION_BLOCK OB100\nPump_Output := FALSE;\nEND_ORGANIZATION_BLOCK\n");
    assert!(!rule15::check(&p).ok);
    let p = scl("ORGANIZATION_BLOCK OB100\nIF First_Scan THEN\nPump_Out := FALSE;\nEND_IF;\nEND_ORGANIZATION_BLOCK\n");
    assert!(rule15::check(&p).ok);
}

#[test]
fn the_first_startup_block_decides() {
    let p = program(vec![
        function("OB100", FunctionKind::OB100, vec![], 4),
        function(
            "OB100b",
            FunctionKind::OB100,
            vec![assign("Safe", Expression::BoolLiteral(false, 9), 9)],
            8,
        ),
    ]);
    let r = rule15::check(&p);
    assert_eq!(r.violations.len(), 1);
    assert_eq!(r.violations[0].line, 4);
}

#[test]
fn the_cycle_time_is_moved_to_the_panel() {
    let p = scl("ORGANIZATION_BLOCK OB1\nT := OB1_PREV_CYCLE;\nU := ob1_prev_cycle / 2;\nEND_ORGANIZATION_BLOCK\n");
    let r = rule16::check(&p);
    assert_eq!(r.violations.len(), 1);
    assert_eq!(r.violations[0].rule_no, 16);
    assert_eq!(r.violations[0].line, 3);
    assert_eq!(r.violations[0].reason, "OB1_PREV_CYCLE read but not reported to HMI");
    let p = scl("ORGANIZATION_BLOCK OB1\nT := OB1_PREV_CYCLE;\nHmi_Cycle := OB1_PREV_CYCLE;\nEND_ORGANIZATION_BLOCK\n");
    assert!(rule16::check(&p).ok);
    let p = scl("FUNCTION F\nT := OB1_PREV_CYCLE;\nEND_FUNCTION\n");
    assert!(rule16::check(&p).ok);
    let p = scl("ORGANIZATION_BLOCK OB1\nT := 1;\nEND_ORGANIZATION_BLOCK\n");
    assert!(rule16::check(&p).ok);
    let p = scl("ORGANIZATION_BLOCK OB1\nIF a THEN\nT := OB1_PREV_CYCLE;\nEND_IF;\nEND_ORGANIZATION_BLOCK\n");
    let r = rule16::check(&p);
    assert_eq!(r.violations.len(), 1);
    assert_eq!(r.violations[0].line, 3);
}

#[test]
fn the_uptime_is_reported() {
    let p = scl("FUNCTION F\nRD_SINFO(a);\nX := 1;\nSFC6(b);\nEND_FUNCTION\n");
    let r = rule17::check(&p);
    assert_eq!(r.violations.len(), 1);
    assert_eq!(r.violations[0].rule_no, 17);
    assert_eq!(r.violations[0].line, 4);
    assert_eq!(r.violations[0].reason, "SFC6/RD_SINFO used but uptime not reported");
    let p = scl("FUNCTION F\nRD_SINFO(a);\nHMI_Uptime := Runtime_Counter;\nEND_FUNCTION\n");
    assert!(rule17::check(&p).ok);
    let p = scl("FUNCTION F\nRD_SINFO(a);\nUptime := Other;\nEND_FUNCTION\n");
    assert!(!rule17::check(&p).ok);
    let p = scl("FUNCTION F\nIF a THEN\nRD_SINFO(a);\nEND_IF;\nEND_FUNCTION\n");
    let r = rule17::check(&p);
    assert_eq!(r.violations.len(), 1);
    assert_eq!(r.violations[0].line, 3);
    let p = scl("FUNCTION F\nRD_SINFO(a);\nIF a THEN\nELSE\nHMI_Up := RD_SINFO_Out;\nEND_IF;\nEND_FUNCTION\n");
    assert!(rule17::check(&p).ok);
}

#[test]
fn each_fault_block_is_needed_for_itself() {
    let p = scl("ORGANIZATION_BLOCK OB86\nEND_ORGANIZATION_BLOCK\n");
    let r = rule18::check(&p);
    assert_eq!(r.violations.len(), 3);
    let reasons: Vec<&str> = r.violations.iter().map(|v| v.reason.as_str()).collect();
    assert_eq!(
        reasons,
        vec![
            "OB86 (Rack Failure) missing or empty",
            "OB121 (Programming Error) missing or empty",
            "OB82 (Diagnostic Interrupt) missing or empty",
        ]
    );
    assert!(r.violations.iter().all(|v| v.line == 0 && v.rule_no == 18));
    assert_eq!(
        r.violations[1].suggestion,
        "Implement OB121 to log and safely recover from programming errors."
    );
    let body = vec![assign("x", Expression::NumberLiteral(0, 1), 1)];
    let p = program(vec![
        function("a", FunctionKind::OB86, vec![], 1),
        function("b", FunctionKind::OB86, body.clone(), 1),
        function("c", FunctionKind::OB82, body.clone(), 1),
    ]);
    let r = rule18::check(&p);
    assert_eq!(r.violations.len(), 1);
    assert_eq!(r.violations[0].reason, "OB121 (Programming Error) missing or empty");
    let p = program(vec![
        function("a", FunctionKind::OB86, body.clone(), 1),
        function("b", FunctionKind::OB121, body.clone(), 1),
        function("c", FunctionKind::OB82, body, 1),
    ]);
    assert!(rule18::check(&p).ok);
}

#[test]
fn the_memory_test_is_reported() {
    let p = scl("FUNCTION F\nTEST_DB(a);\nEND_FUNCTION\n");
    let r = rule19::check(&p);
    assert_eq!(r.violations.len(), 1);
    assert_eq!(r.violations[0].rule_no, 19);
    assert_eq!(r.violations[0].line, 2);
    assert_eq!(r.violations[0].reason, "SFC24/TEST_DB used but memory usage not reported");
    let p = scl("FUNCTION F\nSFC24(a);\nMem_Report := SFC24_Result;\nEND_FUNCTION\n");
    assert!(rule19::check(&p).ok);
    let p = scl("FUNCTION F\nIF a THEN\nIF b THEN\nSFC24(a);\nEND_IF;\nEND_IF;\nEND_FUNCTION\n");
    assert_eq!(rule19::check(&p).violations.len(), 1);
}

#[test]
fn alerts_need_both_traps() {
    let p = scl(
        "FUNCTION F\nCritical_Alert_Temp := TRUE;\nCritical_Alert_Temp := FALSE;\nOther := 1;\nEND_FUNCTION\n",
    );
    let r = rule20::check(&p);
    assert_eq!(r.violations.len(), 1);
    assert_eq!(r.violations[0].rule_no, 20);
    assert_eq!(r.violations[0].line, 2);
    assert_eq!(
        r.violations[0].reason,
        "Missing trap variables 'Critical_Alert_Temp_False_Negative' or 'Critical_Alert_Temp_False_Positive'"
    );
    let p = scl("FUNCTION F\nX := 1;\ncritical_alert_x := 1;\nEND_FUNCTION\n");
    assert!(rule20::check(&p).ok);
}

#[test]
fn traps_are_alerts_too() {
    let p = scl(
        "FUNCTION F\nCritical_Alert_T := TRUE;\nIF a THEN\nCritical_Alert_T_False_Negative := 1;\nELSE\nCritical_Alert_T_False_Positive(x);\nEND_IF;\nEND_FUNCTION\n",
    );
    let r = rule20::check(&p);
    let lines: Vec<usize> = r.violations.iter().map(|v| v.line).collect();
    assert_eq!(lines, vec![4, 6]);
    assert_eq!(
        r.violations[0].reason,
        "Missing trap variables 'Critical_Alert_T_False_Negative_False_Negative' or 'Critical_Alert_T_False_Negative_False_Positive'"
    );
}
