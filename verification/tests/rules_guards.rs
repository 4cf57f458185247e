use plc_secure_checker::ast::{BinOp, Expression, Function, FunctionKind, Program, Statement, Variable};
use plc_secure_checker::parser::scl::parse_scl_from_str;
use plc_secure_checker::rules::policy::{MemoryArea, Policy};
use plc_secure_checker::rules::render::{expr_text, is_false_expr, is_literal, is_true_expr};
use plc_secure_checker::rules::{rule10, rule11_12, rule4, rule6, rule7, rule8, rule9};

fn var(name: &str) -> Expression {
    Expression::VariableRef(name.to_string())
}

fn index(base: &str, idx: Expression) -> Expression {
    Expression::Index { base: Box::new(var(base)), index: Box::new(idx), line: 1 }
}

fn binary(op: BinOp, left: Expression, right: Expression) -> Expression {
    Expression::BinaryOp { op, left: Box::new(left), right: Box::new(right), line: 1 }
}

fn assign(target: &str, value: Expression, line: usize) -> Statement {
    Statement::Assign { target: Variable { name: target.to_string() }, value, line }
}

fn cond(condition: Expression, then_branch: Vec<Statement>, else_branch: Vec<Statement>) -> Statement {
    Statement::IfStmt { condition, then_branch, else_branch, line: 1 }
}

fn one_function(statements: Vec<Statement>) -> Program {
    Program {
        functions: vec![Function {
            name: "F".to_string(),
            kind: FunctionKind::FC,
            statements,
            line: 1,
        }],
    }
}

fn scl(src: &str) -> Program {
    parse_scl_from_str(src).unwrap()
}

fn area(address: &str, access: &str) -> MemoryArea {
    MemoryArea { address: address.to_string(), access: access.to_string() }
}

fn pairs(list: &[(&str, &str)]) -> Policy {
    Policy {
        pairs: Some(list.iter().map(|(a, b)| [a.to_string(), b.to_string()]).collect()),
        memory_areas: None,
    }
}

#[test]
fn expressions_render_as_text() {
    assert_eq!(expr_text(&var("Tank.Level")), "Tank.Level");
    assert_eq!(expr_text(&Expression::NumberLiteral(-7, 1)), "-7");
    assert_eq!(expr_text(&Expression::NumberLiteral(i64::MIN, 1)), "-9223372036854775808");
    assert_eq!(expr_text(&Expression::BoolLiteral(true, 1)), "true");
    assert_eq!(expr_text(&Expression::BoolLiteral(false, 1)), "false");
    let ops = [
        (BinOp::Div, "/"),
        (BinOp::Add, "+"),
        (BinOp::Sub, "-"),
        (BinOp::Mul, "*"),
        (BinOp::Eq, "="),
        (BinOp::Lt, "<"),
        (BinOp::Le, "<="),
        (BinOp::Gt, ">"),
        (BinOp::Ge, ">="),
    ];
    for (op, sign) in ops {
        assert_eq!(
            expr_text(&binary(op, var("a"), Expression::NumberLiteral(1, 1))),
            format!("a {} 1", sign)
        );
    }
    assert_eq!(
        expr_text(&index("Arr", binary(BinOp::Add, var("i"), Expression::NumberLiteral(1, 1)))),
        "Arr[i + 1]"
    );
}

#[test]
fn statements_flatten_in_source_order() {
    let p = scl("FUNCTION F\nA := 1;\nIF c THEN\nB := 2;\nIF d THEN\nC := 3;\nEND_IF;\nELSE\nD := 4;\nEND_IF;\nE := 5;\nEND_FUNCTION\n");
    let flat = plc_secure_checker::ast::flatten(&p.functions[0].statements);
    let lines: Vec<usize> = flat
        .iter()
        .map(|s| match s {
            Statement::Assign { line, .. } => *line,
            Statement::IfStmt { line, .. } => *line,
            _ => 0,
        })
        .collect();
    assert_eq!(lines, vec![2, 3, 4, 5, 6, 9, 11]);
    assert_eq!(flat[1], p.functions[0].statements[1]);
    assert_eq!(Variable { name: "Tank".to_string() }.to_text(), "Tank");
    assert_eq!(p.functions[0].statements[1].clone(), p.functions[0].statements[1]);
}

#[test]
fn literals_and_truth() {
    assert!(is_literal(&Expression::NumberLiteral(0, 1)));
    assert!(is_literal(&Expression::BoolLiteral(false, 1)));
    assert!(!is_literal(&var("x")));
    assert!(is_true_expr(&Expression::BoolLiteral(true, 1)));
    assert!(is_true_expr(&Expression::NumberLiteral(-3, 1)));
    assert!(!is_true_expr(&Expression::NumberLiteral(0, 1)));
    assert!(!is_true_expr(&var("TRUE")));
    assert!(is_false_expr(&Expression::BoolLiteral(false, 1)));
    assert!(is_false_expr(&Expression::NumberLiteral(0, 1)));
    assert!(!is_false_expr(&Expression::NumberLiteral(1, 1)));
    assert!(!is_false_expr(&var("FALSE")));
}

#[test]
fn a_division_needs_a_status_check() {
    let p = scl("FUNCTION F\nX := A / B;\nEND_FUNCTION\n");
    let r = rule4::check(&p);
    assert_eq!(r.violations.len(), 1);
    assert_eq!(r.violations[0].rule_no, 4);
    assert_eq!(r.violations[0].line, 2);
    assert_eq!(
        r.violations[0].reason,
        "Division operation without status-word / zero-divisor guard"
    );
    let p = scl("FUNCTION F\nIF SW.OV=0 AND SW.OS=0 THEN\nX := A / B;\nELSE\nY := A / B;\nEND_IF;\nEND_FUNCTION\n");
    assert!(rule4::check(&p).ok);
    let p = scl("FUNCTION F\nIF B > 0 THEN\nX := A / B;\nEND_IF;\nEND_FUNCTION\n");
    assert_eq!(rule4::check(&p).violations.len(), 1);
    let p = scl("FUNCTION F\nIF sw.z=0 THEN\nIF c THEN\nX := A / B;\nEND_IF;\nEND_IF;\nZ := A / B / C;\nEND_FUNCTION\n");
    let r = rule4::check(&p);
    let lines: Vec<usize> = r.violations.iter().map(|v| v.line).collect();
    assert_eq!(lines, vec![7, 7]);
}

#[test]
fn divisions_are_found_inside_expressions() {
    let e = index("Arr", binary(BinOp::Div, var("a"), var("b")));
    let p = one_function(vec![
        Statement::Expr { expr: e, line: 5 },
        assign("x", binary(BinOp::Add, var("a"), binary(BinOp::Div, var("b"), var("c"))), 6),
        assign("y", binary(BinOp::Mul, var("a"), var("b")), 7),
    ]);
    let lines: Vec<usize> = rule4::check(&p).violations.iter().map(|v| v.line).collect();
    assert_eq!(lines, vec![5, 6]);
}

#[test]
fn a_preset_from_a_variable_needs_a_range_check() {
    let p = scl("FUNCTION F\nTimer1.PT := Setpoint;\nX := Setpoint;\nMotor_Timer := 100;\nEND_FUNCTION\n");
    let r = rule6::check(&p);
    assert_eq!(r.violations.len(), 1);
    assert_eq!(r.violations[0].rule_no, 6);
    assert_eq!(r.violations[0].line, 2);
    assert_eq!(
        r.violations[0].reason,
        "Preset 'Timer1.PT' set from external value 'Setpoint' without range check"
    );
    let p = scl("FUNCTION F\nIF setpoint < 100 THEN\nCounter_Preset := Setpoint;\nEND_IF;\nEND_FUNCTION\n");
    assert!(rule6::check(&p).ok);
    let p = scl("FUNCTION F\nIF Setpoint = 100 THEN\nCounter_Preset := Setpoint;\nEND_IF;\nEND_FUNCTION\n");
    assert!(!rule6::check(&p).ok);
    let p = scl("FUNCTION F\nIF Other < 100 THEN\nCounter_Preset := Setpoint;\nEND_IF;\nEND_FUNCTION\n");
    assert!(!rule6::check(&p).ok);
    let p = scl("FUNCTION F\nIF MAX(Setpoint) THEN\nELSE\nCounter_Preset := Setpoint;\nEND_IF;\nEND_FUNCTION\n");
    assert!(rule6::check(&p).ok);
}

#[test]
fn panel_values_need_sanitising() {
    let p = scl("FUNCTION F\nSpeed := HMI_Speed;\nLevel := db10.level / 2;\nPlain := Local;\nEND_FUNCTION\n");
    let r = rule8::check(&p);
    assert_eq!(r.violations.len(), 2);
    assert_eq!(r.violations[0].rule_no, 8);
    assert_eq!(r.violations[0].line, 2);
    assert_eq!(
        r.violations[0].reason,
        "HMI/DB variable 'HMI_Speed' used without prior sanitization"
    );
    assert_eq!(
        r.violations[1].reason,
        "HMI/DB variable 'db10.level' used without prior sanitization"
    );
    let p = scl("FUNCTION F\nIF HMI_Speed > 0 THEN\nSpeed := HMI_Speed;\nEND_IF;\nEND_FUNCTION\n");
    assert!(rule8::check(&p).ok);
    let p = scl("FUNCTION F\nIF InRange(hmi_speed) THEN\nSpeed := HMI_Speed;\nEND_IF;\nSpeed := HMI_Speed;\nEND_FUNCTION\n");
    let lines: Vec<usize> = rule8::check(&p).violations.iter().map(|v| v.line).collect();
    assert_eq!(lines, vec![5]);
}

#[test]
fn an_unguarded_index_is_reported_and_a_guarded_one_is_not() {
    let p = one_function(vec![assign("X", index("Arr", var("Idx")), 3)]);
    let r = rule9::check(&p);
    assert_eq!(r.violations.len(), 1);
    assert_eq!(r.violations[0].rule_no, 9);
    assert_eq!(r.violations[0].rule_name, "Validate indirections");
    assert_eq!(r.violations[0].line, 3);
    assert_eq!(
        r.violations[0].reason,
        "Array indexed by variable 'Idx' without bounds check"
    );
    assert_eq!(
        r.violations[0].suggestion,
        "Validate index against array bounds before access."
    );
    let p = one_function(vec![cond(
        binary(BinOp::Lt, var("Idx"), Expression::NumberLiteral(10, 1)),
        vec![assign("X", index("Arr", var("Idx")), 3)],
        vec![],
    )]);
    assert!(rule9::check(&p).ok);
}

#[test]
fn index_guards_work_from_source_to_finding() {
    let p = scl("FUNCTION F\nArr[Idx]\nEND_FUNCTION\n");
    let r = rule9::check(&p);
    assert_eq!(r.violations.len(), 1);
    assert_eq!(r.violations[0].line, 2);
    assert!(r.violations[0].reason.contains("'Idx'"));
    let p = scl("FUNCTION F\nIF Idx < 10 THEN\nArr[Idx]\nEND_IF;\nEND_FUNCTION\n");
    assert!(rule9::check(&p).ok);
    let p = scl("FUNCTION F\nIF Other < 10 THEN\nArr[Idx]\nEND_IF;\nEND_FUNCTION\n");
    assert_eq!(rule9::check(&p).violations.len(), 1);
    let p = scl("FUNCTION F\nIF Idx = 10 THEN\nArr[Idx]\nEND_IF;\nEND_FUNCTION\n");
    assert_eq!(rule9::check(&p).violations.len(), 1);
    let p = scl("FUNCTION F\nX := Arr[Idx];\nEND_FUNCTION\n");
    assert!(rule9::check(&p).ok);
}

#[test]
fn a_literal_index_is_not_reported() {
    let p = one_function(vec![
        assign("X", index("Arr", Expression::NumberLiteral(3, 1)), 3),
        assign("Y", binary(BinOp::Add, index("A", var("i")), index("B", index("C", var("j")))), 4),
    ]);
    let r = rule9::check(&p);
    let reasons: Vec<&str> = r.violations.iter().map(|v| v.reason.as_str()).collect();
    assert_eq!(
        reasons,
        vec![
            "Array indexed by variable 'i' without bounds check",
            "Array indexed by variable 'j' without bounds check",
        ]
    );
}

#[test]
fn paired_signals_in_one_sequence_are_reported() {
    let policy = pairs(&[("Motor_Fwd", "Motor_Rev")]);
    let p = scl("FUNCTION F\nMotor_Fwd := TRUE;\nX := 1;\nMOTOR_REV := 1;\nMotor_Fwd := TRUE;\nEND_FUNCTION\n");
    let r = rule7::check(&p, &policy);
    assert_eq!(r.violations.len(), 1);
    assert_eq!(r.violations[0].rule_no, 7);
    assert_eq!(r.violations[0].rule_name, "Validate paired inputs/outputs");
    assert_eq!(r.violations[0].line, 4);
    assert_eq!(
        r.violations[0].reason,
        "Signals 'Motor_Fwd' and 'Motor_Rev' are active concurrently in the same logical path"
    );
    assert_eq!(
        r.violations[0].suggestion,
        "Ensure paired signals are in mutually exclusive conditions."
    );
}

#[test]
fn paired_signals_in_exclusive_branches_are_not_reported() {
    let policy = pairs(&[("Motor_Fwd", "Motor_Rev")]);
    let p = scl("FUNCTION F\nIF Dir THEN\nMotor_Fwd := TRUE;\nELSE\nMotor_Rev := TRUE;\nEND_IF;\nEND_FUNCTION\n");
    assert!(rule7::check(&p, &policy).ok);
}

#[test]
fn a_signal_that_is_reset_is_idle_again() {
    let policy = pairs(&[("A", "B")]);
    let p = scl("FUNCTION F\nA := TRUE;\nA := FALSE;\nB := TRUE;\nEND_FUNCTION\n");
    assert!(rule7::check(&p, &policy).ok);
    let p = scl("FUNCTION F\nA := TRUE;\nA := Other;\nB := TRUE;\nEND_FUNCTION\n");
    assert!(rule7::check(&p, &policy).ok);
}

#[test]
fn branches_start_from_the_state_before_them() {
    let policy = pairs(&[("A", "B")]);
    let p = scl(
        "FUNCTION F\nA := TRUE;\nIF c THEN\nB := TRUE;\nELSE\nB := TRUE;\nEND_IF;\nB := TRUE;\nB := TRUE;\nEND_FUNCTION\n",
    );
    let lines: Vec<usize> = rule7::check(&p, &policy).violations.iter().map(|v| v.line).collect();
    assert_eq!(lines, vec![4, 6, 8]);
    let p = scl("FUNCTION F\nIF c THEN\nA := TRUE;\nEND_IF;\nB := TRUE;\nEND_FUNCTION\n");
    assert!(rule7::check(&p, &policy).ok);
}

#[test]
fn pairs_are_checked_for_each_routine_in_turn() {
    let policy = pairs(&[("A", "B"), ("C", "D")]);
    let p = scl(
        "FUNCTION F\nC := 1;\nD := 1;\nA := 1;\nB := 1;\nEND_FUNCTION\nFUNCTION G\nA := 1;\nB := 1;\nEND_FUNCTION\n",
    );
    let lines: Vec<usize> = rule7::check(&p, &policy).violations.iter().map(|v| v.line).collect();
    assert_eq!(lines, vec![5, 3, 9]);
}

#[test]
fn the_flat_scan_reports_whatever_the_branches() {
    let policy = pairs(&[("Motor_Fwd", "Motor_Rev")]);
    let p = scl("FUNCTION F\nX := 1;\nIF Dir THEN\nMotor_Rev := TRUE;\nELSE\nmotor_fwd := 1;\nEND_IF;\nEND_FUNCTION\nFUNCTION G\nMotor_Fwd := TRUE;\nMotor_Fwd := FALSE;\nMotor_Rev := TRUE;\nEND_FUNCTION\nFUNCTION H\nMotor_Fwd := TRUE;\nEND_FUNCTION\n");
    assert!(rule7::check(&p, &policy).ok);
    let r = rule7::check_flat(&p, &policy);
    let found: Vec<(usize, &str)> =
        r.violations.iter().map(|v| (v.line, v.reason.as_str())).collect();
    assert_eq!(
        found,
        vec![
            (4, "Signals 'Motor_Fwd' and 'Motor_Rev' may be active concurrently"),
            (10, "Signals 'Motor_Fwd' and 'Motor_Rev' may be active concurrently"),
        ]
    );
    assert_eq!(r.violations[0].rule_no, 7);
    assert_eq!(r.violations[0].suggestion, "Guard with mutually exclusive conditions or interlocks.");
    assert!(rule7::check_flat(&p, &Policy::default()).ok);
    let two = pairs(&[("A", "B"), ("Motor_Fwd", "Motor_Rev")]);
    assert_eq!(rule7::check_flat(&p, &two).violations.len(), 2);
}

#[test]
fn what_the_walk_reports_the_flat_scan_reports_too() {
    let policy = pairs(&[("A", "B")]);
    for src in [
        "FUNCTION F\nA := 1;\nB := 1;\nEND_FUNCTION\n",
        "FUNCTION F\nIF c THEN\nA := 1;\nIF d THEN\nB := 1;\nEND_IF;\nEND_IF;\nEND_FUNCTION\n",
        "FUNCTION F\nA := 1;\nIF c THEN\nELSE\nB := 1;\nEND_IF;\nEND_FUNCTION\n",
    ] {
        let p = scl(src);
        assert_eq!(rule7::check(&p, &policy).violations.len(), 1);
        assert_eq!(rule7::check_flat(&p, &policy).violations.len(), 1);
    }
}

#[test]
fn a_pair_of_one_signal_is_active_with_itself() {
    let policy = pairs(&[("A", "a")]);
    let p = scl("FUNCTION F\nA := TRUE;\nEND_FUNCTION\n");
    assert_eq!(rule7::check(&p, &policy).violations.len(), 1);
}

#[test]
fn without_policy_the_policy_rules_are_followed() {
    let p = scl("FUNCTION F\nMotor_Fwd := TRUE;\nMotor_Rev := TRUE;\n%MW150 := 1;\nEND_FUNCTION\n");
    let full = Policy {
        pairs: Some(vec![["Motor_Fwd".to_string(), "Motor_Rev".to_string()]]),
        memory_areas: Some(vec![area("%MW100-%MW200", "ReadOnly")]),
    };
    assert!(!rule7::check(&p, &full).ok);
    assert!(!rule10::check(&p, &full).ok);
    for empty in [
        Policy::default(),
        Policy { pairs: None, memory_areas: None },
        Policy { pairs: Some(vec![]), memory_areas: Some(vec![]) },
    ] {
        let r = rule7::check(&p, &empty);
        assert!(r.ok);
        assert!(r.violations.is_empty());
        let r = rule10::check(&p, &empty);
        assert!(r.ok);
        assert!(r.violations.is_empty());
    }
}

#[test]
fn an_area_holds_the_addresses_of_its_range() {
    let a = area("%MW100-%MW200", "ReadOnly");
    assert_eq!(a.range_bounds(), Some((100, 200)));
    assert!(a.applies("%MW", 150));
    assert!(a.applies("%MW", 100));
    assert!(a.applies("%MW", 200));
    assert!(a.applies("%mw", 150));
    assert!(!a.applies("%MW", 99));
    assert!(!a.applies("%MW", 201));
    assert!(!a.applies("%M", 150));
    assert!(!a.applies("%MWX", 150));
    assert!(!a.applies("%I", 150));
}

#[test]
fn a_range_without_two_bounds_holds_nothing() {
    for address in ["%MW100", "%MW100-", "-%MW200", "%MW100-%MW200-%MW300", "%MW-%MW", "", "%MW1-%MW99999999999999999999"] {
        let a = area(address, "ReadOnly");
        assert_eq!(a.range_bounds(), None);
        assert!(!a.applies("%MW", 150));
    }
    assert_eq!(area("  %M5 0-%M8 0 ", "x").range_bounds(), Some((50, 80)));
    assert_eq!(area("%M50-%M80", "x").range_bounds(), Some((50, 80)));
    assert_eq!(area("%M80-%M50", "x").range_bounds(), Some((80, 50)));
    assert!(!area("%M80-%M50", "x").applies("%M", 60));
}

#[test]
fn symbolic_addresses_are_read() {
    assert_eq!(rule10::parse_mem_address("%MW100"), Some(("%MW".to_string(), 100)));
    assert_eq!(rule10::parse_mem_address("%DB1.DBX10.0"), Some(("%DB".to_string(), 1)));
    assert_eq!(rule10::parse_mem_address("%M1W2"), Some(("%MW".to_string(), 12)));
    assert_eq!(rule10::parse_mem_address("%.MW7"), Some(("%MW".to_string(), 7)));
    assert_eq!(rule10::parse_mem_address("MW100"), None);
    assert_eq!(rule10::parse_mem_address("%100"), None);
    assert_eq!(rule10::parse_mem_address("%MW"), None);
    assert_eq!(rule10::parse_mem_address(""), None);
    assert_eq!(rule10::parse_mem_address("%MW99999999999999999999"), None);
}

#[test]
fn writes_into_read_only_areas_are_reported() {
    let policy = Policy {
        pairs: None,
        memory_areas: Some(vec![
            area("%MW100-%MW200", "ReadOnly"),
            area("%MW0-%MW500", "readonly"),
            area("%MW0-%MW500", "ReadWrite"),
            area("%M50-%M80", "READONLY"),
        ]),
    };
    let p = scl(
        "FUNCTION F\n%MW150 := 1;\n%MW300 := 1;\n%MW900 := 1;\n%M60 := 1;\nX := %MW150;\nIF a THEN\n%MW150 := 2;\nEND_IF;\nEND_FUNCTION\n",
    );
    let r = rule10::check(&p, &policy);
    let found: Vec<(usize, &str)> =
        r.violations.iter().map(|v| (v.line, v.reason.as_str())).collect();
    assert_eq!(
        found,
        vec![
            (2, "Write to read-only region %MW150"),
            (2, "Write to read-only region %MW150"),
            (3, "Write to read-only region %MW300"),
            (5, "Write to read-only region %M60"),
            (8, "Write to read-only region %MW150"),
            (8, "Write to read-only region %MW150"),
        ]
    );
    assert_eq!(r.violations[0].rule_no, 10);
    assert_eq!(
        r.violations[0].suggestion,
        "Move this write to an allowed area or update policy.json"
    );
}

#[test]
fn uses_of_panel_values_need_a_mark() {
    let p = one_function(vec![
        assign("a", var("HMI_In"), 1),
        Statement::Comment { text: "  (* @PlausibilityCheck: range *)".to_string(), line: 2 },
        assign("b", binary(BinOp::Add, var("HMI_In"), var("Db_Val")), 3),
        assign("c", var("HMI_In"), 4),
        Statement::Comment { text: "(* other *)".to_string(), line: 5 },
        Statement::Expr { expr: index("Arr", var("db.idx")), line: 6 },
        Statement::Comment { text: "(* @PlausibilityCheck: x *)".to_string(), line: 7 },
        Statement::Call { name: "F".to_string(), args: vec![], line: 8 },
        assign("d", var("HMI_In"), 9),
        cond(var("c"), vec![assign("e", var("HMI_In"), 10)], vec![]),
    ]);
    let r = rule11_12::check(&p);
    let found: Vec<(usize, &str)> =
        r.violations.iter().map(|v| (v.line, v.reason.as_str())).collect();
    assert_eq!(
        found,
        vec![
            (1, "Use of 'HMI_In' not preceded by @PlausibilityCheck comment"),
            (4, "Use of 'HMI_In' not preceded by @PlausibilityCheck comment"),
            (6, "Use of 'db.idx' not preceded by @PlausibilityCheck comment"),
            (9, "Use of 'HMI_In' not preceded by @PlausibilityCheck comment"),
            (10, "Use of 'HMI_In' not preceded by @PlausibilityCheck comment"),
        ]
    );
    assert!(r.violations.iter().all(|v| v.rule_no == 11 && v.rule_name == "Plausibility Checks"));
}
