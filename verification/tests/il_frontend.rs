use plc_secure_checker::ast::{BinOp, Expression, FunctionKind, Statement, Variable};
use plc_secure_checker::parser::il::{parse_il_from_str, parse_operand};

fn cs(s: &str) -> Vec<char> {
    s.chars().collect()
}

fn var(name: &str) -> Expression {
    Expression::VariableRef(name.to_string())
}

fn assign(target: &str, value: Expression, line: usize) -> Statement {
    Statement::Assign { target: Variable { name: target.to_string() }, value, line }
}

#[test]
fn il_operands_are_numbers_truth_values_or_names() {
    assert_eq!(parse_operand(&cs("12"), 3), Expression::NumberLiteral(12, 3));
    assert_eq!(parse_operand(&cs("-12"), 3), var("-12"));
    assert_eq!(parse_operand(&cs("true"), 3), Expression::BoolLiteral(true, 3));
    assert_eq!(parse_operand(&cs("False"), 3), Expression::BoolLiteral(false, 3));
    assert_eq!(parse_operand(&cs("%MW10"), 3), var("%MW10"));
    assert_eq!(parse_operand(&cs("99999999999999999999"), 3), Expression::NumberLiteral(0, 3));
}

#[test]
fn an_empty_list_gives_one_empty_function() {
    let p = parse_il_from_str("").unwrap();
    assert_eq!(p.functions.len(), 1);
    assert_eq!(p.functions[0].name, "IL_Program");
    assert_eq!(p.functions[0].kind, FunctionKind::FC);
    assert_eq!(p.functions[0].line, 1);
    assert!(p.functions[0].statements.is_empty());
}

#[test]
fn load_combine_store() {
    let p = parse_il_from_str("LD 5\nadd X\nMUL 2\nST Result\n").unwrap();
    assert_eq!(
        p.functions[0].statements,
        vec![assign(
            "Result",
            Expression::BinaryOp {
                op: BinOp::Mul,
                left: Box::new(Expression::BinaryOp {
                    op: BinOp::Add,
                    left: Box::new(Expression::NumberLiteral(5, 1)),
                    right: Box::new(var("X")),
                    line: 2,
                }),
                right: Box::new(Expression::NumberLiteral(2, 3)),
                line: 3,
            },
            4
        )]
    );
}

#[test]
fn every_arithmetic_mnemonic_has_its_operator() {
    let p = parse_il_from_str("LD a\nSUB b\nST r1\nLD a\nDIV b\nST r2\n").unwrap();
    let ops: Vec<BinOp> = p.functions[0]
        .statements
        .iter()
        .map(|s| match s {
            Statement::Assign { value: Expression::BinaryOp { op, .. }, .. } => *op,
            _ => panic!("an operation was expected"),
        })
        .collect();
    assert_eq!(ops, vec![BinOp::Sub, BinOp::Div]);
}

#[test]
fn store_clears_the_accumulator() {
    let p = parse_il_from_str("LD TRUE\nST A\nST B\n").unwrap();
    assert_eq!(p.functions[0].statements, vec![assign("A", Expression::BoolLiteral(true, 1), 2)]);
}

#[test]
fn missing_operands_empty_the_accumulator() {
    let p = parse_il_from_str("LD 1\nADD\nST A\nLD 2\nST\nST B\nLD\nST C\n").unwrap();
    assert!(p.functions[0].statements.is_empty());
    let q = parse_il_from_str("LD 1\nLD\nST A\n").unwrap();
    assert_eq!(q.functions[0].statements, vec![assign("A", Expression::NumberLiteral(1, 1), 3)]);
}

#[test]
fn comments_blanks_and_unknown_mnemonics_are_passed_over() {
    let p = parse_il_from_str("// header\n\n   \nLD 1\nJMP L1\nCAL F\n  // more\nST A\n").unwrap();
    assert_eq!(p.functions[0].statements, vec![assign("A", Expression::NumberLiteral(1, 4), 8)]);
}

#[test]
fn arithmetic_without_accumulator_does_nothing() {
    let p = parse_il_from_str("ADD 1\nST A\n").unwrap();
    assert!(p.functions[0].statements.is_empty());
}
