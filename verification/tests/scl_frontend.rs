use plc_secure_checker::ast::{BinOp, Expression, FunctionKind, Program, Statement, Variable};
use plc_secure_checker::parser::scl::{
    classify, extract_index_expr, find_top_level_char, grab_second_token, looks_like_call,
    parse_expr_heuristic, parse_scl_from_str, split_once, starts_with_keyword,
    strip_inline_comment, LineKind,
};

fn cs(s: &str) -> Vec<char> {
    s.chars().collect()
}

fn st(v: &Vec<char>) -> String {
    v.iter().collect()
}

fn var(name: &str) -> Expression {
    Expression::VariableRef(name.to_string())
}

fn assign(target: &str, value: Expression, line: usize) -> Statement {
    Statement::Assign { target: Variable { name: target.to_string() }, value, line }
}

fn parse(src: &str) -> Program {
    parse_scl_from_str(src).unwrap()
}

#[test]
fn comments_are_cut_out() {
    assert_eq!(st(&strip_inline_comment(&cs("x := 1; // set"))), "x := 1; ");
    assert_eq!(st(&strip_inline_comment(&cs("x (* note *) := 1;"))), "x  := 1;");
    assert_eq!(st(&strip_inline_comment(&cs("a *) b (* c"))), "a *) b (* c");
    assert_eq!(st(&strip_inline_comment(&cs("a (* b"))), "a (* b");
    assert_eq!(st(&strip_inline_comment(&cs("a (* b *) c (* d *) e"))), "a  c  e");
    assert_eq!(st(&strip_inline_comment(&cs("a // b (* c *)"))), "a ");
    assert_eq!(st(&strip_inline_comment(&cs("(*)"))), "(*)");
    assert_eq!(st(&strip_inline_comment(&cs("a *) b (* c *) d"))), "a *) b  d");
    assert_eq!(st(&strip_inline_comment(&cs("a (* b // c *) d"))), "a (* b ");
    assert_eq!(st(&strip_inline_comment(&cs("(**)(**)x(* *"))), "x(* *");
}

#[test]
fn keywords_match_in_any_case() {
    assert!(starts_with_keyword(&cs("  function_block FB1"), "FUNCTION_BLOCK"));
    assert!(starts_with_keyword(&cs("Function F"), "FUNCTION"));
    assert!(!starts_with_keyword(&cs("END_FUNCTION"), "FUNCTION"));
    assert!(!starts_with_keyword(&cs("FUN"), "FUNCTION"));
}

#[test]
fn second_token_loses_its_colons() {
    assert_eq!(grab_second_token(&cs("FUNCTION  Calc : INT")).map(|t| st(&t)), Some("Calc".to_string()));
    assert_eq!(grab_second_token(&cs("FUNCTION Calc:")).map(|t| st(&t)), Some("Calc".to_string()));
    assert_eq!(grab_second_token(&cs("FUNCTION")), None);
}

#[test]
fn split_once_cuts_at_the_first_occurrence() {
    let (a, b) = split_once(&cs("a := b := c"), ":=").unwrap();
    assert_eq!(st(&a), "a ");
    assert_eq!(st(&b), " b := c");
    assert!(split_once(&cs("abc"), ":=").is_none());
}

#[test]
fn call_shape_needs_parenthesis_and_ending() {
    assert!(looks_like_call(&cs(" RD_SINFO(a := 1); ")));
    assert!(!looks_like_call(&cs("RD_SINFO;")));
    assert!(!looks_like_call(&cs("RD_SINFO(a)")));
}

#[test]
fn top_level_search_skips_groups() {
    assert_eq!(find_top_level_char(&cs("a / b"), '/'), Some(2));
    assert_eq!(find_top_level_char(&cs("(a / b) / c"), '/'), Some(8));
    assert_eq!(find_top_level_char(&cs("x[a / b]"), '/'), None);
    assert_eq!(find_top_level_char(&cs(") / a"), '/'), Some(2));
    assert_eq!(find_top_level_char(&cs("((a) / b"), '/'), None);
    assert_eq!(find_top_level_char(&cs(""), '/'), None);
}

#[test]
fn expressions_are_read_shallowly() {
    assert_eq!(parse_expr_heuristic(&cs(" true "), 3), Expression::BoolLiteral(true, 3));
    assert_eq!(parse_expr_heuristic(&cs("FALSE"), 3), Expression::BoolLiteral(false, 3));
    assert_eq!(parse_expr_heuristic(&cs("0042"), 1), Expression::NumberLiteral(42, 1));
    assert_eq!(parse_expr_heuristic(&cs(""), 1), Expression::NumberLiteral(0, 1));
    assert_eq!(
        parse_expr_heuristic(&cs("99999999999999999999"), 1),
        Expression::NumberLiteral(0, 1)
    );
    assert_eq!(parse_expr_heuristic(&cs("-5"), 1), var("-5"));
    assert_eq!(parse_expr_heuristic(&cs("a + b"), 1), var("a + b"));
    assert_eq!(
        parse_expr_heuristic(&cs("a / 2"), 7),
        Expression::BinaryOp {
            op: BinOp::Div,
            left: Box::new(var("a")),
            right: Box::new(Expression::NumberLiteral(2, 7)),
            line: 7,
        }
    );
    assert_eq!(
        parse_expr_heuristic(&cs("a / b / c"), 7),
        Expression::BinaryOp {
            op: BinOp::Div,
            left: Box::new(var("a")),
            right: Box::new(Expression::BinaryOp {
                op: BinOp::Div,
                left: Box::new(var("b")),
                right: Box::new(var("c")),
                line: 7,
            }),
            line: 7,
        }
    );
    assert_eq!(parse_expr_heuristic(&cs("(a / b)"), 7), var("(a / b)"));
}

#[test]
fn index_expressions_are_extracted() {
    assert_eq!(
        extract_index_expr(&cs(" Arr[ Idx ] "), 4),
        Some(Expression::Index {
            base: Box::new(var("Arr")),
            index: Box::new(var("Idx")),
            line: 4,
        })
    );
    assert_eq!(extract_index_expr(&cs("Arr[Idx"), 4), None);
    assert_eq!(extract_index_expr(&cs("Arr]Idx["), 4), None);
    assert_eq!(extract_index_expr(&cs("plain"), 4), None);
}

#[test]
fn lines_are_classified_in_order() {
    assert!(matches!(classify(&cs("")), LineKind::Blank));
    assert!(matches!(classify(&cs("FUNCTION_BLOCK A")), LineKind::BlockStart));
    assert!(matches!(classify(&cs("organization_block OB1")), LineKind::BlockStart));
    assert!(matches!(classify(&cs("FUNCTIONAL := 1;")), LineKind::BlockStart));
    assert!(matches!(classify(&cs("END_FUNCTION")), LineKind::BlockEnd));
    assert!(matches!(classify(&cs("END_ORGANIZATION_BLOCK")), LineKind::BlockEnd));
    assert!(matches!(classify(&cs("IF a THEN")), LineKind::If));
    assert!(matches!(classify(&cs("if(a) then")), LineKind::If));
    assert!(matches!(classify(&cs("IFX := 1;")), LineKind::Assign));
    assert!(matches!(classify(&cs("ELSE")), LineKind::Else));
    assert!(matches!(classify(&cs("END_IF;")), LineKind::EndIf));
    assert!(matches!(classify(&cs("X := 1;")), LineKind::Assign));
    assert!(matches!(classify(&cs("X := 1")), LineKind::Other));
    assert!(matches!(classify(&cs("F(1);")), LineKind::Call));
    assert!(matches!(classify(&cs("Arr[1]")), LineKind::Other));
}

#[test]
fn a_function_with_statements() {
    let p = parse("FUNCTION Calc : INT\n  X := 10;\n  Y := X / 2; // halve\n  Log(X);\nEND_FUNCTION\n");
    assert_eq!(p.functions.len(), 1);
    let f = &p.functions[0];
    assert_eq!(f.name, "Calc");
    assert_eq!(f.kind, FunctionKind::FC);
    assert_eq!(f.line, 1);
    assert_eq!(
        f.statements,
        vec![
            assign("X", Expression::NumberLiteral(10, 2), 2),
            assign(
                "Y",
                Expression::BinaryOp {
                    op: BinOp::Div,
                    left: Box::new(var("X")),
                    right: Box::new(Expression::NumberLiteral(2, 3)),
                    line: 3,
                },
                3
            ),
            Statement::Call { name: "Log".to_string(), args: vec![], line: 4 },
        ]
    );
}

#[test]
fn kinds_follow_keyword_and_name() {
    let p = parse(
        "FUNCTION_BLOCK FB_Motor\nEND_FUNCTION_BLOCK\nFUNCTION F\nEND_FUNCTION\nORGANIZATION_BLOCK OB100\nEND_ORGANIZATION_BLOCK\nORGANIZATION_BLOCK Main_ob1\nEND_ORGANIZATION_BLOCK\nORGANIZATION_BLOCK OB86\nEND_ORGANIZATION_BLOCK\nORGANIZATION_BLOCK OB82\nEND_ORGANIZATION_BLOCK\nORGANIZATION_BLOCK OB35\nEND_ORGANIZATION_BLOCK\nORGANIZATION_BLOCK\nEND_ORGANIZATION_BLOCK\n",
    );
    let kinds: Vec<FunctionKind> = p.functions.iter().map(|f| f.kind).collect();
    assert_eq!(
        kinds,
        vec![
            FunctionKind::FB,
            FunctionKind::FC,
            FunctionKind::OB100,
            FunctionKind::OB1,
            FunctionKind::OB86,
            FunctionKind::OB82,
            FunctionKind::OB,
            FunctionKind::OB,
        ]
    );
    assert_eq!(p.functions[7].name, "Unnamed");
    assert_eq!(p.functions[3].line, 7);
}

#[test]
fn the_longer_numbers_are_looked_for_first() {
    let p = parse("ORGANIZATION_BLOCK OB121\nEND_ORGANIZATION_BLOCK\nORGANIZATION_BLOCK OB12\nEND_ORGANIZATION_BLOCK\nORGANIZATION_BLOCK Ob1000\nEND_ORGANIZATION_BLOCK\n");
    assert_eq!(p.functions[0].kind, FunctionKind::OB121);
    assert_eq!(p.functions[1].kind, FunctionKind::OB1);
    assert_eq!(p.functions[2].kind, FunctionKind::OB100);
}

#[test]
fn a_condition_may_span_many_lines() {
    let p = parse("FUNCTION F\nIF (a > 1  // first\n  OR   c)\n\n   AND b < 2   THEN X := 1;\nEND_IF;\nEND_FUNCTION\n");
    assert_eq!(
        p.functions[0].statements,
        vec![Statement::IfStmt {
            condition: var("(a > 1 OR   c)  AND b < 2"),
            then_branch: vec![],
            else_branch: vec![],
            line: 5,
        }]
    );
}

#[test]
fn conditionals_nest() {
    let p = parse(
        "FUNCTION F\nIF a > 1 THEN\n  X := 1;\n  IF b THEN\n    Y := 2;\n  ELSE\n    Y := 3;\n  END_IF;\n  Z := 4;\nELSE\n  X := 0;\nEND_IF;\nW := 5;\nEND_FUNCTION\n",
    );
    let f = &p.functions[0];
    assert_eq!(
        f.statements,
        vec![
            Statement::IfStmt {
                condition: var("a > 1"),
                then_branch: vec![
                    assign("X", Expression::NumberLiteral(1, 3), 3),
                    Statement::IfStmt {
                        condition: var("b"),
                        then_branch: vec![assign("Y", Expression::NumberLiteral(2, 5), 5)],
                        else_branch: vec![assign("Y", Expression::NumberLiteral(3, 7), 7)],
                        line: 4,
                    },
                    assign("Z", Expression::NumberLiteral(4, 9), 9),
                ],
                else_branch: vec![assign("X", Expression::NumberLiteral(0, 11), 11)],
                line: 2,
            },
            assign("W", Expression::NumberLiteral(5, 13), 13),
        ]
    );
}

#[test]
fn an_empty_conditional_has_empty_branches() {
    let p = parse("FUNCTION F\nIF a THEN\nEND_IF;\nEND_FUNCTION\n");
    assert_eq!(
        p.functions[0].statements,
        vec![Statement::IfStmt {
            condition: var("a"),
            then_branch: vec![],
            else_branch: vec![],
            line: 2,
        }]
    );
}

#[test]
fn a_condition_may_span_lines() {
    let p = parse("FUNCTION F\nIF a > 1\n   AND b < 2 THEN\n  X := 1;\nEND_IF;\nEND_FUNCTION\n");
    assert_eq!(
        p.functions[0].statements,
        vec![Statement::IfStmt {
            condition: var("a > 1 AND b < 2"),
            then_branch: vec![assign("X", Expression::NumberLiteral(1, 4), 4)],
            else_branch: vec![],
            line: 3,
        }]
    );
}

#[test]
fn a_condition_without_then_runs_to_the_end() {
    let p = parse("FUNCTION F\nIF a\nb\n");
    assert_eq!(
        p.functions[0].statements,
        vec![Statement::IfStmt {
            condition: var("a b"),
            then_branch: vec![],
            else_branch: vec![],
            line: 3,
        }]
    );
}

#[test]
fn open_conditionals_are_closed_with_the_routine() {
    let p = parse("FUNCTION F\nIF a THEN\n  X := 1;\n  IF b THEN\n    Y := 2;\nEND_FUNCTION\nFUNCTION G\n Z := 1;\n");
    assert_eq!(p.functions.len(), 2);
    assert_eq!(
        p.functions[0].statements,
        vec![Statement::IfStmt {
            condition: var("a"),
            then_branch: vec![
                assign("X", Expression::NumberLiteral(1, 3), 3),
                Statement::IfStmt {
                    condition: var("b"),
                    then_branch: vec![assign("Y", Expression::NumberLiteral(2, 5), 5)],
                    else_branch: vec![],
                    line: 4,
                },
            ],
            else_branch: vec![],
            line: 2,
        }]
    );
    assert_eq!(p.functions[1].name, "G");
    assert_eq!(p.functions[1].statements, vec![assign("Z", Expression::NumberLiteral(1, 8), 8)]);
}

#[test]
fn a_new_block_closes_the_open_one() {
    let p = parse("FUNCTION F\nX := 1;\nFUNCTION G\nY := 2;\n");
    assert_eq!(p.functions.len(), 2);
    assert_eq!(p.functions[0].statements.len(), 1);
    assert_eq!(p.functions[1].statements.len(), 1);
}

#[test]
fn statements_outside_routines_are_dropped() {
    let p = parse("X := 1;\nF(1);\nIF a THEN\nEND_IF;\n");
    assert_eq!(p.functions.len(), 0);
    let q = parse("");
    assert_eq!(q.functions.len(), 0);
}

#[test]
fn stray_else_and_end_if_change_nothing() {
    let p = parse("FUNCTION F\nELSE\nEND_IF;\nX := 1;\nEND_FUNCTION\n");
    assert_eq!(p.functions[0].statements, vec![assign("X", Expression::NumberLiteral(1, 4), 4)]);
}

#[test]
fn a_second_else_keeps_the_else_branch() {
    let p = parse("FUNCTION F\nIF a THEN\nX := 1;\nELSE\nX := 2;\nELSE\nX := 3;\nEND_IF;\nEND_FUNCTION\n");
    assert_eq!(
        p.functions[0].statements,
        vec![Statement::IfStmt {
            condition: var("a"),
            then_branch: vec![assign("X", Expression::NumberLiteral(1, 3), 3)],
            else_branch: vec![
                assign("X", Expression::NumberLiteral(2, 5), 5),
                assign("X", Expression::NumberLiteral(3, 7), 7),
            ],
            line: 2,
        }]
    );
}

#[test]
fn the_fallback_keeps_indexing() {
    let p = parse("FUNCTION F\nArr[Idx]\nnothing here\nEND_FUNCTION\n");
    assert_eq!(
        p.functions[0].statements,
        vec![Statement::Expr {
            expr: Expression::Index {
                base: Box::new(var("Arr")),
                index: Box::new(var("Idx")),
                line: 2,
            },
            line: 2,
        }]
    );
}

#[test]
fn assignments_trim_their_sides() {
    let p = parse("FUNCTION F\n  Motor.Run  :=  TRUE ;; \n A := ;\nEND_FUNCTION\n");
    assert_eq!(
        p.functions[0].statements,
        vec![
            assign("Motor.Run", Expression::BoolLiteral(true, 2), 2),
            assign("A", Expression::NumberLiteral(0, 3), 3),
        ]
    );
}

#[test]
fn windows_line_endings_are_read() {
    let p = parse("FUNCTION F\r\nX := 1;\r\nEND_FUNCTION\r\n");
    assert_eq!(p.functions[0].name, "F");
    assert_eq!(p.functions[0].statements, vec![assign("X", Expression::NumberLiteral(1, 2), 2)]);
}

#[test]
fn balanced_conditionals_round_trip() {
    fn count_ifs(stmts: &Vec<Statement>) -> usize {
        let mut n = 0;
        for s in stmts {
            if let Statement::IfStmt { then_branch, else_branch, .. } = s {
                n += 1 + count_ifs(then_branch) + count_ifs(else_branch);
            }
        }
        n
    }
    let p = parse(
        "FUNCTION F\nIF a THEN\nIF b THEN\nELSE\nIF c THEN\nEND_IF;\nEND_IF;\nELSE\nEND_IF;\nIF d THEN\nEND_IF;\nEND_FUNCTION\n",
    );
    assert_eq!(count_ifs(&p.functions[0].statements), 4);
    assert_eq!(p.functions[0].statements.len(), 2);
}

#[test]
fn text_outside_ascii_is_kept_as_it_is() {
    let p = parse("FUNCTION Füllstand\n  Höhe := Größe / 2; // halb\n  IF Überlauf THEN\n    Ventil\u{a0}:= TRUE;\n  END_IF;\nEND_FUNCTION\n");
    let f = &p.functions[0];
    assert_eq!(f.name, "Füllstand");
    assert_eq!(
        f.statements,
        vec![
            assign(
                "Höhe",
                Expression::BinaryOp {
                    op: BinOp::Div,
                    left: Box::new(var("Größe")),
                    right: Box::new(Expression::NumberLiteral(2, 2)),
                    line: 2,
                },
                2
            ),
            Statement::IfStmt {
                condition: var("Überlauf"),
                then_branch: vec![assign("Ventil", Expression::BoolLiteral(true, 4), 4)],
                else_branch: vec![],
                line: 3,
            },
        ]
    );
}

#[test]
fn a_long_source_is_read() {
    let mut src = String::from("FUNCTION F\n");
    for i in 0..2000 {
        src.push_str(&format!("IF a{} THEN\nX{} := {};\n", i, i, i));
    }
    for _ in 0..2000 {
        src.push_str("END_IF;\n");
    }
    src.push_str("END_FUNCTION\n");
    let p = parse(&src);
    assert_eq!(p.functions.len(), 1);
    assert_eq!(p.functions[0].statements.len(), 1);
    assert_eq!(plc_secure_checker::rules::rule1::cyclomatic_complexity(&p.functions[0].statements), 2001);
    assert_eq!(plc_secure_checker::rules::rule1::statement_count(&p.functions[0].statements), 4000);
}
