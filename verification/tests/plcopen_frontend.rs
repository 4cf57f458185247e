use plc_secure_checker::ast::{Expression, FunctionKind, Statement, Variable};
use plc_secure_checker::parser::plcopen::{
    kind_of_pou, names_word, parse_plcopen_from_str, parse_value, program_from_events,
    read_events, XmlAttribute, XmlEvent,
};

fn var(name: &str) -> Expression {
    Expression::VariableRef(name.to_string())
}

fn assign(target: &str, value: Expression) -> Statement {
    Statement::Assign { target: Variable { name: target.to_string() }, value, line: 0 }
}

fn call(name: &str) -> Statement {
    Statement::Call { name: name.to_string(), args: vec![], line: 0 }
}

fn attr(key: &str, value: &str) -> Option<XmlAttribute> {
    Some(XmlAttribute { key: key.as_bytes().to_vec(), value: Some(value.to_string()) })
}

fn start(name: &str, attributes: Vec<Option<XmlAttribute>>) -> XmlEvent {
    XmlEvent::Start { name: name.as_bytes().to_vec(), attributes }
}

fn end(name: &str) -> XmlEvent {
    XmlEvent::End(name.as_bytes().to_vec())
}

fn text(content: &str) -> XmlEvent {
    XmlEvent::Text(Ok(content.to_string()))
}

#[test]
fn words_match_in_any_case() {
    assert!(names_word(&b"POU".to_vec(), "pou"));
    assert!(names_word(&b"poutype".to_vec(), "pouType"));
    assert!(!names_word(&b"pou2".to_vec(), "pou"));
    assert!(!names_word(&b"po".to_vec(), "pou"));
    assert!(!names_word(&vec![0xC3, 0xA9, b'u'], "pou"));
}

#[test]
fn values_are_classified() {
    assert_eq!(parse_value("TRUE".to_string()), Expression::BoolLiteral(true, 0));
    assert_eq!(parse_value("false".to_string()), Expression::BoolLiteral(false, 0));
    assert_eq!(parse_value("17".to_string()), Expression::NumberLiteral(17, 0));
    assert_eq!(parse_value("-17".to_string()), var("-17"));
    assert_eq!(parse_value("Tank.Level".to_string()), var("Tank.Level"));
    assert_eq!(parse_value(" 1".to_string()), var(" 1"));
}

#[test]
fn kinds_follow_type_and_name() {
    assert_eq!(kind_of_pou("functionBlock", "OB1"), FunctionKind::FB);
    assert_eq!(kind_of_pou("program", "Startup_OB100"), FunctionKind::OB100);
    assert_eq!(kind_of_pou("PROGRAM", "ob86"), FunctionKind::OB86);
    assert_eq!(kind_of_pou("program", "Main"), FunctionKind::OB);
    assert_eq!(kind_of_pou("function", "OB1"), FunctionKind::FC);
    assert_eq!(kind_of_pou("", "OB1"), FunctionKind::FC);
}

#[test]
fn a_document_becomes_a_program() {
    let src = r#"<?xml version="1.0" encoding="utf-8"?>
<project>
  <pou name="Main_OB1" pouType="program">
    <body>
      <block name="TON"></block>
      <block name="Ignored_Empty"/>
      <block></block>
      <variable name="HMI_Speed"><value>42</value></variable>
      <variable name="Run"><value> true </value></variable>
      <variable name="Ref"><value>Other &amp; Var</value></variable>
    </body>
  </pou>
  <pou name="FB_Pump" pouType="functionBlock">
  </pou>
</project>"#;
    let p = parse_plcopen_from_str(src).unwrap();
    assert_eq!(p.functions.len(), 2);
    assert_eq!(p.functions[0].name, "Main_OB1");
    assert_eq!(p.functions[0].kind, FunctionKind::OB1);
    assert_eq!(p.functions[0].line, 0);
    assert_eq!(
        p.functions[0].statements,
        vec![
            call("TON"),
            call("Block"),
            assign("HMI_Speed", Expression::NumberLiteral(42, 0)),
            assign("Run", Expression::BoolLiteral(true, 0)),
            assign("Ref", var("Other & Var")),
        ]
    );
    assert_eq!(p.functions[1].name, "FB_Pump");
    assert_eq!(p.functions[1].kind, FunctionKind::FB);
    assert!(p.functions[1].statements.is_empty());
}

#[test]
fn the_reader_yields_the_events_of_the_text() {
    let events = read_events(r#"<pou name="A&lt;B" x='1'>hi<!-- c --></pou>"#);
    assert_eq!(
        events,
        vec![
            start("pou", vec![attr("name", "A<B"), attr("x", "1")]),
            text("hi"),
            XmlEvent::Other,
            end("pou"),
            XmlEvent::Eof,
        ]
    );
    assert_eq!(read_events(""), vec![XmlEvent::Eof]);
}

#[test]
fn a_malformed_attribute_is_passed_over() {
    let events = read_events(r#"<pou name pouType="program">"#);
    assert_eq!(events.len(), 2);
    match &events[0] {
        XmlEvent::Start { attributes, .. } => {
            assert!(attributes.iter().any(|a| a.is_none()));
        }
        _ => panic!("a start tag was expected"),
    }
}

#[test]
fn an_attribute_that_cannot_be_unescaped_has_no_value() {
    let p = parse_plcopen_from_str(r#"<pou name="&bogus;" pouType="program"></pou>"#).unwrap();
    assert_eq!(p.functions[0].name, "Unnamed");
    assert_eq!(p.functions[0].kind, FunctionKind::OB);
}

#[test]
fn the_kind_does_not_depend_on_the_order_of_the_attributes() {
    let p = parse_plcopen_from_str(r#"<pou pouType="program" name="OB100"></pou>"#).unwrap();
    assert_eq!(p.functions.len(), 1);
    assert_eq!(p.functions[0].name, "OB100");
    assert_eq!(p.functions[0].kind, FunctionKind::OB100);
    assert!(p.functions[0].statements.is_empty());
    assert_eq!(p.functions[0].line, 0);
    let q = parse_plcopen_from_str(r#"<pou name="OB100" pouType="program"></pou>"#).unwrap();
    assert_eq!(q.functions[0].kind, FunctionKind::OB100);
    assert_eq!(q, p);
}

#[test]
fn the_last_attribute_of_a_key_decides() {
    let events = vec![
        start(
            "pou",
            vec![
                attr("pouType", "functionBlock"),
                attr("name", "First"),
                attr("pouType", "program"),
                attr("name", "Late_OB86"),
            ],
        ),
        end("pou"),
        XmlEvent::Eof,
    ];
    let p = program_from_events(&events).unwrap();
    assert_eq!(p.functions[0].name, "Late_OB86");
    assert_eq!(p.functions[0].kind, FunctionKind::OB86);
    let events = vec![
        start(
            "pou",
            vec![Some(XmlAttribute { key: b"pouType".to_vec(), value: None }), attr("name", "OB1")],
        ),
        end("pou"),
    ];
    let p = program_from_events(&events).unwrap();
    assert_eq!(p.functions[0].kind, FunctionKind::FC);
}

#[test]
fn a_routine_without_attributes_is_an_unnamed_function() {
    let p = parse_plcopen_from_str("<pou></pou>").unwrap();
    assert_eq!(p.functions[0].name, "Unnamed");
    assert_eq!(p.functions[0].kind, FunctionKind::FC);
}

#[test]
fn a_routine_that_is_not_closed_is_left_out() {
    let p = parse_plcopen_from_str(r#"<pou name="A"><block name="B">"#).unwrap();
    assert!(p.functions.is_empty());
}

#[test]
fn xml_statements_outside_routines_are_dropped() {
    let p = parse_plcopen_from_str(
        r#"<block name="B"></block><variable name="v"><value>1</value></variable>"#,
    )
    .unwrap();
    assert!(p.functions.is_empty());
}

#[test]
fn a_variable_without_value_reads_on_to_the_next_value() {
    let p = parse_plcopen_from_str(
        r#"<pou name="A"><variable name="v"></variable><block name="Lost"></block><variable name="w"><value>7</value></variable><block name="Kept"></block></pou>"#,
    )
    .unwrap();
    assert_eq!(
        p.functions[0].statements,
        vec![assign("v", Expression::NumberLiteral(7, 0)), call("Kept")]
    );
}

#[test]
fn a_value_without_text_gives_no_statement() {
    let p = parse_plcopen_from_str(
        r#"<pou name="A"><variable name="v"><value></value></variable></pou>"#,
    )
    .unwrap();
    assert!(p.functions.is_empty());
}

#[test]
fn a_syntax_error_is_the_only_failure() {
    let e = parse_plcopen_from_str("<pou name=\"A\"></block>").unwrap_err();
    assert!(e.starts_with("XML parse error: "));
    assert!(e.len() > "XML parse error: ".len());
    let e = parse_plcopen_from_str("<pou name=\"A\"><variable name=\"v\"><value>1</wrong>").unwrap_err();
    assert!(e.starts_with("XML parse error: "));
    let e = parse_plcopen_from_str("<pou").unwrap_err();
    assert!(e.starts_with("XML parse error: "));
}

#[test]
fn text_that_cannot_be_unescaped_fails_inside_a_value_only() {
    let e = parse_plcopen_from_str(
        r#"<pou name="A"><variable name="v"><value>&bogus;</value></variable></pou>"#,
    )
    .unwrap_err();
    assert!(!e.is_empty());
    assert!(!e.starts_with("XML parse error: "));
    let p = parse_plcopen_from_str(r#"<pou name="A">&bogus;</pou>"#).unwrap();
    assert_eq!(p.functions.len(), 1);
}

#[test]
fn events_are_read_as_the_model_says() {
    let events = vec![
        start("POU", vec![None, attr("NAME", "Ob82_Diag"), attr("pouType", "Program")]),
        start("block", vec![attr("name", "First"), attr("name", "Second")]),
        end("block"),
        start("variable", vec![attr("name", "Out")]),
        start("other", vec![]),
        start("value", vec![]),
        text("Left"),
        XmlEvent::Other,
        text("Right"),
        end("value"),
        end("variable"),
        end("pou"),
        XmlEvent::Eof,
    ];
    let p = program_from_events(&events).unwrap();
    assert_eq!(p.functions.len(), 1);
    assert_eq!(p.functions[0].name, "Ob82_Diag");
    assert_eq!(p.functions[0].kind, FunctionKind::OB82);
    assert_eq!(p.functions[0].statements, vec![call("Second"), assign("Out", var("LeftRight"))]);
}

#[test]
fn events_after_the_end_are_not_read() {
    let events = vec![start("pou", vec![]), XmlEvent::Eof, end("pou")];
    let p = program_from_events(&events).unwrap();
    assert!(p.functions.is_empty());
    let none: Vec<XmlEvent> = vec![];
    assert!(program_from_events(&none).unwrap().functions.is_empty());
}

#[test]
fn errors_among_events_are_reported() {
    let events = vec![start("pou", vec![]), XmlEvent::Failed("boom".to_string())];
    assert_eq!(program_from_events(&events).unwrap_err(), "XML parse error: boom");
    let events = vec![
        start("variable", vec![attr("name", "v")]),
        XmlEvent::Failed("inner".to_string()),
    ];
    assert_eq!(program_from_events(&events).unwrap_err(), "XML parse error: inner");
    let events = vec![
        start("variable", vec![attr("name", "v")]),
        start("value", vec![]),
        XmlEvent::Failed("deep".to_string()),
    ];
    assert_eq!(program_from_events(&events).unwrap_err(), "XML parse error: deep");
    let events = vec![
        start("variable", vec![attr("name", "v")]),
        start("value", vec![]),
        XmlEvent::Text(Err("bad escape".to_string())),
    ];
    assert_eq!(program_from_events(&events).unwrap_err(), "bad escape");
    let events = vec![XmlEvent::Text(Err("ignored".to_string())), XmlEvent::Eof];
    assert!(program_from_events(&events).is_ok());
}

#[test]
fn a_new_routine_replaces_the_open_one() {
    let events = vec![
        start("pou", vec![attr("name", "A")]),
        start("pou", vec![attr("name", "B")]),
        end("pou"),
        end("pou"),
    ];
    let p = program_from_events(&events).unwrap();
    assert_eq!(p.functions.len(), 1);
    assert_eq!(p.functions[0].name, "B");
}

#[test]
fn a_variable_without_name_gives_no_statement() {
    let events = vec![
        start("pou", vec![]),
        start("variable", vec![attr("id", "1")]),
        start("value", vec![]),
        text("1"),
        end("value"),
        end("variable"),
        end("pou"),
    ];
    let p = program_from_events(&events).unwrap();
    assert!(p.functions[0].statements.is_empty());
    let events = vec![
        start("pou", vec![]),
        start(
            "variable",
            vec![Some(XmlAttribute { key: b"name".to_vec(), value: None })],
        ),
        start("value", vec![]),
        text("1"),
        end("value"),
        end("variable"),
        end("pou"),
    ];
    let p = program_from_events(&events).unwrap();
    assert_eq!(p.functions[0].statements, vec![assign("Var", Expression::NumberLiteral(1, 0))]);
}

#[test]
fn reading_runs_to_the_end_or_to_the_first_error() {
    for src in ["", "x", "<a>", "<a></a>", "<a></b><c></c>", "<", "<a><b>text</b><!-- c --></a>  "] {
        let events = read_events(src);
        assert!(!events.is_empty());
        assert!(events.len() <= src.len() + 1);
        let last = events.len() - 1;
        for (i, e) in events.iter().enumerate() {
            let ends = matches!(e, XmlEvent::Eof | XmlEvent::Failed(_));
            assert_eq!(ends, i == last);
        }
    }
    assert!(matches!(read_events("<a></b><c></c>").last(), Some(XmlEvent::Failed(_))));
    assert!(matches!(read_events("<a></a>").last(), Some(XmlEvent::Eof)));
}
