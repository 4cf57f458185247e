//! The frontend for PLCopen XML: the events that the XML reader yields are
//! gathered first, then turned into routines, calls and assignments.

use crate::ast::{
    args_view, Expression, ExprModel, Function, FunctionKind, FunctionModel, functions_view,
    lemma_functions_view_push, lemma_stmts_view_push, Program, ProgramModel, Statement, StmtModel,
    stmts_view, Variable,
};
use crate::parser::{classify_literal, kind_of_name, literal_of, organisation_kind};
use crate::text::{chars_of, contains, contains_str, to_upper, to_upper_char, upper, upper_char};
use quick_xml::events::Event::{End, Eof, Start, Text};
use quick_xml::Reader;
use vstd::prelude::*;
use vstd::string::{StringExecFns, StringSliceAdditionalSpecFns};

verus! {

/// One attribute of a start tag: its key as the source spells it, and its
/// value with the escapes resolved, `None` where they cannot be.
#[derive(Debug, Clone, PartialEq, Eq)]
pub struct XmlAttribute {
    pub key: Vec<u8>,
    pub value: Option<String>,
}

/// What the frontend reads of one event of the XML reader.
#[derive(Debug, PartialEq, Eq)]
pub enum XmlEvent {
    /// A start tag, with its attributes in order; `None` stands for an
    /// attribute that is malformed.
    Start { name: Vec<u8>, attributes: Vec<Option<XmlAttribute>> },
    /// An end tag, by its name.
    End(Vec<u8>),
    /// Character data with the escapes resolved, or why they cannot be.
    Text(Result<String, String>),
    /// The end of the document.
    Eof,
    /// Any other event: an empty element, a comment, a declaration.
    Other,
    /// An error of the reader, by its message.
    Failed(String),
}

/// The streaming reader of `quick_xml`.
#[verifier::external_type_specification]
#[verifier::external_body]
#[verifier::reject_recursive_types(R)]
pub struct ExReader<R>(Reader<R>);

/// The text that a reader was opened on.
pub uninterp spec fn reader_text(reader: Reader<&[u8]>) -> Seq<char>;

/// The number of events that have been read of a reader.
pub uninterp spec fn reader_position(reader: Reader<&[u8]>) -> nat;

/// The event that the reader of `quick_xml` yields at read `k` of a text, in
/// the form that the frontend reads; reads are counted from 0, and the
/// reader trims the text between tags.
pub uninterp spec fn xml_event(src: Seq<char>, k: nat) -> XmlEvent;

/// `Reader::from_str`, with `trim_text` switched on: a reader on the given
/// text, of which nothing has been read.
#[verifier::external_body]
fn open_reader<'a>(src: &'a str) -> (reader: Reader<&'a [u8]>)
    ensures
        reader_text(reader) == src@,
        reader_position(reader) == 0,
{
    let mut reader = Reader::from_str(src);
    reader.config_mut().trim_text(true);
    reader
}

/// `Reader::read_event`, and the event in the form that the frontend reads:
/// the name of a tag by `name`; the attributes of a start tag by
/// `attributes`, each value by `Attribute::unescape_value`; character data
/// by `BytesText::unescape`; an error by its `Display`. What comes depends
/// on the reader's text and on the number of reads before alone; the claim
/// is that it is the event of that text at that read, and that the reader
/// has then made one read more of the same text.
#[verifier::external_body]
fn next_event(reader: &mut Reader<&[u8]>) -> (event: XmlEvent)
    ensures
        event == xml_event(reader_text(*old(reader)), reader_position(*old(reader))),
        reader_text(*final(reader)) == reader_text(*old(reader)),
        reader_position(*final(reader)) == reader_position(*old(reader)) + 1,
{
    match reader.read_event() {
        Ok(Start(e)) => XmlEvent::Start {
            name: e.name().0.into(),
            attributes: e.attributes().map(|a| a.ok().map(|a| XmlAttribute {
                key: a.key.0.into(),
                value: a.unescape_value().ok().map(Into::into),
            })).collect(),
        },
        Ok(End(e)) => XmlEvent::End(e.name().0.into()),
        Ok(Text(t)) => XmlEvent::Text(t.unescape().map(Into::into).map_err(|e| e.to_string())),
        Ok(Eof) => XmlEvent::Eof,
        Ok(_) => XmlEvent::Other,
        Err(e) => XmlEvent::Failed(e.to_string()),
    }
}

/// Whether a tag or key is the given word, whatever the case of its ASCII
/// letters.
pub open spec fn is_word(name: Seq<u8>, word: Seq<char>) -> bool {
    name.len() == word.len() && forall|i: int|
        0 <= i < name.len() ==> upper_char(#[trigger] name[i] as char) == upper_char(word[i])
}

/// Whether a tag or key is the given word, whatever the case of its ASCII
/// letters.
pub fn names_word(name: &Vec<u8>, word: &str) -> (r: bool)
    ensures
        r == is_word(name@, word@),
{
    let w = chars_of(word);
    if name.len() != w.len() {
        return false;
    }
    let mut i: usize = 0;
    while i < name.len()
        invariant
            i <= name.len(),
            name.len() == w.len(),
            w@ == word@,
            forall|j: int|
                0 <= j < i ==> upper_char(#[trigger] name@[j] as char) == upper_char(w@[j]),
        decreases name.len() - i,
    {
        if to_upper_char(name[i] as char) != to_upper_char(w[i]) {
            return false;
        }
        i += 1;
    }
    true
}

/// The model of the frontend's state between two events: the routines that
/// are complete, and the routine that is open.
pub struct PlcState {
    pub functions: Seq<FunctionModel>,
    pub current: Option<FunctionModel>,
}

/// The expression that the text of a value writes: a literal or a name.
/// Its line is 0.
pub open spec fn value_of(text: Seq<char>) -> ExprModel {
    literal_of(text, 0)
}

/// The kind of a routine, by its type attribute and by the name that has
/// been read for it before.
pub open spec fn pou_kind(pou_type: Seq<char>, name: Seq<char>) -> FunctionKind {
    let t = upper(pou_type);
    if contains(t, "FUNCTIONBLOCK"@) {
        FunctionKind::FB
    } else if contains(t, "PROGRAM"@) {
        organisation_kind(name)
    } else {
        FunctionKind::FC
    }
}

/// The value of an attribute as text, or the given text where the value
/// cannot be read.
pub open spec fn value_or(a: XmlAttribute, fallback: Seq<char>) -> Seq<char> {
    match a.value {
        Some(v) => v@,
        None => fallback,
    }
}

/// The value of the last attribute with the given key, with `fallback`
/// where the value cannot be read; `None` where there is no such attribute.
/// Malformed attributes are passed over.
pub open spec fn attribute_value(
    attributes: Seq<Option<XmlAttribute>>,
    key: Seq<char>,
    fallback: Seq<char>,
) -> Option<Seq<char>>
    decreases attributes.len(),
{
    if attributes.len() == 0 {
        None
    } else {
        match attributes.last() {
            Some(a) => if is_word(a.key@, key) {
                Some(value_or(a, fallback))
            } else {
                attribute_value(attributes.drop_last(), key, fallback)
            },
            None => attribute_value(attributes.drop_last(), key, fallback),
        }
    }
}

/// The value of the last attribute `name`, with `fallback` where it cannot
/// be read; `None` where there is no such attribute.
pub open spec fn name_attribute(
    attributes: Seq<Option<XmlAttribute>>,
    fallback: Seq<char>,
) -> Option<Seq<char>> {
    attribute_value(attributes, "name"@, fallback)
}

/// The name and the kind that the attributes of a routine's start tag
/// give, in whatever order they stand: the name is that of the attribute
/// `name`, and `Unnamed` without it; the kind follows from the attribute
/// `pouType` and the name, and is a function without it.
pub open spec fn pou_header(attributes: Seq<Option<XmlAttribute>>) -> (Seq<char>, FunctionKind) {
    let name = match name_attribute(attributes, "Unnamed"@) {
        Some(n) => n,
        None => "Unnamed"@,
    };
    let kind = match attribute_value(attributes, "pouType"@, Seq::empty()) {
        Some(t) => pou_kind(t, name),
        None => FunctionKind::FC,
    };
    (name, kind)
}

/// The state with one more statement in the open routine; outside any
/// routine the statement is dropped.
pub open spec fn plc_with_stmt(s: PlcState, st: StmtModel) -> PlcState {
    PlcState { current: current_with(s.current, st), ..s }
}

/// The open routine, if there is one, with one more statement.
pub open spec fn current_with(
    current: Option<FunctionModel>,
    st: StmtModel,
) -> Option<FunctionModel> {
    match current {
        Some(f) => Some(FunctionModel { statements: f.statements.push(st), ..f }),
        None => None,
    }
}

/// What an optional text holds: `None` for the empty text.
pub open spec fn some_text(t: Seq<char>) -> Option<Seq<char>> {
    if t.len() == 0 {
        None
    } else {
        Some(t)
    }
}

/// The message for an error of the reader.
pub open spec fn reader_error(message: Seq<char>) -> Seq<char> {
    "XML parse error: "@ + message
}

/// The text of the element whose start tag has just been read: the
/// character data up to the next end tag or the end of the document, `out`
/// being what has been gathered before event `pos`. With it comes the number
/// of events read.
pub open spec fn element_text(
    events: Seq<XmlEvent>,
    pos: int,
    out: Seq<char>,
) -> (Result<Option<Seq<char>>, Seq<char>>, int)
    decreases events.len() - pos,
{
    if 0 <= pos < events.len() {
        match events[pos] {
            XmlEvent::Text(Ok(t)) => element_text(events, pos + 1, out + t@),
            XmlEvent::Text(Err(m)) => (Err(m@), pos + 1),
            XmlEvent::End(_) => (Ok(some_text(out)), pos + 1),
            XmlEvent::Eof => (Ok(some_text(out)), pos + 1),
            XmlEvent::Failed(message) => (Err(reader_error(message@)), pos + 1),
            _ => element_text(events, pos + 1, out),
        }
    } else {
        (Ok(some_text(out)), pos)
    }
}

/// Reading the text of an element moves forward, and not beyond the events.
pub proof fn lemma_element_text_bounds(events: Seq<XmlEvent>, pos: int, out: Seq<char>)
    requires
        0 <= pos <= events.len(),
    ensures
        pos <= element_text(events, pos, out).1 <= events.len(),
    decreases events.len() - pos,
{
    if pos < events.len() {
        match events[pos] {
            XmlEvent::Text(Ok(t)) => lemma_element_text_bounds(
                events,
                pos + 1,
                out + t@,
            ),
            XmlEvent::Text(Err(m)) => {},
            XmlEvent::End(_) => {},
            XmlEvent::Eof => {},
            XmlEvent::Failed(message) => {},
            _ => lemma_element_text_bounds(events, pos + 1, out),
        }
    }
}

/// The value text of the variable whose start tag has just been read, and
/// the number of events read: each `value` element sets it to its text, and
/// the first end tag after it is set ends the variable, as does the end of
/// the document.
pub open spec fn variable_value(
    events: Seq<XmlEvent>,
    pos: int,
    value: Option<Seq<char>>,
) -> (Result<Option<Seq<char>>, Seq<char>>, int)
    decreases events.len() - pos,
    via variable_value_decreases
{
    if 0 <= pos < events.len() {
        match events[pos] {
            XmlEvent::Start { name, .. } => if is_word(name@, "value"@) {
                let (text, next) = element_text(events, pos + 1, Seq::empty());
                match text {
                    Ok(v) => variable_value(events, next, v),
                    Err(m) => (Err(m), next),
                }
            } else {
                variable_value(events, pos + 1, value)
            },
            XmlEvent::End(_) => if value is Some {
                (Ok(value), pos + 1)
            } else {
                variable_value(events, pos + 1, value)
            },
            XmlEvent::Eof => (Ok(value), pos + 1),
            XmlEvent::Failed(message) => (Err(reader_error(message@)), pos + 1),
            _ => variable_value(events, pos + 1, value),
        }
    } else {
        (Ok(value), pos)
    }
}

#[via_fn]
proof fn variable_value_decreases(events: Seq<XmlEvent>, pos: int, value: Option<Seq<char>>) {
    if 0 <= pos < events.len() {
        lemma_element_text_bounds(events, pos + 1, Seq::empty());
    }
}

/// Reading the value of a variable moves forward, and not beyond the events.
pub proof fn lemma_variable_value_bounds(events: Seq<XmlEvent>, pos: int, value: Option<Seq<char>>)
    requires
        0 <= pos <= events.len(),
    ensures
        pos <= variable_value(events, pos, value).1 <= events.len(),
    decreases events.len() - pos,
{
    if pos < events.len() {
        match events[pos] {
            XmlEvent::Start { name, .. } => {
                if is_word(name@, "value"@) {
                    lemma_element_text_bounds(events, pos + 1, Seq::empty());
                    let (text, next) = element_text(events, pos + 1, Seq::empty());
                    match text {
                        Ok(v) => lemma_variable_value_bounds(events, next, v),
                        Err(m) => {},
                    }
                } else {
                    lemma_variable_value_bounds(events, pos + 1, value);
                }
            },
            XmlEvent::End(_) => {
                if value is None {
                    lemma_variable_value_bounds(events, pos + 1, value);
                }
            },
            XmlEvent::Eof => {},
            XmlEvent::Failed(message) => {},
            _ => lemma_variable_value_bounds(events, pos + 1, value),
        }
    }
}

/// The routines that the events from `pos` on complete, `s` being the state
/// before event `pos`, or the message of the first error. A routine's start
/// tag opens a routine in place of the one that is open; its end tag
/// completes the open routine. A block's start tag adds a call, a variable
/// with a name and a value adds an assignment. The end of the document ends
/// the reading, and a routine that is still open then is left out.
pub open spec fn plc_run(
    events: Seq<XmlEvent>,
    pos: int,
    s: PlcState,
) -> Result<Seq<FunctionModel>, Seq<char>>
    decreases events.len() - pos,
    via plc_run_decreases
{
    if 0 <= pos < events.len() {
        match events[pos] {
            XmlEvent::Eof => Ok(s.functions),
            XmlEvent::Failed(message) => Err(reader_error(message@)),
            XmlEvent::Start { name, attributes } => if is_word(name@, "pou"@) {
                let (fname, kind) = pou_header(attributes@);
                plc_run(
                    events,
                    pos + 1,
                    PlcState {
                        current: Some(
                            FunctionModel {
                                name: fname,
                                kind,
                                statements: Seq::empty(),
                                line: 0,
                            },
                        ),
                        ..s
                    },
                )
            } else if is_word(name@, "block"@) {
                let callee = match name_attribute(attributes@, "Block"@) {
                    Some(n) => n,
                    None => "Block"@,
                };
                plc_run(
                    events,
                    pos + 1,
                    plc_with_stmt(s, StmtModel::Call { name: callee, args: Seq::empty(), line: 0 }),
                )
            } else if is_word(name@, "variable"@) {
                let (value, next) = variable_value(events, pos + 1, None);
                match value {
                    Err(m) => Err(m),
                    Ok(v) => plc_run(
                        events,
                        next,
                        match (name_attribute(attributes@, "Var"@), v) {
                            (Some(target), Some(text)) => plc_with_stmt(
                                s,
                                StmtModel::Assign { target, value: value_of(text), line: 0 },
                            ),
                            _ => s,
                        },
                    ),
                }
            } else {
                plc_run(events, pos + 1, s)
            },
            XmlEvent::End(name) => if is_word(name@, "pou"@) {
                match s.current {
                    Some(f) => plc_run(
                        events,
                        pos + 1,
                        PlcState { functions: s.functions.push(f), current: None },
                    ),
                    None => plc_run(events, pos + 1, s),
                }
            } else {
                plc_run(events, pos + 1, s)
            },
            _ => plc_run(events, pos + 1, s),
        }
    } else {
        Ok(s.functions)
    }
}

#[via_fn]
proof fn plc_run_decreases(events: Seq<XmlEvent>, pos: int, s: PlcState) {
    if 0 <= pos < events.len() {
        lemma_variable_value_bounds(events, pos + 1, None);
    }
}

/// The program that a sequence of events writes, or the message of the
/// first error among them.
pub open spec fn plc_program(events: Seq<XmlEvent>) -> Result<ProgramModel, Seq<char>> {
    match plc_run(events, 0, PlcState { functions: Seq::empty(), current: None }) {
        Ok(functions) => Ok(ProgramModel { functions }),
        Err(m) => Err(m),
    }
}

/// Whether a result is the one that the model gives.
pub open spec fn result_is(r: Result<Program, String>, m: Result<ProgramModel, Seq<char>>) -> bool {
    match (r, m) {
        (Ok(p), Ok(pm)) => p@ == pm,
        (Err(e), Err(em)) => e@ == em,
        _ => false,
    }
}

spec fn text_result_is(
    r: Result<Option<String>, String>,
    m: Result<Option<Seq<char>>, Seq<char>>,
) -> bool {
    match (r, m) {
        (Ok(Some(t)), Ok(Some(tm))) => t@ == tm,
        (Ok(None), Ok(None)) => true,
        (Err(e), Err(em)) => e@ == em,
        _ => false,
    }
}

fn reader_error_of(message: &String) -> (r: String)
    ensures
        r@ == reader_error(message@),
{
    let mut r = "XML parse error: ".to_owned();
    r.append(message.as_str());
    r
}

fn some_text_of(out: String) -> (r: Option<String>)
    ensures
        match r {
            Some(t) => some_text(out@) == Some(t@),
            None => some_text(out@) is None,
        },
{
    if out.as_str().is_empty() {
        None
    } else {
        Some(out)
    }
}

fn read_element_text(
    events: &Vec<XmlEvent>,
    start: usize,
) -> (r: (Result<Option<String>, String>, usize))
    requires
        start <= events.len(),
    ensures
        text_result_is(r.0, element_text(events@, start as int, Seq::empty()).0),
        r.1 == element_text(events@, start as int, Seq::empty()).1,
        start <= r.1 <= events.len(),
{
    let mut out = String::new();
    let mut pos: usize = start;
    while pos < events.len()
        invariant
            start <= pos <= events.len(),
            element_text(events@, start as int, Seq::empty()) == element_text(
                events@,
                pos as int,
                out@,
            ),
        decreases events.len() - pos,
    {
        match &events[pos] {
            XmlEvent::Text(Ok(t)) => {
                out.append(t.as_str());
            },
            XmlEvent::Text(Err(m)) => {
                return (Err(m.clone()), pos + 1);
            },
            XmlEvent::End(_) => {
                return (Ok(some_text_of(out)), pos + 1);
            },
            XmlEvent::Eof => {
                return (Ok(some_text_of(out)), pos + 1);
            },
            XmlEvent::Failed(message) => {
                return (Err(reader_error_of(message)), pos + 1);
            },
            _ => {},
        }
        pos += 1;
    }
    (Ok(some_text_of(out)), pos)
}

spec fn option_text(o: Option<String>) -> Option<Seq<char>> {
    match o {
        Some(t) => Some(t@),
        None => None,
    }
}

fn read_variable_value(
    events: &Vec<XmlEvent>,
    start: usize,
) -> (r: (Result<Option<String>, String>, usize))
    requires
        start <= events.len(),
    ensures
        text_result_is(r.0, variable_value(events@, start as int, None).0),
        r.1 == variable_value(events@, start as int, None).1,
        start <= r.1 <= events.len(),
{
    let mut value: Option<String> = None;
    let mut pos: usize = start;
    while pos < events.len()
        invariant
            start <= pos <= events.len(),
            variable_value(events@, start as int, None) == variable_value(
                events@,
                pos as int,
                option_text(value),
            ),
        decreases events.len() - pos,
    {
        match &events[pos] {
            XmlEvent::Start { name, .. } => {
                if names_word(name, "value") {
                    let (text, next) = read_element_text(events, pos + 1);
                    match text {
                        Ok(v) => {
                            value = v;
                            pos = next;
                        },
                        Err(m) => {
                            return (Err(m), next);
                        },
                    }
                } else {
                    pos += 1;
                }
            },
            XmlEvent::End(_) => {
                if value.is_some() {
                    return (Ok(value), pos + 1);
                }
                pos += 1;
            },
            XmlEvent::Eof => {
                return (Ok(value), pos + 1);
            },
            XmlEvent::Failed(message) => {
                return (Err(reader_error_of(message)), pos + 1);
            },
            _ => {
                pos += 1;
            },
        }
    }
    (Ok(value), pos)
}

/// The expression that the text of a value writes.
pub fn parse_value(text: String) -> (r: Expression)
    ensures
        r@ == value_of(text@),
{
    classify_literal(&chars_of(text.as_str()), 0)
}

/// The kind of a routine, by its type attribute and its name.
pub fn kind_of_pou(pou_type: &str, name: &str) -> (k: FunctionKind)
    ensures
        k == pou_kind(pou_type@, name@),
{
    let t = to_upper(&chars_of(pou_type));
    if contains_str(&t, "FUNCTIONBLOCK") {
        FunctionKind::FB
    } else if contains_str(&t, "PROGRAM") {
        kind_of_name(&chars_of(name))
    } else {
        FunctionKind::FC
    }
}

fn value_or_default(a: &XmlAttribute, fallback: &str) -> (r: String)
    ensures
        r@ == value_or(*a, fallback@),
{
    match &a.value {
        Some(v) => v.clone(),
        None => fallback.to_owned(),
    }
}

fn read_attribute(
    attributes: &Vec<Option<XmlAttribute>>,
    key: &str,
    fallback: &str,
) -> (r: Option<String>)
    ensures
        option_text(r) == attribute_value(attributes@, key@, fallback@),
{
    let mut r: Option<String> = None;
    let mut i: usize = 0;
    while i < attributes.len()
        invariant
            i <= attributes.len(),
            option_text(r) == attribute_value(attributes@.take(i as int), key@, fallback@),
        decreases attributes.len() - i,
    {
        assert(attributes@.take(i as int + 1).drop_last() =~= attributes@.take(i as int));
        match &attributes[i] {
            Some(a) => {
                if names_word(&a.key, key) {
                    r = Some(value_or_default(a, fallback));
                }
            },
            None => {},
        }
        i += 1;
    }
    assert(attributes@.take(attributes.len() as int) =~= attributes@);
    r
}

fn read_name_attribute(
    attributes: &Vec<Option<XmlAttribute>>,
    fallback: &str,
) -> (r: Option<String>)
    ensures
        option_text(r) == name_attribute(attributes@, fallback@),
{
    read_attribute(attributes, "name", fallback)
}

fn read_pou_header(attributes: &Vec<Option<XmlAttribute>>) -> (r: (String, FunctionKind))
    ensures
        (r.0@, r.1) == pou_header(attributes@),
{
    let name = match read_name_attribute(attributes, "Unnamed") {
        Some(n) => n,
        None => "Unnamed".to_owned(),
    };
    proof {
        reveal_strlit("");
        assert(""@ =~= Seq::<char>::empty());
    }
    let kind = match read_attribute(attributes, "pouType", "") {
        Some(t) => kind_of_pou(t.as_str(), name.as_str()),
        None => FunctionKind::FC,
    };
    (name, kind)
}

spec fn current_view(c: Option<Function>) -> Option<FunctionModel> {
    match c {
        Some(f) => Some(f@),
        None => None,
    }
}

fn add_stmt(current: &mut Option<Function>, st: Statement)
    ensures
        current_view(*final(current)) == current_with(current_view(*old(current)), st@),
{
    if let Some(mut f) = current.take() {
        proof {
            lemma_stmts_view_push(f.statements@, st);
        }
        f.statements.push(st);
        *current = Some(f);
    }
}

/// The program that a sequence of reader events writes, or the message of
/// the first error among them.
#[verifier::loop_isolation(false)]
pub fn program_from_events(events: &Vec<XmlEvent>) -> (r: Result<Program, String>)
    ensures
        result_is(r, plc_program(events@)),
{
    let mut functions: Vec<Function> = Vec::new();
    let mut current: Option<Function> = None;
    let ghost start = PlcState { functions: Seq::empty(), current: None };
    assert(functions_view(functions@) =~= Seq::empty());
    let mut pos: usize = 0;
    while pos < events.len()
        invariant
            pos <= events.len(),
            plc_run(events@, 0, start) == plc_run(
                events@,
                pos as int,
                PlcState { functions: functions_view(functions@), current: current_view(current) },
            ),
        decreases events.len() - pos,
    {
        let ghost here = PlcState {
            functions: functions_view(functions@),
            current: current_view(current),
        };
        match &events[pos] {
            XmlEvent::Eof => {
                return Ok(Program { functions });
            },
            XmlEvent::Failed(message) => {
                return Err(reader_error_of(message));
            },
            XmlEvent::Start { name, attributes } => {
                if names_word(name, "pou") {
                    let (fname, kind) = read_pou_header(attributes);
                    assert(stmts_view(Seq::<Statement>::empty()) =~= Seq::empty());
                    current = Some(Function { name: fname, kind, statements: Vec::new(), line: 0 });
                    pos += 1;
                } else if names_word(name, "block") {
                    let callee = match read_name_attribute(attributes, "Block") {
                        Some(n) => n,
                        None => "Block".to_owned(),
                    };
                    assert(args_view(Seq::<(String, Expression)>::empty()) =~= Seq::empty());
                    add_stmt(
                        &mut current,
                        Statement::Call { name: callee, args: Vec::new(), line: 0 },
                    );
                    pos += 1;
                } else if names_word(name, "variable") {
                    let (value, next) = read_variable_value(events, pos + 1);
                    match value {
                        Err(m) => {
                            return Err(m);
                        },
                        Ok(v) => {
                            match (read_name_attribute(attributes, "Var"), v) {
                                (Some(target), Some(text)) => {
                                    add_stmt(
                                        &mut current,
                                        Statement::Assign {
                                            target: Variable { name: target },
                                            value: parse_value(text),
                                            line: 0,
                                        },
                                    );
                                },
                                _ => {},
                            }
                            pos = next;
                        },
                    }
                } else {
                    pos += 1;
                }
            },
            XmlEvent::End(name) => {
                if names_word(name, "pou") {
                    if let Some(f) = current.take() {
                        proof {
                            lemma_functions_view_push(functions@, f);
                        }
                        functions.push(f);
                    }
                }
                pos += 1;
            },
            _ => {
                pos += 1;
            },
        }
    }
    Ok(Program { functions })
}

/// The bound on the number of events that are read of a text: one for each
/// of its bytes, and one for the end of the document.
pub open spec fn event_limit(src: Seq<u8>) -> nat {
    if src.len() < usize::MAX {
        src.len() + 1
    } else {
        src.len()
    }
}

/// Whether an event ends the reading: the end of the document, or an error.
pub open spec fn is_last(event: XmlEvent) -> bool {
    event is Eof || event is Failed
}

/// Whether reading stopped at the first end of document or error: no event
/// but the last is one.
pub open spec fn stops_at_end(events: Seq<XmlEvent>) -> bool {
    forall|i: int|
        0 <= i < events.len() - 1 ==> !(#[trigger] events[i] is Eof) && !(events[i] is Failed)
}

/// Whether reading ran to its end: the last event is the end of the
/// document or an error.
pub open spec fn ends_reading(events: Seq<XmlEvent>) -> bool {
    events.len() > 0 && is_last(events.last())
}

/// The events of a text from read `k` on, up to and including the first
/// that ends the reading, and `bound` of them at most.
pub open spec fn events_from(src: Seq<char>, k: nat, bound: nat) -> Seq<XmlEvent>
    decreases bound,
{
    if bound == 0 {
        Seq::empty()
    } else if is_last(xml_event(src, k)) {
        seq![xml_event(src, k)]
    } else {
        seq![xml_event(src, k)] + events_from(src, k + 1, (bound - 1) as nat)
    }
}

/// The events of a text: those that the reader yields of it, in order, up
/// to and including the end of the document or the first error, and no
/// more of them than the bound allows.
pub open spec fn xml_events(src: &str) -> Seq<XmlEvent> {
    events_from(src@, 0, event_limit(src.spec_bytes()))
}

/// The events of a text are its events by position, they stop at the
/// first that ends the reading, and they run to such an event or to the
/// bound.
pub proof fn lemma_events_from(src: Seq<char>, k: nat, bound: nat)
    ensures
        events_from(src, k, bound).len() <= bound,
        bound > 0 ==> events_from(src, k, bound).len() >= 1,
        forall|i: int|
            0 <= i < events_from(src, k, bound).len() ==> #[trigger] events_from(src, k, bound)[i]
                == xml_event(src, (k + i) as nat),
        stops_at_end(events_from(src, k, bound)),
        bound > 0 ==> ends_reading(events_from(src, k, bound)) || events_from(src, k, bound).len()
            == bound,
    decreases bound,
{
    if bound > 0 && !is_last(xml_event(src, k)) {
        lemma_events_from(src, k + 1, (bound - 1) as nat);
        let rest = events_from(src, k + 1, (bound - 1) as nat);
        let all = events_from(src, k, bound);
        assert(all == seq![xml_event(src, k)] + rest);
        assert forall|i: int| 0 <= i < all.len() implies #[trigger] all[i] == xml_event(
            src,
            (k + i) as nat,
        ) by {
            if i > 0 {
                assert(all[i] == rest[i - 1]);
            }
        }
        assert forall|i: int| 0 <= i < all.len() - 1 implies !(#[trigger] all[i] is Eof) && !(
        all[i] is Failed) by {
            if i > 0 {
                assert(all[i] == rest[i - 1]);
            }
        }
        if rest.len() > 0 {
            assert(all.last() == rest.last());
        }
    }
}

/// Reads the events of a text with the XML reader, up to and including the
/// end of the document or the first error: the events of the text, each at
/// its position.
pub fn read_events(src: &str) -> (events: Vec<XmlEvent>)
    ensures
        events@ == xml_events(src),
        forall|i: int| 0 <= i < events.len() ==> events[i] == xml_event(src@, i as nat),
        1 <= events.len() <= event_limit(src.spec_bytes()),
        stops_at_end(events@),
        ends_reading(events@) || events.len() == event_limit(src.spec_bytes()),
{
    let bytes: usize = src.as_bytes().len();
    let limit: usize = if bytes < usize::MAX {
        bytes + 1
    } else {
        bytes
    };
    let mut reader = open_reader(src);
    let mut events: Vec<XmlEvent> = Vec::new();
    assert(events@ + events_from(src@, 0, limit as nat) =~= xml_events(src));
    while events.len() < limit
        invariant
            events.len() <= limit,
            limit == event_limit(src.spec_bytes()),
            reader_text(reader) == src@,
            reader_position(reader) == events.len(),
            events@ + events_from(src@, events.len() as nat, (limit - events.len()) as nat)
                == xml_events(src),
        decreases limit - events.len(),
    {
        let ghost before = events@;
        let event = next_event(&mut reader);
        let last = match &event {
            XmlEvent::Eof => true,
            XmlEvent::Failed(_) => true,
            _ => false,
        };
        events.push(event);
        if last {
            assert(events@ =~= xml_events(src));
            proof {
                lemma_events_from(src@, 0, limit as nat);
            }
            return events;
        }
        assert(events@ + events_from(src@, events.len() as nat, (limit - events.len()) as nat)
            =~= before + events_from(src@, before.len() as nat, (limit - before.len()) as nat));
    }
    assert(events@ =~= xml_events(src));
    proof {
        lemma_events_from(src@, 0, limit as nat);
    }
    events
}

/// Reads a program in PLCopen XML: the program that the events of the text
/// write. A syntax error of the XML is the only failure.
pub fn parse_plcopen_from_str(src: &str) -> (r: Result<Program, String>)
    ensures
        result_is(r, plc_program(xml_events(src))),
{
    let events = read_events(src);
    program_from_events(&events)
}

} // verus!
