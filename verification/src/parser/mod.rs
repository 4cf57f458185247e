//! The frontends: each turns one source language into the common syntax
//! tree.

use crate::ast::{Expression, ExprModel, FunctionKind, Program};
use crate::parser::il::{il_program, parse_il_from_str};
use crate::parser::plcopen::{parse_plcopen_from_str, plc_program, result_is, xml_events};
use crate::parser::scl::{parse_scl_from_str, scl_program};
use crate::text::{
    all_digits, all_digits_in, chars_of, contains, contains_str, lower, parse_i64, parse_number,
    push_all, push_str, same_text, slice_of, string_of, to_lower, to_upper, upper,
};
use vstd::prelude::*;
use vstd::string::StringSliceAdditionalSpecFns;

pub mod il;
pub mod plcopen;
pub mod scl;
pub mod structure;

verus! {

/// The kind of an organisation block, by the number that its name holds. The
/// numbers are looked for in this order, in any case of the letters, and the
/// first found decides: the longer numbers come before `OB1`, which they
/// hold. A name that holds none is a plain organisation block.
pub open spec fn organisation_kind(name: Seq<char>) -> FunctionKind {
    let up = upper(name);
    if contains(up, "OB100"@) {
        FunctionKind::OB100
    } else if contains(up, "OB121"@) {
        FunctionKind::OB121
    } else if contains(up, "OB1"@) {
        FunctionKind::OB1
    } else if contains(up, "OB86"@) {
        FunctionKind::OB86
    } else if contains(up, "OB82"@) {
        FunctionKind::OB82
    } else {
        FunctionKind::OB
    }
}

/// The kind of an organisation block, by its name.
pub fn kind_of_name(name: &Vec<char>) -> (k: FunctionKind)
    ensures
        k == organisation_kind(name@),
{
    let up = to_upper(name);
    if contains_str(&up, "OB100") {
        FunctionKind::OB100
    } else if contains_str(&up, "OB121") {
        FunctionKind::OB121
    } else if contains_str(&up, "OB1") {
        FunctionKind::OB1
    } else if contains_str(&up, "OB86") {
        FunctionKind::OB86
    } else if contains_str(&up, "OB82") {
        FunctionKind::OB82
    } else {
        FunctionKind::OB
    }
}

/// Where the path component that ends before `end` begins: after the
/// nearest `/` to the left, or at the start of the path.
pub open spec fn component_start(path: Seq<char>, end: int) -> int
    decreases end,
{
    if 0 < end <= path.len() && path[end - 1] != '/' {
        component_start(path, end - 1)
    } else {
        end
    }
}

/// A path component begins within the path, and not after its end.
pub proof fn lemma_component_start(path: Seq<char>, end: int)
    requires
        0 <= end <= path.len(),
    ensures
        0 <= component_start(path, end) <= end,
    decreases end,
{
    if 0 < end && path[end - 1] != '/' {
        lemma_component_start(path, end - 1);
    }
}

/// The file name of the part of a path before `end`: its last component
/// that is neither empty nor `.`; none where that component is `..`, or
/// where there is no such component.
pub open spec fn file_name_before(path: Seq<char>, end: int) -> Option<Seq<char>>
    decreases end,
    via file_name_before_decreases
{
    if 0 < end <= path.len() {
        let start = component_start(path, end);
        let component = path.subrange(start, end);
        if component.len() == 0 || component == seq!['.'] {
            if start > 0 {
                file_name_before(path, start - 1)
            } else {
                None
            }
        } else if component == seq!['.', '.'] {
            None
        } else {
            Some(component)
        }
    } else {
        None
    }
}

#[via_fn]
proof fn file_name_before_decreases(path: Seq<char>, end: int) {
    if 0 < end <= path.len() {
        lemma_component_start(path, end);
    }
}

/// The position of the last `.` of a name before `end`, or -1.
pub open spec fn last_dot(name: Seq<char>, end: int) -> int
    decreases end,
{
    if 0 < end <= name.len() {
        if name[end - 1] == '.' {
            end - 1
        } else {
            last_dot(name, end - 1)
        }
    } else {
        -1
    }
}

/// The extension of a file name: what follows its last `.`, where that is
/// not its first character; else nothing.
pub open spec fn name_extension(name: Seq<char>) -> Seq<char> {
    let k = last_dot(name, name.len() as int);
    if k > 0 {
        name.skip(k + 1)
    } else {
        Seq::empty()
    }
}

/// The extension of the file that a path names, in lower case; empty where
/// the path names no file or the file has no extension.
pub open spec fn file_extension(path: Seq<char>) -> Seq<char> {
    match file_name_before(path, path.len() as int) {
        Some(name) => lower(name_extension(name)),
        None => Seq::empty(),
    }
}

fn file_name_of(path: &Vec<char>) -> (r: Option<Vec<char>>)
    ensures
        match r {
            Some(n) => file_name_before(path@, path@.len() as int) == Some(n@),
            None => file_name_before(path@, path@.len() as int) is None,
        },
{
    let mut end: usize = path.len();
    while end > 0
        invariant
            end <= path.len(),
            file_name_before(path@, path@.len() as int) == file_name_before(path@, end as int),
        decreases end,
    {
        let mut start: usize = end;
        while start > 0 && path[start - 1] != '/'
            invariant
                start <= end <= path.len(),
                component_start(path@, end as int) == component_start(path@, start as int),
            decreases start,
        {
            start -= 1;
        }
        let component = slice_of(path, start, end);
        let dot = vec!['.'];
        let dots = vec!['.', '.'];
        assert(dot@ =~= seq!['.']);
        assert(dots@ =~= seq!['.', '.']);
        if component.len() == 0 || same_text(&component, &dot) {
            if start == 0 {
                return None;
            }
            end = start - 1;
        } else if same_text(&component, &dots) {
            return None;
        } else {
            return Some(component);
        }
    }
    None
}

fn extension_of_name(name: &Vec<char>) -> (r: Vec<char>)
    ensures
        r@ == name_extension(name@),
{
    let mut end: usize = name.len();
    while end > 0 && name[end - 1] != '.'
        invariant
            end <= name.len(),
            last_dot(name@, name@.len() as int) == last_dot(name@, end as int),
        decreases end,
    {
        end -= 1;
    }
    if end > 1 {
        slice_of(name, end, name.len())
    } else {
        Vec::new()
    }
}

/// The lower-case extension of the file that a path names.
pub fn extension_of(path: &str) -> (r: Vec<char>)
    ensures
        r@ == file_extension(path@),
{
    let p = chars_of(path);
    match file_name_of(&p) {
        Some(name) => to_lower(&extension_of_name(&name)),
        None => {
            assert(lower(Seq::<char>::empty()) =~= Seq::<char>::empty());
            Vec::new()
        },
    }
}

/// The frontends.
#[derive(Debug, Clone, Copy, PartialEq, Eq, Structural)]
pub enum Frontend {
    Scl,
    PlcOpen,
    InstructionList,
}

/// The frontend that reads files of the given lower-case extension.
pub open spec fn frontend_of(extension: Seq<char>) -> Option<Frontend> {
    if extension == "scl"@ || extension == "st"@ || extension == "sclsrc"@ {
        Some(Frontend::Scl)
    } else if extension == "xml"@ {
        Some(Frontend::PlcOpen)
    } else if extension == "il"@ || extension == "awl"@ {
        Some(Frontend::InstructionList)
    } else {
        None
    }
}

/// The frontend that reads files of the given lower-case extension.
pub fn frontend_for(extension: &Vec<char>) -> (r: Option<Frontend>)
    ensures
        r == frontend_of(extension@),
{
    if same_text(extension, &chars_of("scl")) || same_text(extension, &chars_of("st"))
        || same_text(extension, &chars_of("sclsrc")) {
        Some(Frontend::Scl)
    } else if same_text(extension, &chars_of("xml")) {
        Some(Frontend::PlcOpen)
    } else if same_text(extension, &chars_of("il")) || same_text(extension, &chars_of("awl")) {
        Some(Frontend::InstructionList)
    } else {
        None
    }
}

/// The message for a file whose extension no frontend reads.
pub open spec fn unsupported_extension(extension: Seq<char>) -> Seq<char> {
    "Unsupported file extension: '"@ + extension + "'. Expected .scl/.st, .xml, or .il/.awl"@
}

/// Whether `r` is what reading `source` with the frontend for the file name
/// gives: the program of that frontend, or the error that names the
/// extension where no frontend reads it.
pub open spec fn parsed_as(r: Result<Program, String>, source: &str, file_name: Seq<char>) -> bool {
    match frontend_of(file_extension(file_name)) {
        Some(Frontend::Scl) => r matches Ok(p) && p@ == scl_program(source@),
        Some(Frontend::InstructionList) => r matches Ok(p) && p@ == il_program(source@),
        Some(Frontend::PlcOpen) => result_is(r, plc_program(xml_events(source))),
        None => r matches Err(e) && e@ == unsupported_extension(file_extension(file_name)),
    }
}

/// Reads a program with the frontend that the extension of the file name
/// selects.
pub fn parse_file_from_str(source_code: &str, file_name: &str) -> (r: Result<Program, String>)
    ensures
        parsed_as(r, source_code, file_name@),
{
    let extension = extension_of(file_name);
    match frontend_for(&extension) {
        Some(Frontend::Scl) => parse_scl_from_str(source_code),
        Some(Frontend::PlcOpen) => parse_plcopen_from_str(source_code),
        Some(Frontend::InstructionList) => parse_il_from_str(source_code),
        None => {
            let mut message = chars_of("Unsupported file extension: '");
            push_all(&mut message, &extension);
            push_str(&mut message, "'. Expected .scl/.st, .xml, or .il/.awl");
            Err(string_of(&message))
        },
    }
}

/// The literal or the name that a text writes: `TRUE` or `FALSE` in any
/// case; a number where the text is digits only (zero where they do not fit
/// in 64 bits, or where the text is empty); else a name.
pub open spec fn literal_of(text: Seq<char>, line: usize) -> ExprModel {
    if upper(text) == "TRUE"@ {
        ExprModel::BoolLiteral(true, line)
    } else if upper(text) == "FALSE"@ {
        ExprModel::BoolLiteral(false, line)
    } else if all_digits(text) {
        ExprModel::NumberLiteral(
            match parse_i64(text) {
                Some(n) => n,
                None => 0,
            },
            line,
        )
    } else {
        ExprModel::VariableRef(text)
    }
}

/// The literal or the name that a text writes.
pub fn classify_literal(text: &Vec<char>, line: usize) -> (r: Expression)
    ensures
        r@ == literal_of(text@, line),
{
    let up = to_upper(text);
    if same_text(&up, &chars_of("TRUE")) {
        Expression::BoolLiteral(true, line)
    } else if same_text(&up, &chars_of("FALSE")) {
        Expression::BoolLiteral(false, line)
    } else if all_digits_in(text) {
        let n = match parse_number(text) {
            Some(n) => n,
            None => 0,
        };
        Expression::NumberLiteral(n, line)
    } else {
        Expression::VariableRef(string_of(text))
    }
}

} // verus!
