//! The frontend for instruction lists: one implicit routine, built up
//! through one accumulator.

use crate::ast::{
    BinOp, Expression, ExprModel, Function, FunctionKind, FunctionModel, functions_view,
    lemma_stmts_view_push, Program, ProgramModel, Statement, StmtModel, stmts_view, Variable,
};
use crate::parser::{classify_literal, literal_of};
use crate::text::{
    chars_of, has_prefix, lines, lines_of, same_text, starts_with_str, string_of, texts, to_upper,
    trim, trimmed, upper, words, words_of,
};
use vstd::prelude::*;

verus! {

/// The expression that an operand writes: a literal or a name.
pub open spec fn operand_of(op: Seq<char>, line: usize) -> ExprModel {
    literal_of(op, line)
}

/// The expression that an operand writes.
pub fn parse_operand(op: &Vec<char>, line: usize) -> (r: Expression)
    ensures
        r@ == operand_of(op@, line),
{
    classify_literal(op, line)
}

/// The model of the frontend's state between two lines: the statements
/// written so far, and the accumulator.
pub struct IlState {
    pub statements: Seq<StmtModel>,
    pub accumulator: Option<ExprModel>,
}

/// The operator that an arithmetic mnemonic stands for.
pub open spec fn arithmetic_op(mnemonic: Seq<char>) -> Option<BinOp> {
    if mnemonic == "ADD"@ {
        Some(BinOp::Add)
    } else if mnemonic == "SUB"@ {
        Some(BinOp::Sub)
    } else if mnemonic == "MUL"@ {
        Some(BinOp::Mul)
    } else if mnemonic == "DIV"@ {
        Some(BinOp::Div)
    } else {
        None
    }
}

/// The state after one line. A blank line, a line that begins with `//` and
/// a line with an unknown mnemonic change nothing. `LD` loads its operand.
/// `ST` stores the accumulator in its operand, and an arithmetic mnemonic
/// combines the accumulator with its operand; both leave the accumulator
/// empty where it was empty or the operand is missing.
pub open spec fn il_step(s: IlState, raw: Seq<char>, line_no: usize) -> IlState {
    let line = trim(raw);
    let w = words(line);
    if line.len() == 0 || has_prefix(line, "//"@) || w.len() == 0 {
        s
    } else {
        let mnemonic = upper(w[0]);
        if mnemonic == "LD"@ {
            if w.len() >= 2 {
                IlState { accumulator: Some(operand_of(w[1], line_no)), ..s }
            } else {
                s
            }
        } else if mnemonic == "ST"@ {
            match s.accumulator {
                Some(value) => if w.len() >= 2 {
                    IlState {
                        statements: s.statements.push(
                            StmtModel::Assign { target: w[1], value, line: line_no },
                        ),
                        accumulator: None,
                    }
                } else {
                    IlState { accumulator: None, ..s }
                },
                None => s,
            }
        } else {
            match arithmetic_op(mnemonic) {
                Some(op) => match s.accumulator {
                    Some(left) => if w.len() >= 2 {
                        IlState {
                            accumulator: Some(
                                ExprModel::BinaryOp {
                                    op,
                                    left: Box::new(left),
                                    right: Box::new(operand_of(w[1], line_no)),
                                    line: line_no,
                                },
                            ),
                            ..s
                        }
                    } else {
                        IlState { accumulator: None, ..s }
                    },
                    None => s,
                },
                None => s,
            }
        }
    }
}

/// The state after the lines from `i` on, `s` being the state before line `i`.
pub open spec fn il_run(lines: Seq<Seq<char>>, i: int, s: IlState) -> IlState
    decreases lines.len() - i,
{
    if 0 <= i < lines.len() {
        il_run(lines, i + 1, il_step(s, lines[i], (i + 1) as usize))
    } else {
        s
    }
}

/// The program that an instruction list writes: one function named
/// `IL_Program`, seen on line 1, that holds the statements stored.
pub open spec fn il_program(src: Seq<char>) -> ProgramModel {
    ProgramModel {
        functions: seq![
            FunctionModel {
                name: "IL_Program"@,
                kind: FunctionKind::FC,
                statements: il_run(
                    lines(src),
                    0,
                    IlState { statements: Seq::empty(), accumulator: None },
                ).statements,
                line: 1,
            },
        ],
    }
}

spec fn accumulator_view(acc: Option<Expression>) -> Option<ExprModel> {
    match acc {
        Some(e) => Some(e@),
        None => None,
    }
}

fn arithmetic_of(mnemonic: &Vec<char>) -> (r: Option<BinOp>)
    ensures
        r == arithmetic_op(mnemonic@),
{
    if same_text(mnemonic, &chars_of("ADD")) {
        Some(BinOp::Add)
    } else if same_text(mnemonic, &chars_of("SUB")) {
        Some(BinOp::Sub)
    } else if same_text(mnemonic, &chars_of("MUL")) {
        Some(BinOp::Mul)
    } else if same_text(mnemonic, &chars_of("DIV")) {
        Some(BinOp::Div)
    } else {
        None
    }
}

/// Reads an instruction list. Every text is accepted.
pub fn parse_il_from_str(src: &str) -> (r: Result<Program, String>)
    ensures
        r matches Ok(p) && p@ == il_program(src@) && p.functions.len() == 1,
{
    let text = chars_of(src);
    let lines = lines_of(&text);
    let mut statements: Vec<Statement> = Vec::new();
    let mut acc: Option<Expression> = None;
    let ghost start = IlState { statements: Seq::empty(), accumulator: None };
    assert(stmts_view(statements@) =~= Seq::empty());
    let mut i: usize = 0;
    while i < lines.len()
        invariant
            i <= lines.len(),
            il_run(texts(lines@), 0, start) == il_run(
                texts(lines@),
                i as int,
                IlState {
                    statements: stmts_view(statements@),
                    accumulator: accumulator_view(acc),
                },
            ),
        decreases lines.len() - i,
    {
        assert(texts(lines@)[i as int] == lines@[i as int]@);
        let line = trimmed(&lines[i]);
        let line_no: usize = i + 1;
        i += 1;
        if line.len() == 0 || starts_with_str(&line, "//") {
            continue ;
        }
        let mut w = words_of(&line);
        if w.len() == 0 {
            continue ;
        }
        assert(texts(w@)[0] == w@[0]@);
        let mnemonic = to_upper(&w[0]);
        let operand: Option<Vec<char>> = if w.len() >= 2 {
            assert(texts(w@)[1] == w@[1]@);
            Some(w.swap_remove(1))
        } else {
            None
        };
        if same_text(&mnemonic, &chars_of("LD")) {
            if let Some(op) = operand {
                acc = Some(parse_operand(&op, line_no));
            }
        } else if same_text(&mnemonic, &chars_of("ST")) {
            if let Some(value) = acc.take() {
                if let Some(target) = operand {
                    let st = Statement::Assign {
                        target: Variable { name: string_of(&target) },
                        value,
                        line: line_no,
                    };
                    proof {
                        lemma_stmts_view_push(statements@, st);
                    }
                    statements.push(st);
                }
            }
        } else if let Some(op) = arithmetic_of(&mnemonic) {
            if let Some(left) = acc.take() {
                if let Some(right) = operand {
                    acc = Some(
                        Expression::BinaryOp {
                            op,
                            left: Box::new(left),
                            right: Box::new(parse_operand(&right, line_no)),
                            line: line_no,
                        },
                    );
                }
            }
        }
    }
    let f = Function {
        name: string_of(&chars_of("IL_Program")),
        kind: FunctionKind::FC,
        statements,
        line: 1,
    };
    let functions = vec![f];
    assert(functions_view(functions@) =~= seq![f@]);
    Ok(Program { functions })
}

} // verus!
