//! Searches over the statements of a routine and the routines of a
//! program that several rules share.

use crate::ast::{
    FunctionKind, FunctionModel, lemma_stmts_view_step, Program, Statement, StmtModel, stmts_view,
};
use crate::rules::render::{expr_chars, is_true_expr, rendered, truthy};
use crate::rules::words::{holds_any, mentions, mentions_any, name_mentions, name_mentions_any};
use crate::text::{texts, to_upper};
use vstd::prelude::*;

verus! {

/// The lines of the calls whose callee holds one of the words, in the order
/// of the source, the branches of conditionals included.
pub open spec fn call_lines(stmts: Seq<StmtModel>, words: Seq<Seq<char>>) -> Seq<usize>
    decreases stmts,
{
    if stmts.len() == 0 {
        Seq::empty()
    } else {
        call_lines(stmts.drop_last(), words) + call_lines_of(stmts.last(), words)
    }
}

/// The lines of the calls that one statement is or holds, whose callee holds
/// one of the words.
pub open spec fn call_lines_of(st: StmtModel, words: Seq<Seq<char>>) -> Seq<usize>
    decreases st,
{
    match st {
        StmtModel::Call { name, line, .. } => if mentions_any(name, words) {
            seq![line]
        } else {
            Seq::empty()
        },
        StmtModel::IfStmt { then_branch, else_branch, .. } => call_lines(then_branch, words)
            + call_lines(else_branch, words),
        _ => Seq::empty(),
    }
}

/// Appends the lines of the calls whose callee holds one of the words.
pub fn collect_call_lines(stmts: &Vec<Statement>, words: &Vec<Vec<char>>, out: &mut Vec<usize>)
    ensures
        final(out)@ == old(out)@ + call_lines(stmts_view(stmts@), texts(words@)),
    decreases stmts,
{
    let ghost sv = stmts_view(stmts@);
    let ghost w = texts(words@);
    let mut i: usize = 0;
    assert(out@ =~= old(out)@ + call_lines(sv.take(0), w));
    while i < stmts.len()
        invariant
            i <= stmts.len(),
            sv == stmts_view(stmts@),
            w == texts(words@),
            out@ == old(out)@ + call_lines(sv.take(i as int), w),
        decreases stmts.len() - i,
    {
        proof {
            lemma_stmts_view_step(stmts@, i as int);
        }
        let ghost before = out@;
        match &stmts[i] {
            Statement::Call { name, line, .. } => {
                if name_mentions_any(name.as_str(), words) {
                    out.push(*line);
                }
            },
            Statement::IfStmt { then_branch, else_branch, .. } => {
                collect_call_lines(then_branch, words, out);
                collect_call_lines(else_branch, words, out);
            },
            _ => {},
        }
        assert(out@ =~= before + call_lines_of(stmts@[i as int]@, w));
        i += 1;
        assert(out@ =~= old(out)@ + call_lines(sv.take(i as int), w));
    }
    proof {
        if stmts.len() > 0 {
            lemma_stmts_view_step(stmts@, 0);
        } else {
            assert(sv.take(0) =~= sv);
        }
    }
}

/// Whether a statement sets an alarm: it assigns a true value to a target
/// whose name holds `ALARM`, in any case.
pub open spec fn sets_alarm(st: StmtModel) -> bool {
    match st {
        StmtModel::Assign { target, value, .. } => mentions(target, "ALARM"@) && truthy(value),
        _ => false,
    }
}

/// Whether one of the statements, taken as they stand, sets an alarm.
pub open spec fn raises_alarm(stmts: Seq<StmtModel>) -> bool {
    exists|i: int| 0 <= i < stmts.len() && sets_alarm(#[trigger] stmts[i])
}

/// Whether one of the statements, each taken as it stands, sets an alarm.
pub fn branch_sets_alarm_true(stmts: &Vec<Statement>) -> (r: bool)
    ensures
        r == raises_alarm(stmts_view(stmts@)),
{
    let mut i: usize = 0;
    while i < stmts.len()
        invariant
            i <= stmts.len(),
            forall|j: int| 0 <= j < i ==> !sets_alarm(#[trigger] stmts_view(stmts@)[j]),
        decreases stmts.len() - i,
    {
        let found = match &stmts[i] {
            Statement::Assign { target, value, .. } => name_mentions(target.name.as_str(), "ALARM")
                && is_true_expr(value),
            _ => false,
        };
        assert(found == sets_alarm(stmts_view(stmts@)[i as int]));
        if found {
            return true;
        }
        i += 1;
    }
    false
}

/// Whether a statement reports a value: it assigns to a target whose name
/// holds one of the target words a value whose text holds one of the value
/// words.
pub open spec fn is_report(
    st: StmtModel,
    target_words: Seq<Seq<char>>,
    value_words: Seq<Seq<char>>,
) -> bool {
    match st {
        StmtModel::Assign { target, value, .. } => mentions_any(target, target_words)
            && mentions_any(rendered(value), value_words),
        _ => false,
    }
}

/// Whether one of the statements, each taken as it stands, reports a value.
pub open spec fn reports(
    stmts: Seq<StmtModel>,
    target_words: Seq<Seq<char>>,
    value_words: Seq<Seq<char>>,
) -> bool {
    exists|i: int| 0 <= i < stmts.len() && is_report(#[trigger] stmts[i], target_words, value_words)
}

/// Whether one of the statements, each taken as it stands, reports a value.
pub fn has_report(
    stmts: &Vec<Statement>,
    target_words: &Vec<Vec<char>>,
    value_words: &Vec<Vec<char>>,
) -> (r: bool)
    ensures
        r == reports(stmts_view(stmts@), texts(target_words@), texts(value_words@)),
{
    let mut i: usize = 0;
    while i < stmts.len()
        invariant
            i <= stmts.len(),
            forall|j: int|
                0 <= j < i ==> !is_report(
                    #[trigger] stmts_view(stmts@)[j],
                    texts(target_words@),
                    texts(value_words@),
                ),
        decreases stmts.len() - i,
    {
        let found = match &stmts[i] {
            Statement::Assign { target, value, .. } => name_mentions_any(
                target.name.as_str(),
                target_words,
            ) && holds_any(&to_upper(&expr_chars(value)), value_words),
            _ => false,
        };
        assert(found == is_report(
            stmts_view(stmts@)[i as int],
            texts(target_words@),
            texts(value_words@),
        ));
        if found {
            return true;
        }
        i += 1;
    }
    false
}

/// Whether a statement is a call whose callee holds one of the words.
pub open spec fn is_call_of(st: StmtModel, words: Seq<Seq<char>>) -> bool {
    match st {
        StmtModel::Call { name, .. } => mentions_any(name, words),
        _ => false,
    }
}

/// Whether a statement assigns a value whose text holds one of the words.
pub open spec fn is_read_of(st: StmtModel, words: Seq<Seq<char>>) -> bool {
    match st {
        StmtModel::Assign { value, .. } => mentions_any(rendered(value), words),
        _ => false,
    }
}

/// The line of a statement.
pub open spec fn line_of(st: StmtModel) -> usize {
    match st {
        StmtModel::Assign { line, .. } => line,
        StmtModel::Call { line, .. } => line,
        StmtModel::IfStmt { line, .. } => line,
        StmtModel::Expr { line, .. } => line,
        StmtModel::Comment { line, .. } => line,
    }
}

/// The line of the last of the statements, taken as they stand, that is a
/// call of one of the words.
pub open spec fn last_call_line(stmts: Seq<StmtModel>, words: Seq<Seq<char>>) -> Option<usize>
    decreases stmts.len(),
{
    if stmts.len() == 0 {
        None
    } else if is_call_of(stmts.last(), words) {
        Some(line_of(stmts.last()))
    } else {
        last_call_line(stmts.drop_last(), words)
    }
}

/// The line of the last of the statements, taken as they stand, that reads
/// one of the words.
pub open spec fn last_read_line(stmts: Seq<StmtModel>, words: Seq<Seq<char>>) -> Option<usize>
    decreases stmts.len(),
{
    if stmts.len() == 0 {
        None
    } else if is_read_of(stmts.last(), words) {
        Some(line_of(stmts.last()))
    } else {
        last_read_line(stmts.drop_last(), words)
    }
}

/// The line of the last of the statements that is a call of one of the
/// words.
pub fn find_last_call(stmts: &Vec<Statement>, words: &Vec<Vec<char>>) -> (r: Option<usize>)
    ensures
        r == last_call_line(stmts_view(stmts@), texts(words@)),
{
    let ghost sv = stmts_view(stmts@);
    let mut r: Option<usize> = None;
    let mut i: usize = 0;
    while i < stmts.len()
        invariant
            i <= stmts.len(),
            sv == stmts_view(stmts@),
            r == last_call_line(sv.take(i as int), texts(words@)),
        decreases stmts.len() - i,
    {
        proof {
            lemma_stmts_view_step(stmts@, i as int);
        }
        match &stmts[i] {
            Statement::Call { name, line, .. } => {
                if name_mentions_any(name.as_str(), words) {
                    r = Some(*line);
                }
            },
            _ => {},
        }
        i += 1;
    }
    proof {
        if stmts.len() > 0 {
            lemma_stmts_view_step(stmts@, 0);
        } else {
            assert(sv.take(0) =~= sv);
        }
    }
    r
}

/// The line of the last of the statements that reads one of the words.
pub fn find_last_read(stmts: &Vec<Statement>, words: &Vec<Vec<char>>) -> (r: Option<usize>)
    ensures
        r == last_read_line(stmts_view(stmts@), texts(words@)),
{
    let ghost sv = stmts_view(stmts@);
    let mut r: Option<usize> = None;
    let mut i: usize = 0;
    while i < stmts.len()
        invariant
            i <= stmts.len(),
            sv == stmts_view(stmts@),
            r == last_read_line(sv.take(i as int), texts(words@)),
        decreases stmts.len() - i,
    {
        proof {
            lemma_stmts_view_step(stmts@, i as int);
        }
        match &stmts[i] {
            Statement::Assign { value, line, .. } => {
                if holds_any(&to_upper(&expr_chars(value)), words) {
                    r = Some(*line);
                }
            },
            _ => {},
        }
        i += 1;
    }
    proof {
        if stmts.len() > 0 {
            lemma_stmts_view_step(stmts@, 0);
        } else {
            assert(sv.take(0) =~= sv);
        }
    }
    r
}

/// The first routine of the given kind.
pub open spec fn first_of_kind(
    functions: Seq<FunctionModel>,
    kind: FunctionKind,
) -> Option<FunctionModel>
    decreases functions.len(),
{
    if functions.len() == 0 {
        None
    } else {
        match first_of_kind(functions.drop_last(), kind) {
            Some(f) => Some(f),
            None => if functions.last().kind == kind {
                Some(functions.last())
            } else {
                None
            },
        }
    }
}

/// What was found stays found when routines follow.
pub proof fn lemma_first_of_kind_prefix(functions: Seq<FunctionModel>, kind: FunctionKind, n: int)
    requires
        0 <= n <= functions.len(),
        first_of_kind(functions.take(n), kind) is Some,
    ensures
        first_of_kind(functions, kind) == first_of_kind(functions.take(n), kind),
    decreases functions.len(),
{
    if n < functions.len() {
        assert(functions.drop_last().take(n) =~= functions.take(n));
        lemma_first_of_kind_prefix(functions.drop_last(), kind, n);
    } else {
        assert(functions.take(n) =~= functions);
    }
}

/// The position of the first routine of the given kind.
pub fn find_kind(program: &Program, kind: FunctionKind) -> (r: Option<usize>)
    ensures
        match r {
            Some(i) => i < program.functions.len() && first_of_kind(program@.functions, kind)
                == Some(program.functions[i as int]@),
            None => first_of_kind(program@.functions, kind) is None,
        },
{
    let ghost fs = program@.functions;
    let mut i: usize = 0;
    while i < program.functions.len()
        invariant
            i <= program.functions.len(),
            fs == program@.functions,
            first_of_kind(fs.take(i as int), kind) is None,
        decreases program.functions.len() - i,
    {
        assert(fs.take(i as int + 1).drop_last() =~= fs.take(i as int));
        if program.functions[i].kind == kind {
            proof {
                lemma_first_of_kind_prefix(fs, kind, i as int + 1);
            }
            return Some(i);
        }
        i += 1;
    }
    assert(fs.take(program.functions.len() as int) =~= fs);
    None
}

} // verus!
