//! What the frontend for structured text keeps of the structure of its
//! source: each conditional that opens inside a routine is one conditional
//! of the tree, whether or not the source closes it.

use crate::ast::{branch_count, branches_of, FunctionModel, ProgramModel, StmtModel};
use crate::parser::scl::{
    assign_of, block_kind, block_name, call_of, clean, frame_closed, frame_stmt, frame_with,
    FrameModel, frames_closed, if_header, index_expr_of, initial_state, lemma_if_header_bounds,
    line_kind, LineKind, routine_closed, routine_opened, scl_program, scl_run, SclState, with_else,
    with_frame, with_stmt,
};
use crate::text::lines;
use vstd::prelude::*;

verus! {

/// The number of lines from `i` on that open a conditional. The lines that
/// continue the header of a conditional are part of it.
pub open spec fn conditional_lines(lines: Seq<Seq<char>>, i: int) -> nat
    decreases lines.len() - i,
    via conditional_lines_decreases
{
    if 0 <= i < lines.len() {
        match line_kind(clean(lines[i])) {
            LineKind::If => 1 + conditional_lines(lines, if_header(lines, i).1),
            _ => conditional_lines(lines, i + 1),
        }
    } else {
        0
    }
}

#[via_fn]
proof fn conditional_lines_decreases(lines: Seq<Seq<char>>, i: int) {
    if 0 <= i < lines.len() {
        lemma_if_header_bounds(lines, i);
    }
}

/// Whether every conditional from line `i` on opens inside a routine,
/// `open` telling whether a routine is open before line `i`.
pub open spec fn conditionals_inside(lines: Seq<Seq<char>>, i: int, open: bool) -> bool
    decreases lines.len() - i,
    via conditionals_inside_decreases
{
    if 0 <= i < lines.len() {
        match line_kind(clean(lines[i])) {
            LineKind::If => open && conditionals_inside(lines, if_header(lines, i).1, open),
            LineKind::BlockStart => conditionals_inside(lines, i + 1, true),
            LineKind::BlockEnd => conditionals_inside(lines, i + 1, false),
            _ => conditionals_inside(lines, i + 1, open),
        }
    } else {
        true
    }
}

#[via_fn]
proof fn conditionals_inside_decreases(lines: Seq<Seq<char>>, i: int, open: bool) {
    if 0 <= i < lines.len() {
        lemma_if_header_bounds(lines, i);
    }
}

/// The conditionals of the open frames: each frame is one, and holds those
/// of the statements gathered for it.
pub open spec fn frames_conditionals(frames: Seq<FrameModel>) -> nat
    decreases frames.len(),
{
    if frames.len() == 0 {
        0
    } else {
        frames_conditionals(frames.drop_last()) + 1 + branch_count(frames.last().then_part)
            + branch_count(frames.last().else_part)
    }
}

/// The conditionals of a sequence of routines.
pub open spec fn functions_conditionals(functions: Seq<FunctionModel>) -> nat
    decreases functions.len(),
{
    if functions.len() == 0 {
        0
    } else {
        functions_conditionals(functions.drop_last()) + branch_count(functions.last().statements)
    }
}

/// The conditionals of a program, at every depth.
pub open spec fn program_conditionals(p: ProgramModel) -> nat {
    functions_conditionals(p.functions)
}

/// The conditionals that a state holds: closed or still open.
pub open spec fn state_conditionals(s: SclState) -> nat {
    functions_conditionals(s.functions) + (match s.current {
        Some(f) => branch_count(f.statements),
        None => 0,
    }) + frames_conditionals(s.frames)
}

/// Whether the open conditionals of a state belong to an open routine.
pub open spec fn anchored(s: SclState) -> bool {
    s.frames.len() > 0 ==> s.current is Some
}

proof fn lemma_branch_count_push(stmts: Seq<StmtModel>, st: StmtModel)
    ensures
        branch_count(stmts.push(st)) == branch_count(stmts) + branches_of(st),
{
    assert(stmts.push(st).drop_last() =~= stmts);
}

proof fn lemma_frames_replace_last(frames: Seq<FrameModel>, f: FrameModel)
    requires
        frames.len() > 0,
    ensures
        frames_conditionals(frames.update(frames.len() - 1, f)) == frames_conditionals(
            frames.drop_last(),
        ) + 1 + branch_count(f.then_part) + branch_count(f.else_part),
{
    let updated = frames.update(frames.len() - 1, f);
    assert(updated.drop_last() =~= frames.drop_last());
}

proof fn lemma_with_stmt(s: SclState, st: StmtModel)
    requires
        anchored(s),
    ensures
        anchored(with_stmt(s, st)),
        with_stmt(s, st).current is Some == s.current is Some,
        with_stmt(s, st).frames.len() == s.frames.len(),
        state_conditionals(with_stmt(s, st)) == state_conditionals(s) + (if s.current is Some {
            branches_of(st)
        } else {
            0
        }),
{
    match s.current {
        None => {},
        Some(f) => {
            if s.frames.len() > 0 {
                let top = s.frames.last();
                lemma_frames_replace_last(s.frames, frame_with(top, st));
                lemma_branch_count_push(top.then_part, st);
                lemma_branch_count_push(top.else_part, st);
            } else {
                lemma_branch_count_push(f.statements, st);
            }
        },
    }
}

proof fn lemma_frame_closed(s: SclState)
    requires
        anchored(s),
    ensures
        anchored(frame_closed(s)),
        frame_closed(s).current is Some == s.current is Some,
        s.frames.len() > 0 ==> frame_closed(s).frames.len() == s.frames.len() - 1,
        s.frames.len() == 0 ==> frame_closed(s) == s,
        state_conditionals(frame_closed(s)) == state_conditionals(s),
{
    if s.frames.len() > 0 {
        let top = s.frames.last();
        let rest = SclState { frames: s.frames.drop_last(), ..s };
        lemma_with_stmt(rest, frame_stmt(top));
        assert(branches_of(frame_stmt(top)) == 1 + branch_count(top.then_part) + branch_count(
            top.else_part,
        ));
    }
}

proof fn lemma_frames_closed(s: SclState)
    requires
        anchored(s),
    ensures
        frames_closed(s).frames.len() == 0,
        frames_closed(s).current is Some == s.current is Some,
        state_conditionals(frames_closed(s)) == state_conditionals(s),
    decreases s.frames.len(),
{
    if s.frames.len() > 0 {
        lemma_frame_closed(s);
        lemma_frames_closed(frame_closed(s));
    }
}

proof fn lemma_routine_closed(s: SclState)
    requires
        anchored(s),
    ensures
        routine_closed(s).frames.len() == 0,
        routine_closed(s).current is None,
        state_conditionals(routine_closed(s)) == state_conditionals(s),
{
    match s.current {
        None => {},
        Some(_) => {
            lemma_frames_closed(s);
            let t = frames_closed(s);
            let f = t.current->0;
            assert(t.functions.push(f).drop_last() =~= t.functions);
        },
    }
}

proof fn lemma_run(lines: Seq<Seq<char>>, i: int, s: SclState)
    requires
        0 <= i,
        anchored(s),
        conditionals_inside(lines, i, s.current is Some),
    ensures
        anchored(scl_run(lines, i, s)),
        state_conditionals(scl_run(lines, i, s)) == state_conditionals(s) + conditional_lines(
            lines,
            i,
        ),
    decreases lines.len() - i,
{
    if i < lines.len() {
        let line = clean(lines[i]);
        let line_no = (i + 1) as usize;
        match line_kind(line) {
            LineKind::Blank => {
                lemma_run(lines, i + 1, s);
            },
            LineKind::BlockStart => {
                lemma_routine_closed(s);
                let t = routine_opened(
                    routine_closed(s),
                    block_name(line),
                    block_kind(line),
                    line_no,
                );
                assert(branch_count(Seq::<StmtModel>::empty()) == 0);
                lemma_run(lines, i + 1, t);
            },
            LineKind::BlockEnd => {
                lemma_routine_closed(s);
                lemma_run(lines, i + 1, routine_closed(s));
            },
            LineKind::If => {
                lemma_if_header_bounds(lines, i);
                let (cond, next) = if_header(lines, i);
                let t = with_frame(s, cond, next as usize);
                assert(t.frames.drop_last() =~= s.frames);
                assert(branch_count(Seq::<StmtModel>::empty()) == 0);
                lemma_run(lines, next, t);
            },
            LineKind::Else => {
                let t = with_else(s);
                if s.frames.len() > 0 {
                    lemma_frames_replace_last(
                        s.frames,
                        FrameModel { seen_else: true, ..s.frames.last() },
                    );
                }
                lemma_run(lines, i + 1, t);
            },
            LineKind::EndIf => {
                lemma_frame_closed(s);
                lemma_run(lines, i + 1, frame_closed(s));
            },
            LineKind::Assign => {
                lemma_with_stmt(s, assign_of(line, line_no));
                lemma_run(lines, i + 1, with_stmt(s, assign_of(line, line_no)));
            },
            LineKind::Call => {
                lemma_with_stmt(s, call_of(line, line_no));
                lemma_run(lines, i + 1, with_stmt(s, call_of(line, line_no)));
            },
            LineKind::Other => {
                match index_expr_of(line, line_no) {
                    Some(e) => {
                        let st = StmtModel::Expr { expr: e, line: line_no };
                        lemma_with_stmt(s, st);
                        lemma_run(lines, i + 1, with_stmt(s, st));
                    },
                    None => {
                        lemma_run(lines, i + 1, s);
                    },
                }
            },
        }
    }
}

/// The structure of a source comes back in its tree: where every
/// conditional of the source opens inside a routine, the program has
/// exactly one conditional for each of them, at whatever depth, and so none
/// that is left half built. Conditionals that the source does not close
/// are among them.
pub proof fn lemma_conditionals_round_trip(src: Seq<char>)
    requires
        conditionals_inside(lines(src), 0, false),
    ensures
        program_conditionals(scl_program(src)) == conditional_lines(lines(src), 0),
{
    let start = initial_state();
    lemma_run(lines(src), 0, start);
    let end = scl_run(lines(src), 0, start);
    lemma_routine_closed(end);
}

} // verus!
