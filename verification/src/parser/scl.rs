//! The frontend for structured text: one forward pass over the lines of the
//! source, with a stack of the conditionals that are open.

use crate::ast::{
    args_view, BinOp, expr_view, Expression, ExprModel, Function, FunctionKind, FunctionModel,
    functions_view, lemma_functions_view_push, lemma_stmts_view_push, Program, ProgramModel,
    Statement, StmtModel, stmts_view, Variable,
};
use crate::parser::{classify_literal, kind_of_name, literal_of, organisation_kind};
use crate::text::{
    chars_of, contains, contains_str, ends_with_str, find, find_in, has_prefix, has_suffix,
    lemma_find_contains, lemma_trim_len, lemma_trimmed_has_no_leading_space, lines, lines_of,
    push_all, slice_of, starts_with, starts_with_str, string_of, strip_both, strip_end,
    stripped_both, stripped_end, texts, to_upper, trim, trim_end, trim_start, trimmed, trimmed_end,
    trimmed_start, upper, upper_of, words, words_of,
};
use vstd::prelude::*;

verus! {

/// A text without its bracketed comments: each span from a `(*` to the
/// next `*)` after it is cut out. A `(*` that nothing closes stays.
pub open spec fn without_spans(s: Seq<char>) -> Seq<char>
    decreases s.len(),
    via without_spans_decreases
{
    match find(s, "(*"@) {
        Some(a) => match find(s.skip(a + 2), "*)"@) {
            Some(b) => s.take(a) + without_spans(s.skip(a + b + 4)),
            None => s,
        },
        None => s,
    }
}

#[via_fn]
proof fn without_spans_decreases(s: Seq<char>) {
    lemma_find_contains(s, "(*"@);
    reveal_strlit("(*");
    reveal_strlit("*)");
    match find(s, "(*"@) {
        Some(a) => {
            lemma_find_contains(s.skip(a + 2), "*)"@);
        },
        None => {},
    }
}

/// A line without its comments: the text before the first `//`, without
/// its bracketed comments.
pub open spec fn comment_free(line: Seq<char>) -> Seq<char> {
    without_spans(
        match find(line, "//"@) {
            Some(i) => line.take(i),
            None => line,
        },
    )
}

fn strip_spans(s: &Vec<char>) -> (r: Vec<char>)
    ensures
        r@ == without_spans(s@),
    decreases s.len(),
{
    let open = chars_of("(*");
    let close = chars_of("*)");
    proof {
        reveal_strlit("(*");
        reveal_strlit("*)");
    }
    match find_in(s, &open) {
        Some(a) => {
            let rest = slice_of(s, a + 2, s.len());
            match find_in(&rest, &close) {
                Some(b) => {
                    let mut out = slice_of(s, 0, a);
                    let tail = slice_of(s, a + b + 4, s.len());
                    push_all(&mut out, &strip_spans(&tail));
                    out
                },
                None => {
                    assert(s@.subrange(0, s@.len() as int) =~= s@);
                    slice_of(s, 0, s.len())
                },
            }
        },
        None => {
            assert(s@.subrange(0, s@.len() as int) =~= s@);
            slice_of(s, 0, s.len())
        },
    }
}

/// A line without its comments.
pub fn strip_inline_comment(line: &Vec<char>) -> (r: Vec<char>)
    ensures
        r@ == comment_free(line@),
{
    let slashes = chars_of("//");
    match find_in(line, &slashes) {
        Some(i) => strip_spans(&slice_of(line, 0, i)),
        None => strip_spans(line),
    }
}

/// Whether `s`, after its leading white space, begins with the keyword,
/// whatever the case of either.
pub open spec fn begins_with_keyword(s: Seq<char>, kw: Seq<char>) -> bool {
    has_prefix(upper(trim_start(s)), upper(kw))
}

/// Whether a text begins with the keyword, after its leading white space
/// and whatever the case of either.
pub fn starts_with_keyword(s: &Vec<char>, kw: &str) -> (r: bool)
    ensures
        r == begins_with_keyword(s@, kw@),
{
    let t = trimmed_start(s);
    let up = to_upper(&t);
    let k = upper_of(kw);
    starts_with(&up, &k)
}

/// The second word of `s`, without the colons at its ends.
pub open spec fn second_token(s: Seq<char>) -> Option<Seq<char>> {
    let w = words(s);
    if w.len() >= 2 {
        Some(strip_both(w[1], ':'))
    } else {
        None
    }
}

/// The second word of a text, without the colons at its ends.
pub fn grab_second_token(s: &Vec<char>) -> (r: Option<Vec<char>>)
    ensures
        match r {
            Some(t) => second_token(s@) == Some(t@),
            None => second_token(s@) is None,
        },
{
    let w = words_of(s);
    if w.len() >= 2 {
        assert(texts(w@)[1] == w@[1]@);
        Some(stripped_both(&w[1], ':'))
    } else {
        None
    }
}

/// The two parts of `s` around the first occurrence of `pat`.
pub open spec fn split_first(s: Seq<char>, pat: Seq<char>) -> Option<(Seq<char>, Seq<char>)> {
    match find(s, pat) {
        Some(k) => Some((s.take(k), s.skip(k + pat.len()))),
        None => None,
    }
}

/// The two parts of a text around the first occurrence of a pattern.
pub fn split_once(s: &Vec<char>, pat: &str) -> (r: Option<(Vec<char>, Vec<char>)>)
    ensures
        match r {
            Some((a, b)) => split_first(s@, pat@) == Some((a@, b@)),
            None => split_first(s@, pat@) is None,
        },
{
    let p = chars_of(pat);
    match find_in(s, &p) {
        Some(k) => Some((slice_of(s, 0, k), slice_of(s, k + p.len(), s.len()))),
        None => None,
    }
}

/// Whether the line has the shape of a call: an opening parenthesis
/// somewhere, and `);` at its end.
pub open spec fn call_shaped(line: Seq<char>) -> bool {
    let t = trim(line);
    contains(t, "("@) && has_suffix(trim_end(t), ");"@)
}

/// Whether the line has the shape of a call.
pub fn looks_like_call(line: &Vec<char>) -> (r: bool)
    ensures
        r == call_shaped(line@),
{
    let t = trimmed(line);
    let e = trimmed_end(&t);
    contains_str(&t, "(") && ends_with_str(&e, ");")
}

/// The nesting depth after the character `c`, given the depth before it:
/// `open` raises it, `close` lowers it but never below zero.
pub open spec fn depth_after(depth: nat, c: char, open: char, close: char) -> nat {
    if c == open {
        depth + 1
    } else if c == close && depth > 0 {
        (depth - 1) as nat
    } else {
        depth
    }
}

/// The first position at or after `i` that holds `ch` outside all
/// parentheses and brackets, the depths before `i` being given.
pub open spec fn top_level_from(
    s: Seq<char>,
    ch: char,
    i: int,
    parens: nat,
    brackets: nat,
) -> Option<int>
    decreases s.len() - i,
{
    if 0 <= i < s.len() {
        let p = depth_after(parens, s[i], '(', ')');
        let b = depth_after(brackets, s[i], '[', ']');
        if s[i] == ch && p == 0 && b == 0 {
            Some(i)
        } else {
            top_level_from(s, ch, i + 1, p, b)
        }
    } else {
        None
    }
}

/// The first position of `ch` in `s` outside all parentheses and brackets.
pub open spec fn top_level_char(s: Seq<char>, ch: char) -> Option<int> {
    top_level_from(s, ch, 0, 0, 0)
}

/// What the search finds stands at or after `i`, within the text, and holds
/// the character.
pub proof fn lemma_top_level_from(s: Seq<char>, ch: char, i: int, parens: nat, brackets: nat)
    requires
        0 <= i,
    ensures
        top_level_from(s, ch, i, parens, brackets) matches Some(k) ==> i <= k < s.len() && s[k]
            == ch,
    decreases s.len() - i,
{
    if i < s.len() {
        let p = depth_after(parens, s[i], '(', ')');
        let b = depth_after(brackets, s[i], '[', ']');
        if !(s[i] == ch && p == 0 && b == 0) {
            lemma_top_level_from(s, ch, i + 1, p, b);
        }
    }
}

/// The first position of a character outside all parentheses and brackets.
pub fn find_top_level_char(s: &Vec<char>, ch: char) -> (r: Option<usize>)
    ensures
        match r {
            Some(k) => top_level_char(s@, ch) == Some(k as int) && k < s.len() && s@[k as int]
                == ch,
            None => top_level_char(s@, ch) is None,
        },
{
    let mut parens: usize = 0;
    let mut brackets: usize = 0;
    let mut i: usize = 0;
    while i < s.len()
        invariant
            i <= s.len(),
            parens <= i,
            brackets <= i,
            top_level_char(s@, ch) == top_level_from(
                s@,
                ch,
                i as int,
                parens as nat,
                brackets as nat,
            ),
        decreases s.len() - i,
    {
        let c = s[i];
        if c == '(' {
            parens += 1;
        } else if c == ')' && parens > 0 {
            parens -= 1;
        }
        if c == '[' {
            brackets += 1;
        } else if c == ']' && brackets > 0 {
            brackets -= 1;
        }
        if c == ch && parens == 0 && brackets == 0 {
            return Some(i);
        }
        i += 1;
    }
    None
}

/// The expression that a piece of text writes, as far as the frontend
/// looks: a division at the first `/` outside all parentheses and brackets,
/// with both sides read in the same way; else a literal or a name.
pub open spec fn expr_of_text(text: Seq<char>, line: usize) -> ExprModel
    decreases text.len(),
    via expr_of_text_decreases
{
    let t = trim(text);
    match top_level_char(t, '/') {
        Some(pos) => ExprModel::BinaryOp {
            op: BinOp::Div,
            left: Box::new(expr_of_text(t.take(pos), line)),
            right: Box::new(expr_of_text(t.skip(pos + 1), line)),
            line,
        },
        None => literal_of(t, line),
    }
}

#[via_fn]
proof fn expr_of_text_decreases(text: Seq<char>, line: usize) {
    let t = trim(text);
    lemma_trim_len(text);
    lemma_top_level_from(t, '/', 0, 0, 0);
}

/// The expression that a piece of text writes.
pub fn parse_expr_heuristic(text: &Vec<char>, line: usize) -> (r: Expression)
    ensures
        r@ == expr_of_text(text@, line),
    decreases text.len(),
{
    let t = trimmed(text);
    proof {
        lemma_trim_len(text@);
    }
    match find_top_level_char(&t, '/') {
        Some(pos) => {
            let l = slice_of(&t, 0, pos);
            let r = slice_of(&t, pos + 1, t.len());
            Expression::BinaryOp {
                op: BinOp::Div,
                left: Box::new(parse_expr_heuristic(&l, line)),
                right: Box::new(parse_expr_heuristic(&r, line)),
                line,
            }
        },
        None => classify_literal(&t, line),
    }
}

/// The indexing that a line holds: the text before the first `[` as the
/// base, and the text between it and the next `]` as the index.
pub open spec fn index_expr_of(line: Seq<char>, line_no: usize) -> Option<ExprModel> {
    let txt = trim(line);
    match find(txt, "["@) {
        Some(lb) => match find(txt.skip(lb), "]"@) {
            Some(rb) => Some(
                ExprModel::Index {
                    base: Box::new(ExprModel::VariableRef(trim(txt.take(lb)))),
                    index: Box::new(ExprModel::VariableRef(trim(txt.subrange(lb + 1, lb + rb)))),
                    line: line_no,
                },
            ),
            None => None,
        },
        None => None,
    }
}

/// The indexing that a line holds, if it holds one.
pub fn extract_index_expr(line: &Vec<char>, line_no: usize) -> (r: Option<Expression>)
    ensures
        match r {
            Some(e) => index_expr_of(line@, line_no) == Some(e@),
            None => index_expr_of(line@, line_no) is None,
        },
{
    let txt = trimmed(line);
    let open = chars_of("[");
    let close = chars_of("]");
    proof {
        reveal_strlit("[");
        reveal_strlit("]");
        reveal_with_fuel(expr_view, 2);
    }
    match find_in(&txt, &open) {
        Some(lb) => {
            let rest = slice_of(&txt, lb, txt.len());
            match find_in(&rest, &close) {
                Some(rb) => {
                    proof {
                        lemma_find_contains(txt@, open@);
                        lemma_find_contains(rest@, close@);
                        assert(txt@.subrange(lb as int, lb + 1)[0] == '[');
                        assert(rest@.subrange(rb as int, rb + 1)[0] == ']');
                        assert(rest@[0] == '[');
                    }
                    let base = trimmed(&slice_of(&txt, 0, lb));
                    let idx = trimmed(&slice_of(&txt, lb + 1, lb + rb));
                    Some(
                        Expression::Index {
                            base: Box::new(Expression::VariableRef(string_of(&base))),
                            index: Box::new(Expression::VariableRef(string_of(&idx))),
                            line: line_no,
                        },
                    )
                },
                None => None,
            }
        },
        None => None,
    }
}

/// What a line is, by how it begins and ends. The tests are made in this
/// order, and the first that holds decides.
pub enum LineKind {
    Blank,
    BlockStart,
    BlockEnd,
    If,
    Else,
    EndIf,
    Assign,
    Call,
    Other,
}

/// What a line is.
pub open spec fn line_kind(line: Seq<char>) -> LineKind {
    if line.len() == 0 {
        LineKind::Blank
    } else if begins_with_keyword(line, "FUNCTION_BLOCK"@) || begins_with_keyword(
        line,
        "FUNCTION"@,
    ) || begins_with_keyword(line, "ORGANIZATION_BLOCK"@) {
        LineKind::BlockStart
    } else if begins_with_keyword(line, "END_FUNCTION_BLOCK"@) || begins_with_keyword(
        line,
        "END_FUNCTION"@,
    ) || begins_with_keyword(line, "END_ORGANIZATION_BLOCK"@) {
        LineKind::BlockEnd
    } else if begins_with_keyword(line, "IF "@) || has_prefix(upper(line), "IF("@) || has_prefix(
        upper(line),
        "IF ("@,
    ) {
        LineKind::If
    } else if has_prefix(upper(line), "ELSE"@) {
        LineKind::Else
    } else if has_prefix(upper(line), "END_IF"@) {
        LineKind::EndIf
    } else if contains(line, ":="@) && has_suffix(trim_end(line), ";"@) {
        LineKind::Assign
    } else if call_shaped(line) {
        LineKind::Call
    } else {
        LineKind::Other
    }
}

/// What a line is.
pub fn classify(line: &Vec<char>) -> (k: LineKind)
    ensures
        k == line_kind(line@),
{
    if line.len() == 0 {
        return LineKind::Blank;
    }
    if starts_with_keyword(line, "FUNCTION_BLOCK") || starts_with_keyword(line, "FUNCTION")
        || starts_with_keyword(line, "ORGANIZATION_BLOCK") {
        return LineKind::BlockStart;
    }
    if starts_with_keyword(line, "END_FUNCTION_BLOCK") || starts_with_keyword(line, "END_FUNCTION")
        || starts_with_keyword(line, "END_ORGANIZATION_BLOCK") {
        return LineKind::BlockEnd;
    }
    let up = to_upper(line);
    if starts_with_keyword(line, "IF ") || starts_with_str(&up, "IF(") || starts_with_str(
        &up,
        "IF (",
    ) {
        return LineKind::If;
    }
    if starts_with_str(&up, "ELSE") {
        return LineKind::Else;
    }
    if starts_with_str(&up, "END_IF") {
        return LineKind::EndIf;
    }
    let e = trimmed_end(line);
    if contains_str(line, ":=") && ends_with_str(&e, ";") {
        return LineKind::Assign;
    }
    if looks_like_call(line) {
        return LineKind::Call;
    }
    LineKind::Other
}

/// The name that a block's opening line gives it.
pub open spec fn block_name(line: Seq<char>) -> Seq<char> {
    match second_token(line) {
        Some(t) => t,
        None => "Unnamed"@,
    }
}

/// The kind that a block's opening line gives it: by the keyword for
/// functions and function blocks, by the name for organisation blocks.
pub open spec fn block_kind(line: Seq<char>) -> FunctionKind {
    if begins_with_keyword(line, "FUNCTION_BLOCK"@) {
        FunctionKind::FB
    } else if begins_with_keyword(line, "FUNCTION"@) {
        FunctionKind::FC
    } else {
        organisation_kind(block_name(line))
    }
}

/// The statement that an assignment line writes.
pub open spec fn assign_of(line: Seq<char>, line_no: usize) -> StmtModel {
    let (lhs, rhs) = match split_first(line, ":="@) {
        Some(parts) => parts,
        None => (line, Seq::empty()),
    };
    StmtModel::Assign {
        target: strip_end(trim(lhs), ';'),
        value: expr_of_text(strip_end(trim(rhs), ';'), line_no),
        line: line_no,
    }
}

/// The statement that a call line writes: the callee is what stands before
/// the first parenthesis; arguments are not kept.
pub open spec fn call_of(line: Seq<char>, line_no: usize) -> StmtModel {
    let head = match find(line, "("@) {
        Some(k) => line.take(k),
        None => line,
    };
    StmtModel::Call { name: strip_end(trim(head), ';'), args: Seq::empty(), line: line_no }
}

fn read_assign(line: &Vec<char>, line_no: usize) -> (st: Statement)
    ensures
        st@ == assign_of(line@, line_no),
{
    let (lhs, rhs) = match split_once(line, ":=") {
        Some(parts) => parts,
        None => {
            assert(line@.subrange(0, line@.len() as int) =~= line@);
            (slice_of(line, 0, line.len()), Vec::new())
        },
    };
    let target = stripped_end(&trimmed(&lhs), ';');
    let value_text = stripped_end(&trimmed(&rhs), ';');
    Statement::Assign {
        target: Variable { name: string_of(&target) },
        value: parse_expr_heuristic(&value_text, line_no),
        line: line_no,
    }
}

fn read_call(line: &Vec<char>, line_no: usize) -> (st: Statement)
    ensures
        st@ == call_of(line@, line_no),
{
    let paren = chars_of("(");
    let head = match find_in(line, &paren) {
        Some(k) => slice_of(line, 0, k),
        None => {
            assert(line@.subrange(0, line@.len() as int) =~= line@);
            slice_of(line, 0, line.len())
        },
    };
    let name = stripped_end(&trimmed(&head), ';');
    let st = Statement::Call { name: string_of(&name), args: Vec::new(), line: line_no };
    assert(args_view(Seq::<(String, Expression)>::empty()) =~= Seq::empty());
    st
}

/// The model of an open conditional: its condition, the line that opened
/// it, the statements gathered for either branch, and whether its `ELSE` has
/// been passed.
pub struct FrameModel {
    pub condition: Seq<char>,
    pub line: usize,
    pub then_part: Seq<StmtModel>,
    pub else_part: Seq<StmtModel>,
    pub seen_else: bool,
}

/// The model of the frontend's state between two lines: the routines that
/// are complete, the routine that is open, and the conditionals that are
/// open, the innermost last.
pub struct SclState {
    pub functions: Seq<FunctionModel>,
    pub current: Option<FunctionModel>,
    pub frames: Seq<FrameModel>,
}

/// The state before the first line.
pub open spec fn initial_state() -> SclState {
    SclState { functions: Seq::empty(), current: None, frames: Seq::empty() }
}

/// The conditional that a frame becomes when it is closed.
pub open spec fn frame_stmt(f: FrameModel) -> StmtModel {
    StmtModel::IfStmt {
        condition: ExprModel::VariableRef(f.condition),
        then_branch: f.then_part,
        else_branch: f.else_part,
        line: f.line,
    }
}

/// The frame with one more statement, in the branch that is being filled.
pub open spec fn frame_with(f: FrameModel, st: StmtModel) -> FrameModel {
    if f.seen_else {
        FrameModel { else_part: f.else_part.push(st), ..f }
    } else {
        FrameModel { then_part: f.then_part.push(st), ..f }
    }
}

/// The state with one more statement: in the innermost open conditional, or
/// in the open routine where no conditional is open. Outside any routine a
/// statement is dropped.
pub open spec fn with_stmt(s: SclState, st: StmtModel) -> SclState {
    match s.current {
        None => s,
        Some(f) => if s.frames.len() > 0 {
            SclState {
                frames: s.frames.update(s.frames.len() - 1, frame_with(s.frames.last(), st)),
                ..s
            }
        } else {
            SclState {
                current: Some(FunctionModel { statements: f.statements.push(st), ..f }),
                ..s
            }
        },
    }
}

/// The state with one more open conditional, innermost.
pub open spec fn with_frame(s: SclState, condition: Seq<char>, line: usize) -> SclState {
    SclState {
        frames: s.frames.push(
            FrameModel {
                condition,
                line,
                then_part: Seq::empty(),
                else_part: Seq::empty(),
                seen_else: false,
            },
        ),
        ..s
    }
}

/// The state after an `ELSE`: the innermost open conditional fills its
/// second branch from now on.
pub open spec fn with_else(s: SclState) -> SclState {
    if s.frames.len() > 0 {
        SclState {
            frames: s.frames.update(
                s.frames.len() - 1,
                FrameModel { seen_else: true, ..s.frames.last() },
            ),
            ..s
        }
    } else {
        s
    }
}

/// The state after the innermost open conditional is closed: it becomes one
/// statement of the scope around it.
pub open spec fn frame_closed(s: SclState) -> SclState {
    if s.frames.len() > 0 {
        with_stmt(SclState { frames: s.frames.drop_last(), ..s }, frame_stmt(s.frames.last()))
    } else {
        s
    }
}

/// The state after every open conditional is closed, the innermost first.
pub open spec fn frames_closed(s: SclState) -> SclState
    decreases s.frames.len(),
{
    if s.frames.len() > 0 {
        frames_closed(frame_closed(s))
    } else {
        s
    }
}

/// The state after the open routine, if there is one, is closed: the
/// conditionals still open are closed into it, and it joins the program.
pub open spec fn routine_closed(s: SclState) -> SclState {
    match s.current {
        None => s,
        Some(_) => {
            let t = frames_closed(s);
            match t.current {
                Some(f) => SclState {
                    functions: t.functions.push(f),
                    current: None,
                    frames: t.frames,
                },
                None => t,
            }
        },
    }
}

/// The state with a new open routine, in place of the one that was open.
pub open spec fn routine_opened(
    s: SclState,
    name: Seq<char>,
    kind: FunctionKind,
    line: usize,
) -> SclState {
    SclState {
        current: Some(FunctionModel { name, kind, statements: Seq::empty(), line }),
        ..s
    }
}

struct IfFrame {
    condition: String,
    line: usize,
    then_part: Vec<Statement>,
    else_part: Vec<Statement>,
    seen_else: bool,
}

struct SclBuilder {
    functions: Vec<Function>,
    current: Option<Function>,
    frames: Vec<IfFrame>,
}

impl View for IfFrame {
    type V = FrameModel;

    closed spec fn view(&self) -> FrameModel {
        FrameModel {
            condition: self.condition@,
            line: self.line,
            then_part: stmts_view(self.then_part@),
            else_part: stmts_view(self.else_part@),
            seen_else: self.seen_else,
        }
    }
}

spec fn frames_view(s: Seq<IfFrame>) -> Seq<FrameModel> {
    Seq::new(s.len(), |i: int| s[i]@)
}

impl View for SclBuilder {
    type V = SclState;

    closed spec fn view(&self) -> SclState {
        SclState {
            functions: functions_view(self.functions@),
            current: match self.current {
                Some(f) => Some(f@),
                None => None,
            },
            frames: frames_view(self.frames@),
        }
    }
}

fn push_stmt(b: &mut SclBuilder, st: Statement)
    ensures
        final(b)@ == with_stmt(old(b)@, st@),
{
    if b.current.is_none() {
        return ;
    }
    if b.frames.len() > 0 {
        let ghost before = b.frames@;
        let mut top = b.frames.pop().unwrap();
        let ghost old_top = top@;
        proof {
            lemma_stmts_view_push(top.then_part@, st);
            lemma_stmts_view_push(top.else_part@, st);
        }
        if top.seen_else {
            top.else_part.push(st);
        } else {
            top.then_part.push(st);
        }
        assert(top@ == frame_with(old_top, st@));
        b.frames.push(top);
        assert(frames_view(b.frames@) =~= frames_view(before).update(
            before.len() - 1,
            frame_with(frames_view(before).last(), st@),
        ));
    } else {
        let mut f = b.current.take().unwrap();
        proof {
            lemma_stmts_view_push(f.statements@, st);
        }
        f.statements.push(st);
        b.current = Some(f);
    }
}

fn open_frame(b: &mut SclBuilder, condition: String, line: usize)
    ensures
        final(b)@ == with_frame(old(b)@, condition@, line),
{
    let ghost before = b.frames@;
    let frame = IfFrame {
        condition,
        line,
        then_part: Vec::new(),
        else_part: Vec::new(),
        seen_else: false,
    };
    assert(stmts_view(Seq::<Statement>::empty()) =~= Seq::empty());
    b.frames.push(frame);
    assert(frames_view(b.frames@) =~= frames_view(before).push(frame@));
}

fn mark_else(b: &mut SclBuilder)
    ensures
        final(b)@ == with_else(old(b)@),
{
    if b.frames.len() > 0 {
        let ghost before = b.frames@;
        let mut top = b.frames.pop().unwrap();
        top.seen_else = true;
        b.frames.push(top);
        assert(frames_view(b.frames@) =~= frames_view(before).update(
            before.len() - 1,
            FrameModel { seen_else: true, ..frames_view(before).last() },
        ));
    }
}

fn close_frame(b: &mut SclBuilder)
    ensures
        final(b)@ == frame_closed(old(b)@),
{
    if b.frames.len() > 0 {
        let ghost before = b.frames@;
        let top = b.frames.pop().unwrap();
        assert(frames_view(b.frames@) =~= frames_view(before).drop_last());
        let node = Statement::IfStmt {
            condition: Expression::VariableRef(top.condition),
            then_branch: top.then_part,
            else_branch: top.else_part,
            line: top.line,
        };
        assert(node@ == frame_stmt(frames_view(before).last()));
        push_stmt(b, node);
    }
}

fn close_routine(b: &mut SclBuilder)
    ensures
        final(b)@ == routine_closed(old(b)@),
{
    if b.current.is_none() {
        return ;
    }
    while b.frames.len() > 0
        invariant
            b.current is Some,
            frames_closed(b@) == frames_closed(old(b)@),
        decreases b.frames.len(),
    {
        close_frame(b);
    }
    let ghost t = b@;
    assert(t == frames_closed(old(b)@));
    let f = b.current.take().unwrap();
    proof {
        lemma_functions_view_push(b.functions@, f);
    }
    b.functions.push(f);
}

fn open_routine(b: &mut SclBuilder, name: String, kind: FunctionKind, line: usize)
    ensures
        final(b)@ == routine_opened(old(b)@, name@, kind, line),
{
    assert(stmts_view(Seq::<Statement>::empty()) =~= Seq::empty());
    b.current = Some(Function { name, kind, statements: Vec::new(), line });
}

/// A source line as the frontend reads it: without comments, then trimmed.
pub open spec fn clean(raw: Seq<char>) -> Seq<char> {
    trim(comment_free(raw))
}

/// The condition of a conditional whose `THEN` stands on a later line, and
/// the number of lines read when it is complete. `cond` is what has been
/// gathered before line `j`. Each further line is joined on with a blank,
/// without its comments and trimmed; of the line that holds `THEN`, what
/// stands before it. Where no `THEN` follows, the condition runs to the end
/// of the text.
pub open spec fn gathered(lines: Seq<Seq<char>>, j: int, cond: Seq<char>) -> (Seq<char>, int)
    decreases lines.len() - j,
{
    if 0 <= j < lines.len() {
        let nxt = comment_free(lines[j]);
        match find(upper(nxt), "THEN"@) {
            Some(ti) => (trim(cond + seq![' '] + trim(nxt.take(ti))), j + 1),
            None => gathered(lines, j + 1, cond + seq![' '] + trim(nxt)),
        }
    } else {
        (trim(cond), j)
    }
}

/// The condition of the conditional that opens on line `i`, and the number
/// of lines read when its header is complete: the text between `IF` and the
/// first `THEN` where both stand on the one line, else what the following
/// lines add.
pub open spec fn if_header(lines: Seq<Seq<char>>, i: int) -> (Seq<char>, int) {
    let line = clean(lines[i]);
    match find(upper(line), "THEN"@) {
        Some(idx) => (trim(line.subrange(2, idx)), i + 1),
        None => gathered(lines, i + 1, trim(line.skip(2))),
    }
}

/// Gathering a condition moves forward, and not beyond the lines.
pub proof fn lemma_gathered_bounds(lines: Seq<Seq<char>>, j: int, cond: Seq<char>)
    requires
        0 <= j <= lines.len(),
    ensures
        j <= gathered(lines, j, cond).1 <= lines.len(),
    decreases lines.len() - j,
{
    if j < lines.len() {
        let nxt = comment_free(lines[j]);
        if find(upper(nxt), "THEN"@) is None {
            lemma_gathered_bounds(lines, j + 1, cond + seq![' '] + trim(nxt));
        }
    }
}

/// The header of a conditional takes its own line at least, and no more
/// lines than there are.
pub proof fn lemma_if_header_bounds(lines: Seq<Seq<char>>, i: int)
    requires
        0 <= i < lines.len(),
    ensures
        i < if_header(lines, i).1 <= lines.len(),
{
    let line = clean(lines[i]);
    lemma_gathered_bounds(lines, i + 1, trim(line.skip(2)));
}

/// The state after the lines from `i` on have been read, one after the
/// other, `s` being the state before line `i`.
pub open spec fn scl_run(lines: Seq<Seq<char>>, i: int, s: SclState) -> SclState
    decreases lines.len() - i,
    via scl_run_decreases
{
    if 0 <= i < lines.len() {
        let line = clean(lines[i]);
        let line_no = (i + 1) as usize;
        match line_kind(line) {
            LineKind::Blank => scl_run(lines, i + 1, s),
            LineKind::BlockStart => scl_run(
                lines,
                i + 1,
                routine_opened(routine_closed(s), block_name(line), block_kind(line), line_no),
            ),
            LineKind::BlockEnd => scl_run(lines, i + 1, routine_closed(s)),
            LineKind::If => {
                let (cond, next) = if_header(lines, i);
                scl_run(lines, next, with_frame(s, cond, next as usize))
            },
            LineKind::Else => scl_run(lines, i + 1, with_else(s)),
            LineKind::EndIf => scl_run(lines, i + 1, frame_closed(s)),
            LineKind::Assign => scl_run(lines, i + 1, with_stmt(s, assign_of(line, line_no))),
            LineKind::Call => scl_run(lines, i + 1, with_stmt(s, call_of(line, line_no))),
            LineKind::Other => match index_expr_of(line, line_no) {
                Some(e) => scl_run(
                    lines,
                    i + 1,
                    with_stmt(s, StmtModel::Expr { expr: e, line: line_no }),
                ),
                None => scl_run(lines, i + 1, s),
            },
        }
    } else {
        s
    }
}

#[via_fn]
proof fn scl_run_decreases(lines: Seq<Seq<char>>, i: int, s: SclState) {
    if 0 <= i < lines.len() {
        lemma_if_header_bounds(lines, i);
    }
}

/// The program that a source text in structured text writes: its lines are
/// read in order from the empty state, and the routine left open at the end
/// is closed.
pub open spec fn scl_program(src: Seq<char>) -> ProgramModel {
    ProgramModel { functions: routine_closed(scl_run(lines(src), 0, initial_state())).functions }
}

proof fn lemma_if_line_shape(x: Seq<char>)
    requires
        line_kind(trim(x)) is If,
    ensures
        trim(x).len() >= 3,
        upper(trim(x))[0] == 'I',
        upper(trim(x))[1] == 'F',
{
    let line = trim(x);
    let up = upper(line);
    lemma_trimmed_has_no_leading_space(x);
    reveal_strlit("IF ");
    reveal_strlit("IF(");
    reveal_strlit("IF (");
    if begins_with_keyword(line, "IF "@) {
        assert(upper("IF "@).len() == 3);
        assert(up.subrange(0, 3)[0] == upper("IF "@)[0]);
        assert(up.subrange(0, 3)[1] == upper("IF "@)[1]);
    } else if has_prefix(up, "IF("@) {
        assert(up.subrange(0, 3)[0] == 'I');
        assert(up.subrange(0, 3)[1] == 'F');
    } else {
        assert(up.subrange(0, 4)[0] == 'I');
        assert(up.subrange(0, 4)[1] == 'F');
    }
}

proof fn lemma_then_follows_if(x: Seq<char>, idx: int)
    requires
        line_kind(trim(x)) is If,
        find(upper(trim(x)), "THEN"@) == Some(idx),
    ensures
        2 <= idx <= trim(x).len(),
{
    let up = upper(trim(x));
    lemma_if_line_shape(x);
    reveal_strlit("THEN");
    lemma_find_contains(up, "THEN"@);
    assert(up.subrange(idx, idx + 4)[0] == 'T');
}

fn gather_condition(
    lines: &Vec<Vec<char>>,
    start: usize,
    first: Vec<char>,
) -> (r: (Vec<char>, usize))
    requires
        start <= lines.len(),
    ensures
        (r.0@, r.1 as int) == gathered(texts(lines@), start as int, first@),
        start <= r.1 <= lines.len(),
{
    let mut cond = first;
    let mut j: usize = start;
    let then_word = chars_of("THEN");
    while j < lines.len()
        invariant
            start <= j <= lines.len(),
            then_word@ == "THEN"@,
            gathered(texts(lines@), start as int, first@) == gathered(
                texts(lines@),
                j as int,
                cond@,
            ),
        decreases lines.len() - j,
    {
        assert(texts(lines@)[j as int] == lines@[j as int]@);
        let ghost before = cond@;
        let nxt = strip_inline_comment(&lines[j]);
        cond.push(' ');
        j += 1;
        match find_in(&to_upper(&nxt), &then_word) {
            Some(ti) => {
                push_all(&mut cond, &trimmed(&slice_of(&nxt, 0, ti)));
                assert(cond@ =~= before + seq![' '] + trim(nxt@.take(ti as int)));
                return (trimmed(&cond), j);
            },
            None => {
                push_all(&mut cond, &trimmed(&nxt));
                assert(cond@ =~= before + seq![' '] + trim(nxt@));
            },
        }
    }
    (trimmed(&cond), j)
}

fn read_if_header(lines: &Vec<Vec<char>>, i: usize, line: &Vec<char>) -> (r: (Vec<char>, usize))
    requires
        i < lines.len(),
        line@ == clean(texts(lines@)[i as int]),
        line_kind(line@) is If,
    ensures
        (r.0@, r.1 as int) == if_header(texts(lines@), i as int),
        i < r.1 <= lines.len(),
{
    let then_word = chars_of("THEN");
    match find_in(&to_upper(line), &then_word) {
        Some(idx) => {
            proof {
                lemma_then_follows_if(comment_free(texts(lines@)[i as int]), idx as int);
            }
            (trimmed(&slice_of(line, 2, idx)), i + 1)
        },
        None => {
            proof {
                lemma_if_line_shape(comment_free(texts(lines@)[i as int]));
            }
            gather_condition(lines, i + 1, trimmed(&slice_of(line, 2, line.len())))
        },
    }
}

/// Reads a program in structured text. Malformed input is no error: what is
/// left open at the end of a routine or of the text is closed there.
pub fn parse_scl_from_str(src: &str) -> (r: Result<Program, String>)
    ensures
        r matches Ok(p) && p@ == scl_program(src@),
{
    let text = chars_of(src);
    let lines = lines_of(&text);
    let mut b = SclBuilder { functions: Vec::new(), current: None, frames: Vec::new() };
    assert(b@ == initial_state()) by {
        assert(functions_view(b.functions@) =~= Seq::empty());
        assert(frames_view(b.frames@) =~= Seq::empty());
    }
    let mut i: usize = 0;
    while i < lines.len()
        invariant
            i <= lines.len(),
            scl_run(texts(lines@), 0, initial_state()) == scl_run(texts(lines@), i as int, b@),
        decreases lines.len() - i,
    {
        assert(texts(lines@)[i as int] == lines@[i as int]@);
        let line = trimmed(&strip_inline_comment(&lines[i]));
        let line_no: usize = i + 1;
        match classify(&line) {
            LineKind::Blank => {
                i += 1;
            },
            LineKind::BlockStart => {
                close_routine(&mut b);
                let name = match grab_second_token(&line) {
                    Some(t) => t,
                    None => chars_of("Unnamed"),
                };
                let kind = if starts_with_keyword(&line, "FUNCTION_BLOCK") {
                    FunctionKind::FB
                } else if starts_with_keyword(&line, "FUNCTION") {
                    FunctionKind::FC
                } else {
                    kind_of_name(&name)
                };
                open_routine(&mut b, string_of(&name), kind, line_no);
                i += 1;
            },
            LineKind::BlockEnd => {
                close_routine(&mut b);
                i += 1;
            },
            LineKind::If => {
                let (cond, next) = read_if_header(&lines, i, &line);
                open_frame(&mut b, string_of(&cond), next);
                i = next;
            },
            LineKind::Else => {
                mark_else(&mut b);
                i += 1;
            },
            LineKind::EndIf => {
                close_frame(&mut b);
                i += 1;
            },
            LineKind::Assign => {
                push_stmt(&mut b, read_assign(&line, line_no));
                i += 1;
            },
            LineKind::Call => {
                push_stmt(&mut b, read_call(&line, line_no));
                i += 1;
            },
            LineKind::Other => {
                match extract_index_expr(&line, line_no) {
                    Some(e) => {
                        push_stmt(&mut b, Statement::Expr { expr: e, line: line_no });
                    },
                    None => {},
                }
                i += 1;
            },
        }
    }
    close_routine(&mut b);
    Ok(Program { functions: b.functions })
}

} // verus!
