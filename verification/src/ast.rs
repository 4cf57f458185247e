//! The syntax tree that every frontend produces and every rule reads, and
//! the mathematical model of each of its types.
//!
//! A model differs from its type only in holding sequences where the type
//! holds strings and vectors; contracts speak of the models.

use vstd::prelude::*;

verus! {

/// A program: its routines in the order in which the source gives them.
#[derive(Debug, Clone, PartialEq, Eq)]
pub struct Program {
    pub functions: Vec<Function>,
}

/// A routine with its body and the source line on which it was first seen.
#[derive(Debug, Clone, PartialEq, Eq)]
pub struct Function {
    pub name: String,
    pub kind: FunctionKind,
    pub statements: Vec<Statement>,
    pub line: usize,
}

/// The kind of a routine: function, function block, or organisation block,
/// the latter with the numbered blocks that rules look for by identity.
#[derive(Debug, Clone, Copy, PartialEq, Eq, Structural)]
pub enum FunctionKind {
    FC,
    FB,
    OB,
    OB1,
    OB100,
    OB82,
    OB86,
    OB121,
}

/// The symbolic name that an assignment writes to.
#[derive(Debug, Clone, PartialEq, Eq)]
pub struct Variable {
    pub name: String,
}

/// A statement of a routine.
#[derive(Debug, PartialEq, Eq)]
pub enum Statement {
    /// `target := value;`
    Assign { target: Variable, value: Expression, line: usize },
    /// `name(...);`
    Call { name: String, args: Vec<(String, Expression)>, line: usize },
    /// `IF condition THEN then_branch [ELSE else_branch] END_IF`
    IfStmt {
        condition: Expression,
        then_branch: Vec<Statement>,
        else_branch: Vec<Statement>,
        line: usize,
    },
    /// An expression standing alone, kept for the indexing it holds.
    Expr { expr: Expression, line: usize },
    /// A comment kept for the annotations that rules read.
    Comment { text: String, line: usize },
}

/// The binary operators.
#[derive(Debug, Clone, Copy, PartialEq, Eq, Structural)]
pub enum BinOp {
    Div,
    Add,
    Sub,
    Mul,
    Eq,
    Lt,
    Le,
    Gt,
    Ge,
}

/// An expression. Literals, operations and indexings carry the source line
/// on which they stand.
#[derive(Debug, PartialEq, Eq)]
pub enum Expression {
    VariableRef(String),
    NumberLiteral(i64, usize),
    BoolLiteral(bool, usize),
    BinaryOp { op: BinOp, left: Box<Expression>, right: Box<Expression>, line: usize },
    Index { base: Box<Expression>, index: Box<Expression>, line: usize },
}

/// The model of an expression.
pub enum ExprModel {
    VariableRef(Seq<char>),
    NumberLiteral(i64, usize),
    BoolLiteral(bool, usize),
    BinaryOp { op: BinOp, left: Box<ExprModel>, right: Box<ExprModel>, line: usize },
    Index { base: Box<ExprModel>, index: Box<ExprModel>, line: usize },
}

/// The model of a statement.
pub enum StmtModel {
    Assign { target: Seq<char>, value: ExprModel, line: usize },
    Call { name: Seq<char>, args: Seq<(Seq<char>, ExprModel)>, line: usize },
    IfStmt {
        condition: ExprModel,
        then_branch: Seq<StmtModel>,
        else_branch: Seq<StmtModel>,
        line: usize,
    },
    Expr { expr: ExprModel, line: usize },
    Comment { text: Seq<char>, line: usize },
}

/// The model of a routine.
pub struct FunctionModel {
    pub name: Seq<char>,
    pub kind: FunctionKind,
    pub statements: Seq<StmtModel>,
    pub line: usize,
}

/// The model of a program.
pub struct ProgramModel {
    pub functions: Seq<FunctionModel>,
}

/// The model of an expression.
pub open spec fn expr_view(e: Expression) -> ExprModel
    decreases e,
{
    match e {
        Expression::VariableRef(s) => ExprModel::VariableRef(s@),
        Expression::NumberLiteral(n, l) => ExprModel::NumberLiteral(n, l),
        Expression::BoolLiteral(b, l) => ExprModel::BoolLiteral(b, l),
        Expression::BinaryOp { op, left, right, line } => ExprModel::BinaryOp {
            op,
            left: Box::new(expr_view(*left)),
            right: Box::new(expr_view(*right)),
            line,
        },
        Expression::Index { base, index, line } => ExprModel::Index {
            base: Box::new(expr_view(*base)),
            index: Box::new(expr_view(*index)),
            line,
        },
    }
}

/// The models of the arguments of a call, one for one.
pub open spec fn args_view(a: Seq<(String, Expression)>) -> Seq<(Seq<char>, ExprModel)> {
    Seq::new(a.len(), |i: int| (a[i].0@, expr_view(a[i].1)))
}

/// The model of a statement.
pub open spec fn stmt_view(st: Statement) -> StmtModel
    decreases st,
{
    match st {
        Statement::Assign { target, value, line } => StmtModel::Assign {
            target: target.name@,
            value: expr_view(value),
            line,
        },
        Statement::Call { name, args, line } => StmtModel::Call {
            name: name@,
            args: args_view(args@),
            line,
        },
        Statement::IfStmt { condition, then_branch, else_branch, line } => StmtModel::IfStmt {
            condition: expr_view(condition),
            then_branch: stmts_view(then_branch@),
            else_branch: stmts_view(else_branch@),
            line,
        },
        Statement::Expr { expr, line } => StmtModel::Expr { expr: expr_view(expr), line },
        Statement::Comment { text, line } => StmtModel::Comment { text: text@, line },
    }
}

/// The models of a sequence of statements, one for one.
pub open spec fn stmts_view(s: Seq<Statement>) -> Seq<StmtModel>
    decreases s,
{
    Seq::new(
        s.len(),
        |i: int|
            if 0 <= i < s.len() {
                stmt_view(s[i])
            } else {
                arbitrary()
            },
    )
}

/// The models of a sequence of routines, one for one.
pub open spec fn functions_view(s: Seq<Function>) -> Seq<FunctionModel> {
    Seq::new(s.len(), |i: int| s[i]@)
}

impl View for Expression {
    type V = ExprModel;

    open spec fn view(&self) -> ExprModel {
        expr_view(*self)
    }
}

impl View for Statement {
    type V = StmtModel;

    open spec fn view(&self) -> StmtModel {
        stmt_view(*self)
    }
}

impl View for Function {
    type V = FunctionModel;

    open spec fn view(&self) -> FunctionModel {
        FunctionModel {
            name: self.name@,
            kind: self.kind,
            statements: stmts_view(self.statements@),
            line: self.line,
        }
    }
}

impl View for Program {
    type V = ProgramModel;

    open spec fn view(&self) -> ProgramModel {
        ProgramModel { functions: functions_view(self.functions@) }
    }
}

/// The number of conditionals among the statements, nested ones included.
pub open spec fn branch_count(stmts: Seq<StmtModel>) -> nat
    decreases stmts,
{
    if stmts.len() == 0 {
        0
    } else {
        branch_count(stmts.drop_last()) + branches_of(stmts.last())
    }
}

/// The number of conditionals that one statement holds, itself included.
pub open spec fn branches_of(st: StmtModel) -> nat
    decreases st,
{
    match st {
        StmtModel::IfStmt { then_branch, else_branch, .. } => 1 + branch_count(then_branch)
            + branch_count(else_branch),
        _ => 0,
    }
}

/// Pushing a statement pushes its model.
pub proof fn lemma_stmts_view_push(s: Seq<Statement>, st: Statement)
    ensures
        stmts_view(s.push(st)) == stmts_view(s).push(stmt_view(st)),
{
    assert(stmts_view(s.push(st)) =~= stmts_view(s).push(stmt_view(st)));
}

/// Pushing a routine pushes its model.
pub proof fn lemma_functions_view_push(s: Seq<Function>, f: Function)
    ensures
        functions_view(s.push(f)) == functions_view(s).push(f@),
{
    assert(functions_view(s.push(f)) =~= functions_view(s).push(f@));
}

/// A copy of an expression.
pub fn clone_expr(e: &Expression) -> (r: Expression)
    ensures
        r@ == e@,
    decreases e,
{
    match e {
        Expression::VariableRef(s) => Expression::VariableRef(s.clone()),
        Expression::NumberLiteral(n, l) => Expression::NumberLiteral(*n, *l),
        Expression::BoolLiteral(b, l) => Expression::BoolLiteral(*b, *l),
        Expression::BinaryOp { op, left, right, line } => Expression::BinaryOp {
            op: *op,
            left: Box::new(clone_expr(left)),
            right: Box::new(clone_expr(right)),
            line: *line,
        },
        Expression::Index { base, index, line } => Expression::Index {
            base: Box::new(clone_expr(base)),
            index: Box::new(clone_expr(index)),
            line: *line,
        },
    }
}

/// A copy of a statement.
pub fn clone_stmt(st: &Statement) -> (r: Statement)
    ensures
        r@ == st@,
    decreases st,
{
    match st {
        Statement::Assign { target, value, line } => Statement::Assign {
            target: Variable { name: target.name.clone() },
            value: clone_expr(value),
            line: *line,
        },
        Statement::Call { name, args, line } => {
            let mut copy: Vec<(String, Expression)> = Vec::new();
            let mut i: usize = 0;
            while i < args.len()
                invariant
                    i <= args.len(),
                    args_view(copy@) == args_view(args@).take(i as int),
                decreases args.len() - i,
            {
                let ghost before = copy@;
                let item = (args[i].0.clone(), clone_expr(&args[i].1));
                copy.push(item);
                i += 1;
                assert(args_view(copy@) =~= args_view(before).push((item.0@, expr_view(item.1))));
                assert(args_view(copy@) =~= args_view(args@).take(i as int));
            }
            assert(args_view(copy@) =~= args_view(args@));
            Statement::Call { name: name.clone(), args: copy, line: *line }
        },
        Statement::IfStmt { condition, then_branch, else_branch, line } => Statement::IfStmt {
            condition: clone_expr(condition),
            then_branch: clone_stmts(then_branch),
            else_branch: clone_stmts(else_branch),
            line: *line,
        },
        Statement::Expr { expr, line } => Statement::Expr { expr: clone_expr(expr), line: *line },
        Statement::Comment { text, line } => Statement::Comment {
            text: text.clone(),
            line: *line,
        },
    }
}

/// A copy of a sequence of statements.
pub fn clone_stmts(s: &Vec<Statement>) -> (r: Vec<Statement>)
    ensures
        stmts_view(r@) == stmts_view(s@),
    decreases s,
{
    let mut r: Vec<Statement> = Vec::new();
    let mut i: usize = 0;
    while i < s.len()
        invariant
            i <= s.len(),
            stmts_view(r@) == stmts_view(s@).take(i as int),
        decreases s.len() - i,
    {
        let ghost before = r@;
        let item = clone_stmt(&s[i]);
        r.push(item);
        i += 1;
        proof {
            lemma_stmts_view_push(before, item);
        }
        assert(stmts_view(r@) =~= stmts_view(s@).take(i as int));
    }
    assert(stmts_view(r@) =~= stmts_view(s@));
    r
}

impl Clone for Expression {
    fn clone(&self) -> (r: Self)
        ensures
            r@ == self@,
    {
        clone_expr(self)
    }
}

impl Clone for Statement {
    fn clone(&self) -> (r: Self)
        ensures
            r@ == self@,
    {
        clone_stmt(self)
    }
}

/// The models of the first `i + 1` statements are those of the first `i`
/// and the model of the next.
pub proof fn lemma_stmts_view_step(s: Seq<Statement>, i: int)
    requires
        0 <= i < s.len(),
    ensures
        stmts_view(s).take(i + 1).drop_last() == stmts_view(s).take(i),
        stmts_view(s).take(i + 1).last() == stmt_view(s[i]),
        stmts_view(s).take(s.len() as int) == stmts_view(s),
{
    assert(stmts_view(s).take(i + 1).drop_last() =~= stmts_view(s).take(i));
    assert(stmts_view(s).take(s.len() as int) =~= stmts_view(s));
}

/// The statements in the order of the source, at every depth: each
/// conditional is followed by the statements of its first branch, then by
/// those of its second.
pub open spec fn flattened(stmts: Seq<StmtModel>) -> Seq<StmtModel>
    decreases stmts,
{
    if stmts.len() == 0 {
        Seq::empty()
    } else {
        flattened(stmts.drop_last()) + flattened_of(stmts.last())
    }
}

/// A statement, followed by the statements that it holds.
pub open spec fn flattened_of(st: StmtModel) -> Seq<StmtModel>
    decreases st,
{
    match st {
        StmtModel::IfStmt { then_branch, else_branch, .. } => seq![st] + flattened(then_branch)
            + flattened(else_branch),
        _ => seq![st],
    }
}

/// Appends the statements in the order of the source, at every depth.
pub fn push_flat(stmts: &Vec<Statement>, out: &mut Vec<Statement>)
    ensures
        stmts_view(final(out)@) == stmts_view(old(out)@) + flattened(stmts_view(stmts@)),
    decreases stmts,
{
    let ghost sv = stmts_view(stmts@);
    let mut i: usize = 0;
    assert(stmts_view(out@) =~= stmts_view(old(out)@) + flattened(sv.take(0)));
    while i < stmts.len()
        invariant
            i <= stmts.len(),
            sv == stmts_view(stmts@),
            stmts_view(out@) == stmts_view(old(out)@) + flattened(sv.take(i as int)),
        decreases stmts.len() - i,
    {
        proof {
            lemma_stmts_view_step(stmts@, i as int);
        }
        let ghost before = stmts_view(out@);
        let copy = clone_stmt(&stmts[i]);
        proof {
            lemma_stmts_view_push(out@, copy);
        }
        out.push(copy);
        match &stmts[i] {
            Statement::IfStmt { then_branch, else_branch, .. } => {
                push_flat(then_branch, out);
                push_flat(else_branch, out);
            },
            _ => {},
        }
        assert(stmts_view(out@) =~= before + flattened_of(stmts@[i as int]@));
        i += 1;
        assert(stmts_view(out@) =~= stmts_view(old(out)@) + flattened(sv.take(i as int)));
    }
    proof {
        if stmts.len() > 0 {
            lemma_stmts_view_step(stmts@, 0);
        } else {
            assert(sv.take(0) =~= sv);
        }
    }
}

/// The statements in the order of the source, at every depth.
pub fn flatten(stmts: &Vec<Statement>) -> (r: Vec<Statement>)
    ensures
        stmts_view(r@) == flattened(stmts_view(stmts@)),
{
    let mut out: Vec<Statement> = Vec::new();
    push_flat(stmts, &mut out);
    assert(stmts_view(Seq::<Statement>::empty()) + flattened(stmts_view(stmts@)) =~= flattened(
        stmts_view(stmts@),
    ));
    out
}

impl Variable {
    /// The name, as text.
    pub fn to_text(&self) -> (r: String)
        ensures
            r@ == self.name@,
    {
        self.name.clone()
    }
}

} // verus!
