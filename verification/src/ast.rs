//! The syntax tree of an XLuau program, as the front end hands it to the
//! emitter.

use vstd::prelude::*;

verus! {

/// A whole source file.
#[derive(Debug)]
pub struct Program {
    pub block: Block,
}

/// A sequence of statements.
pub type Block = Vec<Stmt>;

/// A statement.
#[derive(Debug)]
pub enum Stmt {
    Local(LocalDecl),
    Function(FunctionDecl),
    Enum(EnumDecl),
    Assignment(Assignment),
    CompoundAssignment { target: AssignTarget, op: CompoundOp, value: Expr },
    NullishAssignment { target: AssignTarget, value: Expr },
    Call(Expr),
    Return(Vec<Expr>),
    If(IfStmt),
    Switch(SwitchStmt),
    Match(MatchStmt),
    While { condition: Expr, block: Block },
    Repeat { block: Block, condition: Expr },
    ForNumeric(ForNumeric),
    ForGeneric(ForGeneric),
    Do(Block),
    Break,
    Continue,
    Fallthrough,
    TypeAlias { raw: String, start: usize },
}

/// `local` or `const` with one or more bindings; `start` is the offset of
/// its keyword in the source's characters, `line` and `column` where it
/// stands (one-based; 0 for a tree built by hand).
#[derive(Debug)]
pub struct LocalDecl {
    pub start: usize,
    pub line: usize,
    pub column: usize,
    pub is_const: bool,
    pub bindings: Vec<Binding>,
    pub values: Vec<Expr>,
}

/// A bound pattern and its optional type annotation.
#[derive(Debug)]
pub struct Binding {
    pub pattern: Pattern,
    pub type_annotation: Option<String>,
}

/// A name or a destructuring pattern.
#[derive(Debug)]
pub enum Pattern {
    Name(String),
    Table { entries: Vec<TablePatternEntry>, rest: Option<String> },
    Array { items: Vec<ArrayPatternItem>, rest: Option<String> },
}

/// `key` or `key: pattern` or `key = default` in a table pattern.
#[derive(Debug)]
pub struct TablePatternEntry {
    pub key: String,
    pub binding: PatternBinding,
}

/// One position of an array pattern; `None` skips it.
#[derive(Debug)]
pub struct ArrayPatternItem {
    pub binding: Option<PatternBinding>,
}

/// A nested pattern with an optional default value.
#[derive(Debug)]
pub struct PatternBinding {
    pub target: Pattern,
    pub default_value: Option<Expr>,
}

/// A plain (possibly multiple) assignment.
#[derive(Debug)]
pub struct Assignment {
    pub targets: Vec<AssignTarget>,
    pub values: Vec<Expr>,
}

/// The left side of an assignment.
#[derive(Debug)]
pub enum AssignTarget {
    Name(String),
    Field { object: Box<Expr>, field: String },
    Index { object: Box<Expr>, index: Box<Expr> },
}

/// A `function` statement; `start` is the offset of its first token in the
/// source's characters (0 for a tree built by hand).
#[derive(Debug)]
pub struct FunctionDecl {
    pub start: usize,
    pub local_name: bool,
    pub name: FunctionName,
    pub generics: Option<String>,
    pub params: Vec<Param>,
    pub return_type: Option<String>,
    pub body: Block,
}

/// `root.field.field:method`.
#[derive(Debug)]
pub struct FunctionName {
    pub root: String,
    pub fields: Vec<String>,
    pub method: Option<String>,
}

/// A function parameter.
#[derive(Debug)]
pub enum Param {
    Binding(Binding),
    VarArg(Option<String>),
}

/// An `enum` declaration; `start` is the offset of its keyword in the
/// source's characters (0 for a tree built by hand).
#[derive(Debug)]
pub struct EnumDecl {
    pub start: usize,
    pub name: String,
    pub base_type: Option<String>,
    pub members: Vec<EnumMember>,
}

/// One member of an `enum`, with its explicit value if it has one.
#[derive(Debug)]
pub struct EnumMember {
    pub name: String,
    pub value: Option<Expr>,
}

/// `if` / `elseif` / `else`.
#[derive(Debug)]
pub struct IfStmt {
    pub branches: Vec<(Expr, Block)>,
    pub else_block: Option<Block>,
}

/// A `switch` statement.
#[derive(Debug)]
pub struct SwitchStmt {
    pub value: Expr,
    pub cases: Vec<SwitchCase>,
    pub default: Option<Block>,
}

/// One `case` of a `switch`; an empty or `fallthrough` case shares the
/// body of the next one.
#[derive(Debug)]
pub struct SwitchCase {
    pub value: Expr,
    pub block: Block,
    pub fallthrough: bool,
}

/// A `match` statement.
#[derive(Debug)]
pub struct MatchStmt {
    pub value: Expr,
    pub cases: Vec<MatchCase>,
}

/// One arm of a `match`.
#[derive(Debug)]
pub struct MatchCase {
    pub pattern: MatchPattern,
    pub guard: Option<Expr>,
    pub block: Block,
}

/// A pattern of a `match` arm.
#[derive(Debug)]
pub enum MatchPattern {
    Literal(Expr),
    Bind(String),
    Table(Vec<MatchFieldPattern>),
}

/// `key = pattern` inside a table pattern of a `match` arm.
#[derive(Debug)]
pub struct MatchFieldPattern {
    pub key: String,
    pub pattern: MatchPattern,
}

/// A numeric `for`.
#[derive(Debug)]
pub struct ForNumeric {
    pub name: String,
    pub start: Expr,
    pub end: Expr,
    pub step: Option<Expr>,
    pub block: Block,
}

/// A generic `for ... in`.
#[derive(Debug)]
pub struct ForGeneric {
    pub bindings: Vec<Binding>,
    pub iterables: Vec<Expr>,
    pub block: Block,
}

/// An expression.
#[derive(Debug)]
pub enum Expr {
    Nil,
    Bool(bool),
    Number(String),
    String(String),
    VarArg,
    Name(String),
    Table(Vec<TableField>),
    Function(FunctionExpr),
    IfElse { branches: Vec<(Expr, Expr)>, else_expr: Box<Expr> },
    Paren(Box<Expr>),
    Unary { op: UnaryOp, expr: Box<Expr> },
    Binary { left: Box<Expr>, op: BinaryOp, right: Box<Expr> },
    TypeAssertion { expr: Box<Expr>, annotation: String },
    Ternary { condition: Box<Expr>, then_expr: Box<Expr>, else_expr: Box<Expr> },
    DoExpr { block: Block, result: Box<Expr> },
    SwitchExpr { value: Box<Expr>, cases: Vec<SwitchExprCase>, default: Box<Expr> },
    Chain { base: Box<Expr>, segments: Vec<ChainSegment> },
    Pipe { left: Box<Expr>, stages: Vec<PipeStage> },
    Comprehension(TableComprehension),
}

/// One `case` of a `switch` expression.
#[derive(Debug)]
pub struct SwitchExprCase {
    pub value: Expr,
    pub result: Expr,
}

/// A field of a table constructor.
#[derive(Debug)]
pub enum TableField {
    Named(String, Expr),
    Indexed(Expr, Expr),
    Value(Expr),
}

/// An anonymous function.
#[derive(Debug)]
pub struct FunctionExpr {
    pub generics: Option<String>,
    pub params: Vec<Param>,
    pub return_type: Option<String>,
    pub body: Block,
}

/// A table comprehension.
#[derive(Debug)]
pub struct TableComprehension {
    pub kind: TableComprehensionKind,
    pub clauses: Vec<ComprehensionClause>,
}

/// What a comprehension inserts: list items or key/value pairs.
#[derive(Debug)]
pub enum TableComprehensionKind {
    Array { value: Box<Expr> },
    KeyValue { key: Box<Expr>, value: Box<Expr> },
}

/// A `for` or `if` clause of a comprehension.
#[derive(Debug)]
pub enum ComprehensionClause {
    GenericFor { bindings: Vec<Binding>, iterables: Vec<Expr> },
    NumericFor { name: String, start: Expr, end: Expr, step: Option<Expr> },
    Filter(Expr),
}

/// A unary operator.
#[derive(Debug, Clone, Copy, PartialEq, Eq, Structural)]
pub enum UnaryOp {
    Negate,
    Not,
    Length,
}

/// A binary operator.
#[derive(Debug, Clone, Copy, PartialEq, Eq, Structural)]
pub enum BinaryOp {
    Or,
    And,
    Less,
    LessEqual,
    Greater,
    GreaterEqual,
    Equal,
    NotEqual,
    Concat,
    Add,
    Subtract,
    Multiply,
    Divide,
    FloorDivide,
    Modulo,
    Power,
    Nullish,
}

/// The operator of a compound assignment such as `+=`.
#[derive(Debug, Clone, Copy, PartialEq, Eq, Structural)]
pub enum CompoundOp {
    Add,
    Subtract,
    Multiply,
    Divide,
    FloorDivide,
    Modulo,
    Power,
    Concat,
}

/// One step of a call chain; `safe` marks `?.`.
#[derive(Debug)]
pub enum ChainSegment {
    Field { name: String, safe: bool },
    Index { expr: Box<Expr>, safe: bool },
    Call { args: Vec<Expr> },
    MethodCall { name: String, args: Vec<Expr>, safe: bool },
}

/// One stage of a pipe.
#[derive(Debug)]
pub enum PipeStage {
    Method { name: String, args: Vec<Expr> },
    Expr { callee: Box<Expr> },
    Call { callee: Box<Expr>, args: Vec<Expr> },
}

} // verus!
