//! What the emitter produces: the lowering of expressions, statements and
//! blocks to Luau text, as spec functions over the emitter's state.
//!
//! Each function takes the state before a step and gives the state after
//! it together with the text produced. Temporaries are numbered in the
//! order in which the steps take them, so the state is threaded through
//! every sub-step in source order.

use vstd::prelude::*;

use crate::ast::{
    ArrayPatternItem, AssignTarget, BinaryOp, Binding, Block, ChainSegment, ComprehensionClause,
    EnumMember, Expr, FunctionName, LocalDecl, MatchCase, MatchFieldPattern, MatchPattern, Param, Pattern, PatternBinding,
    PipeStage, Stmt, SwitchCase, SwitchExprCase, TableComprehension, TableComprehensionKind,
    TableField, TablePatternEntry, UnaryOp,
};
use crate::emitter::names::{
    binary_token_of, compound_token_of, exprs_have_placeholder, match_names_of,
    pattern_names_of,
};
use crate::emitter::types::{
    alias_registered, enum_registered, match_checked, number_backed, params_typed,
    pattern_typed, switch_checked,
};
use crate::emitter::{
    capture, deeper, indent_all, indent_each, indented, setup_block, simple, EmitState,
    LoweredView,
};
use crate::text::{join, lines};

verus! {

/// The view of an optional string.
pub open spec fn opt_view(o: Option<String>) -> Option<Seq<char>> {
    match o {
        Some(s) => Some(s@),
        None => None,
    }
}

/// `: annotation`, or nothing.
pub open spec fn annot(a: Option<String>) -> Seq<char> {
    match a {
        Some(t) => ": "@ + t@,
        None => seq![],
    }
}

/// The text of an optional string, empty when absent.
pub open spec fn opt_text(a: Option<String>) -> Seq<char> {
    match a {
        Some(t) => t@,
        None => seq![],
    }
}

/// A chunk of output, kept only when it is not empty.
pub open spec fn nonempty(t: Seq<char>) -> Seq<Seq<char>> {
    if t.len() > 0 {
        seq![t]
    } else {
        seq![]
    }
}

/// `.field` for each field, in order.
pub open spec fn dotted(fs: Seq<String>) -> Seq<char>
    decreases fs.len(),
{
    if fs.len() == 0 {
        seq![]
    } else {
        dotted(fs.drop_last()) + "."@ + fs.last()@
    }
}

/// `s` wrapped in double quotes.
pub open spec fn quoted(s: Seq<char>) -> Seq<char> {
    seq!['"'] + s + seq!['"']
}

/// A lowered assignment target: setup lines and the target text.
pub struct TargetView {
    pub setup: Seq<Seq<char>>,
    pub expr: Seq<char>,
}

/// Whether a chain segment is a safe (`?.`) access.
pub open spec fn seg_safe(s: ChainSegment) -> bool {
    match s {
        ChainSegment::Field { safe, .. } => safe,
        ChainSegment::Index { safe, .. } => safe,
        ChainSegment::MethodCall { safe, .. } => safe,
        ChainSegment::Call { .. } => false,
    }
}

/// Whether some segment of a chain is a safe access.
pub open spec fn has_safe(segs: Seq<ChainSegment>) -> bool {
    exists|i: int| 0 <= i < segs.len() && seg_safe(#[trigger] segs[i])
}

/// The `end` lines that close the open `if`s of an optional chain, from
/// level `n - 1` down to level 1.
pub open spec fn closers(n: usize) -> Seq<Seq<char>>
    decreases n,
{
    if n <= 1 {
        seq![]
    } else {
        seq![indented((n - 1) as usize, "end"@)] + closers((n - 1) as usize)
    }
}

/// Whether a switch case ends a group of cases: it has a body and does not
/// fall through.
pub open spec fn closes(c: SwitchCase) -> bool {
    !c.fallthrough && c.block@.len() > 0
}

/// The index of the last case that ends a group, or -1.
pub open spec fn last_closing(cases: Seq<SwitchCase>) -> int
    decreases cases.len(),
{
    if cases.len() == 0 {
        -1
    } else if closes(cases.last()) {
        cases.len() - 1
    } else {
        last_closing(cases.drop_last())
    }
}

/// The state after declaring each name (as constants when `is_const`).
pub open spec fn declare_all(st: EmitState, names: Seq<Seq<char>>, is_const: bool) -> EmitState
    decreases names.len(),
{
    if names.len() == 0 {
        st
    } else {
        declare_all(st, names.drop_last(), is_const).declare(names.last(), is_const)
    }
}

/// The state after declaring the names of each binding and recording
/// their declared types, binding by binding.
pub open spec fn bindings_declared(st: EmitState, bs: Seq<Binding>, is_const: bool) -> EmitState
    decreases bs.len(),
{
    if bs.len() == 0 {
        st
    } else {
        let st1 = bindings_declared(st, bs.drop_last(), is_const);
        let b = bs.last();
        pattern_typed(declare_all(st1, pattern_names_of(b.pattern), is_const), b.pattern, b.type_annotation)
    }
}

/// The state after checking that an assignment does not target a constant.
pub open spec fn const_check(st: EmitState, t: AssignTarget) -> EmitState {
    match t {
        AssignTarget::Name(n) => if st.is_const(n@) {
            st.fail("cannot assign to const `"@ + n@ + "`"@)
        } else {
            st
        },
        _ => st,
    }
}

/// `const_check` for each target in order.
pub open spec fn const_checked(st: EmitState, ts: Seq<AssignTarget>) -> EmitState
    decreases ts.len(),
{
    if ts.len() == 0 {
        st
    } else {
        const_check(const_checked(st, ts.drop_last()), ts.last())
    }
}

/// The message recorded for a `fallthrough` outside the end of a case.
pub open spec fn fallthrough_message() -> Seq<char> {
    "`fallthrough` is only valid as the last statement in a switch case"@
}

/// How tightly a binary operator binds in Luau, loosest first.
pub open spec fn op_prec(op: BinaryOp) -> nat {
    match op {
        BinaryOp::Nullish => 0,
        BinaryOp::Or => 1,
        BinaryOp::And => 2,
        BinaryOp::Less | BinaryOp::LessEqual | BinaryOp::Greater | BinaryOp::GreaterEqual
        | BinaryOp::Equal | BinaryOp::NotEqual => 3,
        BinaryOp::Concat => 4,
        BinaryOp::Add | BinaryOp::Subtract => 5,
        BinaryOp::Multiply | BinaryOp::Divide | BinaryOp::FloorDivide | BinaryOp::Modulo => 6,
        BinaryOp::Power => 8,
    }
}

/// The operators that group to the right: `..` and `^`.
pub open spec fn right_assoc(op: BinaryOp) -> bool {
    op == BinaryOp::Concat || op == BinaryOp::Power
}

/// Whether the Luau text of `child`, as an operand of `op` (on its right
/// side when `on_right`), needs parentheses to keep its grouping: a looser
/// operation, an equally tight one on the side that does not group, an
/// `if` expression from `??` or `?:`, or a unary operand under `^`.
pub open spec fn operand_needs_parens(child: Expr, op: BinaryOp, on_right: bool) -> bool {
    match child {
        Expr::Binary { op: c, .. } => c == BinaryOp::Nullish || op_prec(c) < op_prec(op) || (
        op_prec(c) == op_prec(op) && on_right != right_assoc(op)),
        Expr::Ternary { .. } => true,
        Expr::Unary { .. } => op == BinaryOp::Power && !on_right,
        _ => false,
    }
}

/// Whether the operand of a unary operator needs parentheses: any binary
/// operation but `^`, an `if` expression, or another unary operation.
pub open spec fn unary_operand_needs_parens(child: Expr) -> bool {
    match child {
        Expr::Binary { op: c, .. } => c != BinaryOp::Power,
        Expr::Ternary { .. } => true,
        Expr::Unary { .. } => true,
        _ => false,
    }
}

/// Whether the text of `base` needs parentheses before `.`, `:`, `[` or a
/// call: any operation or `if` expression.
pub open spec fn base_needs_parens(base: Expr) -> bool {
    base is Binary || base is Ternary || base is Unary
}

/// `t` in parentheses when `b` holds.
pub open spec fn parens_if(t: Seq<char>, b: bool) -> Seq<char> {
    if b {
        "("@ + t + ")"@
    } else {
        t
    }
}

// ---------------------------------------------------------------------------
// Expressions
// ---------------------------------------------------------------------------

/// The lowering of an expression; inside a pipe stage `ph` is the text the
/// placeholder `_` stands for.
pub open spec fn lower_expr(st: EmitState, e: Expr, ph: Option<Seq<char>>) -> (EmitState, LoweredView)
    decreases e, 3nat,
{
    match e {
        Expr::Nil => (st, simple("nil"@, true)),
        Expr::Bool(b) => (st, simple(
            if b {
                "true"@
            } else {
                "false"@
            },
            true,
        )),
        Expr::Number(v) => (st, simple(v@, true)),
        Expr::String(v) => (st, simple(v@, true)),
        Expr::VarArg => (st, simple("..."@, true)),
        Expr::Name(n) => match ph {
            Some(p) => if n@ == seq!['_'] {
                (st, simple(p, true))
            } else {
                (st, simple(n@, true))
            },
            None => (st, simple(n@, true)),
        },
        Expr::Paren(inner) => {
            let (st1, l) = lower_expr(st, *inner, ph);
            (st1, LoweredView { setup: l.setup, expr: "("@ + l.expr + ")"@, reuse_safe: l.reuse_safe })
        },
        Expr::Unary { op, expr } => {
            let (st1, l) = lower_expr(st, *expr, ph);
            let token = match op {
                UnaryOp::Negate => "-"@,
                UnaryOp::Not => "not "@,
                UnaryOp::Length => "#"@,
            };
            (
                st1,
                LoweredView {
                    setup: l.setup,
                    expr: token + parens_if(l.expr, unary_operand_needs_parens(*expr)),
                    reuse_safe: false,
                },
            )
        },
        Expr::TypeAssertion { expr, annotation } => {
            let (st1, l) = lower_expr(st, *expr, ph);
            (
                st1,
                LoweredView {
                    setup: l.setup,
                    expr: "("@ + l.expr + " :: "@ + annotation@ + ")"@,
                    reuse_safe: false,
                },
            )
        },
        Expr::Binary { .. } => lower_binary(st, e, ph),
        Expr::Ternary { .. } => lower_ternary(st, e, ph),
        Expr::IfElse { .. } => lower_if_expr(st, e, ph),
        Expr::DoExpr { .. } => lower_do_expr(st, e, ph),
        Expr::SwitchExpr { .. } => lower_switch_expr(st, e, ph),
        Expr::Table(..) => lower_table(st, e, ph),
        Expr::Function(..) => lower_function_expr(st, e),
        Expr::Chain { .. } => lower_chain(st, e, ph),
        Expr::Pipe { .. } => lower_pipe(st, e, ph),
        Expr::Comprehension(..) => lower_comprehension(st, e, ph),
    }
}

/// `and` / `or` that must not evaluate its right side eagerly: a temporary
/// set in an `if`.
pub open spec fn short_circuit_setup(
    is_and: bool,
    l: LoweredView,
    r: LoweredView,
    temp: Seq<char>,
) -> Seq<Seq<char>> {
    if is_and {
        l.setup + seq!["local "@ + temp, "if "@ + l.expr + " then"@] + indent_all(1, r.setup) + seq![
            indented(1, temp + " = "@ + r.expr),
            "else"@,
            indented(1, temp + " = "@ + l.expr),
            "end"@,
        ]
    } else {
        l.setup + seq![
            "local "@ + temp,
            "if "@ + l.expr + " then"@,
            indented(1, temp + " = "@ + l.expr),
            "else"@,
        ] + indent_all(1, r.setup) + seq![indented(1, temp + " = "@ + r.expr), "end"@]
    }
}

/// A binary operation.
pub open spec fn lower_binary(st: EmitState, e: Expr, ph: Option<Seq<char>>) -> (EmitState, LoweredView)
    decreases e, 2nat,
{
    match e {
        Expr::Binary { left, op, right } => if op == BinaryOp::Nullish {
            lower_nullish(st, e, ph)
        } else if op == BinaryOp::And || op == BinaryOp::Or {
            let (st1, l0) = lower_expr(st, *left, ph);
            let (st2, l) = capture(st1, l0, "lhs"@);
            let (st3, r) = lower_expr(st2, *right, ph);
            if r.setup.len() == 0 {
                (
                    st3,
                    LoweredView {
                        setup: l.setup,
                        expr: parens_if(l.expr, operand_needs_parens(*left, op, false)) + " "@
                            + binary_token_of(op) + " "@ + parens_if(
                            r.expr,
                            operand_needs_parens(*right, op, true),
                        ),
                        reuse_safe: false,
                    },
                )
            } else {
                let is_and = op == BinaryOp::And;
                let (st4, temp) = st3.fresh(
                    if is_and {
                        "and"@
                    } else {
                        "or"@
                    },
                );
                (
                    st4,
                    LoweredView {
                        setup: short_circuit_setup(is_and, l, r, temp),
                        expr: temp,
                        reuse_safe: false,
                    },
                )
            }
        } else {
            let (st1, l) = lower_expr(st, *left, ph);
            let (st2, r) = lower_expr(st1, *right, ph);
            (
                st2,
                LoweredView {
                    setup: l.setup + r.setup,
                    expr: parens_if(l.expr, operand_needs_parens(*left, op, false)) + " "@
                            + binary_token_of(op) + " "@ + parens_if(
                            r.expr,
                            operand_needs_parens(*right, op, true),
                        ),
                    reuse_safe: false,
                },
            )
        },
        _ => (st, simple(seq![], false)),
    }
}

/// `left ?? right`: the left value unless it is `nil`.
pub open spec fn lower_nullish(st: EmitState, e: Expr, ph: Option<Seq<char>>) -> (EmitState, LoweredView)
    decreases e, 1nat,
{
    match e {
        Expr::Binary { left, right, .. } => {
            let (st1, l0) = lower_expr(st, *left, ph);
            let (st2, l) = capture(st1, l0, "lhs"@);
            let (st3, r) = lower_expr(st2, *right, ph);
            if r.setup.len() == 0 {
                (
                    st3,
                    LoweredView {
                        setup: l.setup,
                        expr: "if "@ + l.expr + " ~= nil then "@ + l.expr + " else "@ + r.expr,
                        reuse_safe: false,
                    },
                )
            } else {
                let (st4, temp) = st3.fresh("nullish"@);
                (
                    st4,
                    LoweredView {
                        setup: l.setup + seq![
                            "local "@ + temp,
                            "if "@ + l.expr + " ~= nil then"@,
                            indented(1, temp + " = "@ + l.expr),
                            "else"@,
                        ] + indent_all(1, r.setup) + seq![
                            indented(1, temp + " = "@ + r.expr),
                            "end"@,
                        ],
                        expr: temp,
                        reuse_safe: false,
                    },
                )
            }
        },
        _ => (st, simple(seq![], false)),
    }
}

/// `cond ? a : b`.
pub open spec fn lower_ternary(st: EmitState, e: Expr, ph: Option<Seq<char>>) -> (EmitState, LoweredView)
    decreases e, 2nat,
{
    match e {
        Expr::Ternary { condition, then_expr, else_expr } => {
            let (st1, c0) = lower_expr(st, *condition, ph);
            let (st2, c) = capture(st1, c0, "cond"@);
            let (st3, t) = lower_expr(st2, *then_expr, ph);
            let (st4, f) = lower_expr(st3, *else_expr, ph);
            if t.setup.len() == 0 && f.setup.len() == 0 {
                (
                    st4,
                    LoweredView {
                        setup: c.setup,
                        expr: "if "@ + c.expr + " then "@ + t.expr + " else "@ + f.expr,
                        reuse_safe: false,
                    },
                )
            } else {
                let (st5, temp) = st4.fresh("ternary"@);
                (
                    st5,
                    LoweredView {
                        setup: c.setup + seq!["local "@ + temp, "if "@ + c.expr + " then"@]
                            + indent_all(1, t.setup) + seq![
                            indented(1, temp + " = "@ + t.expr),
                            "else"@,
                        ] + indent_all(1, f.setup) + seq![
                            indented(1, temp + " = "@ + f.expr),
                            "end"@,
                        ],
                        expr: temp,
                        reuse_safe: false,
                    },
                )
            }
        },
        _ => (st, simple(seq![], false)),
    }
}

/// `if` for the first branch, `elseif` for the others.
pub open spec fn branch_keyword(index: int) -> Seq<char> {
    if index == 0 {
        "if"@
    } else {
        "elseif"@
    }
}

/// The branches of an `if` expression assigning to `temp`.
pub open spec fn if_branches(
    st: EmitState,
    bs: Seq<(Expr, Expr)>,
    temp: Seq<char>,
    ph: Option<Seq<char>>,
) -> (EmitState, Seq<Seq<char>>)
    decreases bs, 0nat,
{
    if bs.len() == 0 {
        (st, seq![])
    } else {
        let (st1, prev) = if_branches(st, bs.drop_last(), temp, ph);
        let b = bs.last();
        let (st2, c0) = lower_expr(st1, b.0, ph);
        let (st3, c) = capture(st2, c0, "ifcond"@);
        let (st4, v) = lower_expr(st3, b.1, ph);
        (
            st4,
            prev + c.setup + seq![branch_keyword(bs.len() - 1) + " "@ + c.expr + " then"@]
                + indent_all(1, v.setup) + seq![indented(1, temp + " = "@ + v.expr)],
        )
    }
}

/// `if c then a elseif d then b else x` as an expression.
pub open spec fn lower_if_expr(st: EmitState, e: Expr, ph: Option<Seq<char>>) -> (EmitState, LoweredView)
    decreases e, 2nat,
{
    match e {
        Expr::IfElse { branches, else_expr } => {
            let (st1, temp) = st.fresh("ifexpr"@);
            let (st2, bl) = if_branches(st1, branches@, temp, ph);
            let (st3, el) = lower_expr(st2, *else_expr, ph);
            (
                st3,
                LoweredView {
                    setup: seq!["local "@ + temp] + bl + seq!["else"@] + indent_all(1, el.setup)
                        + seq![indented(1, temp + " = "@ + el.expr), "end"@],
                    expr: temp,
                    reuse_safe: false,
                },
            )
        },
        _ => (st, simple(seq![], false)),
    }
}

/// `do ... end` with a result expression.
pub open spec fn lower_do_expr(st: EmitState, e: Expr, ph: Option<Seq<char>>) -> (EmitState, LoweredView)
    decreases e, 2nat,
{
    match e {
        Expr::DoExpr { block, result } => {
            let (st1, name) = st.fresh("de"@);
            let (st2, body) = lower_block(st1, block@, 1);
            let (st3, r) = lower_expr(st2, *result, ph);
            (
                st3,
                LoweredView {
                    setup: seq!["local "@ + name, "do"@] + (if body.len() > 0 {
                        lines(body)
                    } else {
                        seq![]
                    }) + indent_all(1, r.setup) + seq![
                        indented(1, name + " = "@ + r.expr),
                        "end"@,
                    ],
                    expr: name,
                    reuse_safe: false,
                },
            )
        },
        _ => (st, simple(seq![], false)),
    }
}

/// The cases of a `switch` expression comparing `sw` and assigning `result`.
pub open spec fn switch_expr_cases(
    st: EmitState,
    cs: Seq<SwitchExprCase>,
    sw: Seq<char>,
    result: Seq<char>,
    ph: Option<Seq<char>>,
) -> (EmitState, Seq<Seq<char>>)
    decreases cs, 0nat,
{
    if cs.len() == 0 {
        (st, seq![])
    } else {
        let (st1, prev) = switch_expr_cases(st, cs.drop_last(), sw, result, ph);
        let c = cs.last();
        let (st2, v) = lower_expr(st1, c.value, ph);
        let (st3, r) = lower_expr(st2, c.result, ph);
        (
            st3,
            prev + v.setup + seq![
                branch_keyword(cs.len() - 1) + " "@ + sw + " == "@ + parens_if(
                    v.expr,
                    operand_needs_parens(c.value, BinaryOp::Equal, true),
                ) + " then"@,
            ] + indent_all(1, r.setup) + seq![indented(1, result + " = "@ + r.expr)],
        )
    }
}

/// A `switch` expression.
pub open spec fn lower_switch_expr(st: EmitState, e: Expr, ph: Option<Seq<char>>) -> (EmitState, LoweredView)
    decreases e, 2nat,
{
    match e {
        Expr::SwitchExpr { value, cases, default } => {
            let (st1, v) = lower_expr(st, *value, ph);
            let (st2, result) = st1.fresh("swexpr"@);
            let (st3, sw) = st2.fresh("sw"@);
            let (st4, cl) = switch_expr_cases(st3, cases@, sw, result, ph);
            let (st5, d) = lower_expr(st4, *default, ph);
            (
                st5,
                LoweredView {
                    setup: v.setup + seq!["local "@ + sw + " = "@ + v.expr, "local "@ + result]
                        + cl + seq!["else"@] + indent_all(1, d.setup) + seq![
                        indented(1, result + " = "@ + d.expr),
                        "end"@,
                    ],
                    expr: result,
                    reuse_safe: false,
                },
            )
        },
        _ => (st, simple(seq![], false)),
    }
}

/// The fields of a table constructor: setup lines and rendered fields.
pub open spec fn table_fields(st: EmitState, fs: Seq<TableField>, ph: Option<Seq<char>>) -> (
    EmitState,
    Seq<Seq<char>>,
    Seq<Seq<char>>,
)
    decreases fs, 0nat,
{
    if fs.len() == 0 {
        (st, seq![], seq![])
    } else {
        let (st1, setup, rendered) = table_fields(st, fs.drop_last(), ph);
        match fs.last() {
            TableField::Named(name, value) => {
                let (st2, l) = lower_expr(st1, value, ph);
                (st2, setup + l.setup, rendered.push(name@ + " = "@ + l.expr))
            },
            TableField::Indexed(key, value) => {
                let (st2, k) = lower_expr(st1, key, ph);
                let (st3, v) = lower_expr(st2, value, ph);
                (st3, setup + k.setup + v.setup, rendered.push("["@ + k.expr + "] = "@ + v.expr))
            },
            TableField::Value(value) => {
                let (st2, l) = lower_expr(st1, value, ph);
                (st2, setup + l.setup, rendered.push(l.expr))
            },
        }
    }
}

/// A table constructor.
pub open spec fn lower_table(st: EmitState, e: Expr, ph: Option<Seq<char>>) -> (EmitState, LoweredView)
    decreases e, 2nat,
{
    match e {
        Expr::Table(fields) => {
            let (st1, setup, rendered) = table_fields(st, fields@, ph);
            (
                st1,
                LoweredView {
                    setup,
                    expr: "{"@ + join(rendered, ", "@) + "}"@,
                    reuse_safe: false,
                },
            )
        },
        _ => (st, simple(seq![], false)),
    }
}

/// A table comprehension: a fresh table filled by nested loops.
pub open spec fn lower_comprehension(st: EmitState, e: Expr, ph: Option<Seq<char>>) -> (EmitState, LoweredView)
    decreases e, 2nat,
{
    match e {
        Expr::Comprehension(c) => {
            let (st1, table) = st.fresh("comp"@);
            let (st2, body) = comp_clauses(st1, c, 0, 0, table, ph);
            (
                st2,
                LoweredView {
                    setup: seq!["local "@ + table + " = {}"@] + body,
                    expr: table,
                    reuse_safe: false,
                },
            )
        },
        _ => (st, simple(seq![], false)),
    }
}

/// The loop names of a `for ... in` and the prologue that destructures
/// the patterns bound to temporaries.
pub open spec fn loop_bindings(st: EmitState, bs: Seq<Binding>) -> (
    EmitState,
    Seq<Seq<char>>,
    Seq<Seq<char>>,
)
    decreases bs, 0nat,
{
    if bs.len() == 0 {
        (st, seq![], seq![])
    } else {
        let (st1, names, prologue) = loop_bindings(st, bs.drop_last());
        let b = bs.last();
        match b.pattern {
            Pattern::Name(n) => (st1, names.push(n@), prologue),
            _ => {
                let (st2, temp) = st1.fresh("for"@);
                let (st3, pl) = pattern_local(st2, b.pattern, b.type_annotation, temp, 0);
                (st3, names.push(temp), prologue + pl)
            },
        }
    }
}

/// The measure of the clauses of a comprehension from index `k` on.
pub open spec fn clauses_left(c: TableComprehension, k: int) -> int {
    if k < c.clauses@.len() {
        c.clauses@.len() - k + 1
    } else {
        1
    }
}

/// The clauses of a comprehension from index `k` on, at `level`; the
/// innermost level inserts into `table`. A filter clause guards the
/// clauses after it.
pub open spec fn comp_clauses(
    st: EmitState,
    c: TableComprehension,
    k: int,
    level: usize,
    table: Seq<char>,
    ph: Option<Seq<char>>,
) -> (EmitState, Seq<Seq<char>>)
    decreases c, clauses_left(c, k),
{
    if k < 0 || k >= c.clauses@.len() {
        comp_insert(st, c, level, table, ph)
    } else {
        let inner = deeper(level, 1);
        match c.clauses@[k] {
            ComprehensionClause::GenericFor { bindings, iterables } => {
                let (st1, su, values) = lower_args(st, iterables@, ph);
                let (st2, names, prologue) = loop_bindings(st1, bindings@);
                let (st3, body) = comp_clauses(st2, c, k + 1, inner, table, ph);
                (
                    st3,
                    indent_all(level, su) + seq![
                        indented(
                            level,
                            "for "@ + join(names, ", "@) + " in "@ + join(values, ", "@) + " do"@,
                        ),
                    ] + indent_all(inner, prologue) + body + seq![indented(level, "end"@)],
                )
            },
            ComprehensionClause::NumericFor { name, start, end, step } => {
                let (st1, a) = lower_expr(st, start, ph);
                let (st2, b) = lower_expr(st1, end, ph);
                let (st3, s) = match step {
                    Some(x) => {
                        let (sx, lx) = lower_expr(st2, x, ph);
                        (sx, Some(lx))
                    },
                    None => (st2, None),
                };
                let range = a.expr + ", "@ + b.expr + match s {
                    Some(l) => ", "@ + l.expr,
                    None => seq![],
                };
                let (st4, body) = comp_clauses(st3, c, k + 1, inner, table, ph);
                (
                    st4,
                    indent_all(level, a.setup) + indent_all(level, b.setup) + match s {
                        Some(l) => indent_all(level, l.setup),
                        None => seq![],
                    } + seq![indented(level, "for "@ + name@ + " = "@ + range + " do"@)] + body
                        + seq![indented(level, "end"@)],
                )
            },
            ComprehensionClause::Filter(cond) => {
                let (st1, l) = lower_expr(st, cond, ph);
                let (st2, body) = comp_clauses(st1, c, k + 1, inner, table, ph);
                (
                    st2,
                    indent_all(level, l.setup) + seq![indented(level, "if "@ + l.expr + " then"@)]
                        + body + seq![indented(level, "end"@)],
                )
            },
        }
    }
}

/// The insertion of one item into the comprehension's table.
pub open spec fn comp_insert(
    st: EmitState,
    c: TableComprehension,
    level: usize,
    table: Seq<char>,
    ph: Option<Seq<char>>,
) -> (EmitState, Seq<Seq<char>>)
    decreases c, 0int,
{
    match c.kind {
        TableComprehensionKind::Array { value } => {
            let (st1, l) = lower_expr(st, *value, ph);
            (
                st1,
                indent_all(level, l.setup) + seq![
                    indented(level, "table.insert("@ + table + ", "@ + l.expr + ")"@),
                ],
            )
        },
        TableComprehensionKind::KeyValue { key, value } => {
            let (st1, k) = lower_expr(st, *key, ph);
            let (st2, v) = lower_expr(st1, *value, ph);
            (
                st2,
                indent_all(level, k.setup) + indent_all(level, v.setup) + seq![
                    indented(level, table + "["@ + k.expr + "] = "@ + v.expr),
                ],
            )
        },
    }
}

/// The arguments of a call: their setup lines and values.
pub open spec fn lower_args(st: EmitState, args: Seq<Expr>, ph: Option<Seq<char>>) -> (
    EmitState,
    Seq<Seq<char>>,
    Seq<Seq<char>>,
)
    decreases args, 0nat,
{
    if args.len() == 0 {
        (st, seq![], seq![])
    } else {
        let (st1, setup, values) = lower_args(st, args.drop_last(), ph);
        let (st2, l) = lower_expr(st1, args.last(), ph);
        (st2, setup + l.setup, values.push(l.expr))
    }
}

/// The parameters of a function: their rendered text and the prologue
/// that destructures pattern parameters from `_param{index}`.
pub open spec fn lower_params(st: EmitState, ps: Seq<Param>) -> (
    EmitState,
    Seq<Seq<char>>,
    Seq<Seq<char>>,
)
    decreases ps, 0nat,
{
    if ps.len() == 0 {
        (st, seq![], seq![])
    } else {
        let (st1, rendered, prologue) = lower_params(st, ps.drop_last());
        match ps.last() {
            Param::VarArg(a) => (st1, rendered.push("..."@ + annot(a)), prologue),
            Param::Binding(b) => match b.pattern {
                Pattern::Name(n) => (st1, rendered.push(n@ + annot(b.type_annotation)), prologue),
                _ => {
                    let temp = "_param"@ + crate::emitter::decimal((ps.len() - 1) as nat);
                    let (st2, pl) = pattern_local(st1, b.pattern, None, temp, 0);
                    (st2, rendered.push(temp + annot(b.type_annotation)), prologue + pl)
                },
            },
        }
    }
}

/// An anonymous function.
pub open spec fn lower_function_expr(st: EmitState, e: Expr) -> (EmitState, LoweredView)
    decreases e, 2nat,
{
    match e {
        Expr::Function(f) => {
            let (st1, params, prologue) = lower_params(st, f.params@);
            let st2 = st1.open_const_scope();
            let (st3, body) = lower_block(st2, f.body@, 1);
            let st4 = st3.close_const_scope();
            let head = "function"@ + opt_text(f.generics) + "("@ + join(params, ", "@) + ")"@
                + annot(f.return_type);
            (
                st4,
                LoweredView {
                    setup: seq![],
                    expr: join(
                        seq![head] + indent_each(1, prologue) + nonempty(body) + seq!["end"@],
                        "\n"@,
                    ),
                    reuse_safe: false,
                },
            )
        },
        _ => (st, simple(seq![], false)),
    }
}

/// The segments of a chain without safe accesses: setup lines and the
/// text appended to the base.
pub open spec fn chain_plain(st: EmitState, segs: Seq<ChainSegment>, ph: Option<Seq<char>>) -> (
    EmitState,
    Seq<Seq<char>>,
    Seq<char>,
)
    decreases segs, 0nat,
{
    if segs.len() == 0 {
        (st, seq![], seq![])
    } else {
        let (st1, setup, tail) = chain_plain(st, segs.drop_last(), ph);
        match segs.last() {
            ChainSegment::Field { name, .. } => (st1, setup, tail + "."@ + name@),
            ChainSegment::Index { expr, .. } => {
                let (st2, l) = lower_expr(st1, *expr, ph);
                (st2, setup + l.setup, tail + "["@ + l.expr + "]"@)
            },
            ChainSegment::Call { args } => {
                let (st2, su, values) = lower_args(st1, args@, ph);
                (st2, setup + su, tail + "("@ + join(values, ", "@) + ")"@)
            },
            ChainSegment::MethodCall { name, args, .. } => {
                let (st2, su, values) = lower_args(st1, args@, ph);
                (st2, setup + su, tail + ":"@ + name@ + "("@ + join(values, ", "@) + ")"@)
            },
        }
    }
}

/// A call chain; one with a safe access goes through `lower_optional_chain`.
pub open spec fn lower_chain(st: EmitState, e: Expr, ph: Option<Seq<char>>) -> (EmitState, LoweredView)
    decreases e, 2nat,
{
    match e {
        Expr::Chain { base, segments } => if has_safe(segments@) {
            lower_optional_chain(st, e, ph)
        } else {
            let (st1, b) = lower_expr(st, *base, ph);
            let (st2, setup, tail) = chain_plain(st1, segments@, ph);
            (
                st2,
                LoweredView {
                    setup: b.setup + setup,
                    expr: parens_if(b.expr, base_needs_parens(*base)) + tail,
                    reuse_safe: false,
                },
            )
        },
        _ => (st, simple(seq![], false)),
    }
}

/// The segments of an optional chain updating `cur`, each safe access
/// opening an `if cur ~= nil`: the lines and the nesting level reached.
pub open spec fn opt_segments(
    st: EmitState,
    segs: Seq<ChainSegment>,
    cur: Seq<char>,
    ph: Option<Seq<char>>,
) -> (EmitState, Seq<Seq<char>>, usize)
    decreases segs, 0nat,
{
    if segs.len() == 0 {
        (st, seq![], 1)
    } else {
        let (st1, prev, n0) = opt_segments(st, segs.drop_last(), cur, ph);
        let s = segs.last();
        let opened = if seg_safe(s) {
            seq![indented(n0, "if "@ + cur + " ~= nil then"@)]
        } else {
            seq![]
        };
        let n = if seg_safe(s) {
            deeper(n0, 1)
        } else {
            n0
        };
        match s {
            ChainSegment::Field { name, .. } => (
                st1,
                prev + opened + seq![indented(n, cur + " = "@ + cur + "."@ + name@)],
                n,
            ),
            ChainSegment::Index { expr, .. } => {
                let (st2, l) = lower_expr(st1, *expr, ph);
                (
                    st2,
                    prev + opened + indent_all(n, l.setup) + seq![
                        indented(n, cur + " = "@ + cur + "["@ + l.expr + "]"@),
                    ],
                    n,
                )
            },
            ChainSegment::Call { args } => {
                let (st2, su, values) = lower_args(st1, args@, ph);
                (
                    st2,
                    prev + opened + indent_all(n, su) + seq![
                        indented(n, cur + " = "@ + cur + "("@ + join(values, ", "@) + ")"@),
                    ],
                    n,
                )
            },
            ChainSegment::MethodCall { name, args, .. } => {
                let (st2, su, values) = lower_args(st1, args@, ph);
                (
                    st2,
                    prev + opened + indent_all(n, su) + seq![
                        indented(
                            n,
                            cur + " = "@ + cur + ":"@ + name@ + "("@ + join(values, ", "@) + ")"@,
                        ),
                    ],
                    n,
                )
            },
        }
    }
}

/// A call chain with safe accesses: a temporary walked down the chain,
/// stopping at the first `nil` before a safe access.
pub open spec fn lower_optional_chain(st: EmitState, e: Expr, ph: Option<Seq<char>>) -> (
    EmitState,
    LoweredView,
)
    decreases e, 1nat,
{
    match e {
        Expr::Chain { base, segments } => {
            let (st1, b0) = lower_expr(st, *base, ph);
            let (st2, b) = capture(st1, b0, "opt"@);
            let (st3, result) = st2.fresh("opt"@);
            let (st4, cur) = st3.fresh("cur"@);
            let (st5, body, n) = opt_segments(st4, segments@, cur, ph);
            (
                st5,
                LoweredView {
                    setup: b.setup + seq![
                        "local "@ + result + " = nil"@,
                        "do"@,
                        indented(1, "local "@ + cur + " = "@ + b.expr),
                    ] + body + seq![indented(n, result + " = "@ + cur)] + closers(n) + seq![
                        "end"@,
                    ],
                    expr: result,
                    reuse_safe: false,
                },
            )
        },
        _ => (st, simple(seq![], false)),
    }
}

/// One pipe stage applied to `input`.
pub open spec fn apply_stage(
    st: EmitState,
    input: LoweredView,
    stage: PipeStage,
    ph: Option<Seq<char>>,
) -> (EmitState, LoweredView)
    decreases stage, 1nat,
{
    let (st1, inp) = capture(st, input, "pipe"@);
    match stage {
        PipeStage::Method { name, args } => {
            let (st2, su, values) = lower_args(st1, args@, ph);
            (
                st2,
                LoweredView {
                    setup: inp.setup + su,
                    expr: inp.expr + ":"@ + name@ + "("@ + join(values, ", "@) + ")"@,
                    reuse_safe: false,
                },
            )
        },
        PipeStage::Expr { callee } => {
            let (st2, c) = lower_expr(st1, *callee, ph);
            (
                st2,
                LoweredView {
                    setup: inp.setup + c.setup,
                    expr: c.expr + "("@ + inp.expr + ")"@,
                    reuse_safe: false,
                },
            )
        },
        PipeStage::Call { callee, args } => {
            let (st2, c) = lower_expr(st1, *callee, ph);
            let first = if exprs_have_placeholder(args@) {
                seq![]
            } else {
                seq![inp.expr]
            };
            let (st3, su, values) = lower_args(st2, args@, Some(inp.expr));
            (
                st3,
                LoweredView {
                    setup: inp.setup + c.setup + su,
                    expr: c.expr + "("@ + join(first + values, ", "@) + ")"@,
                    reuse_safe: false,
                },
            )
        },
    }
}

/// The stages of a short pipe applied one after the other.
pub open spec fn pipe_inline(
    st: EmitState,
    stages: Seq<PipeStage>,
    input: LoweredView,
    ph: Option<Seq<char>>,
) -> (EmitState, LoweredView)
    decreases stages, 0nat,
{
    if stages.len() == 0 {
        (st, input)
    } else {
        let (st1, cur) = pipe_inline(st, stages.drop_last(), input, ph);
        apply_stage(st1, cur, stages.last(), ph)
    }
}

/// The stages of a long pipe, each result stored in a fresh temporary:
/// the setup lines and the name of the last temporary.
pub open spec fn pipe_temps(
    st: EmitState,
    stages: Seq<PipeStage>,
    first: Seq<char>,
    ph: Option<Seq<char>>,
) -> (EmitState, Seq<Seq<char>>, Seq<char>)
    decreases stages, 0nat,
{
    if stages.len() == 0 {
        (st, seq![], first)
    } else {
        let (st1, setup, prev) = pipe_temps(st, stages.drop_last(), first, ph);
        let (st2, applied) = apply_stage(st1, simple(prev, true), stages.last(), ph);
        let (st3, next) = st2.fresh("p"@);
        (st3, setup + applied.setup + seq!["local "@ + next + " = "@ + applied.expr], next)
    }
}

/// A pipe: up to three stages inline, longer pipes through temporaries.
pub open spec fn lower_pipe(st: EmitState, e: Expr, ph: Option<Seq<char>>) -> (EmitState, LoweredView)
    decreases e, 2nat,
{
    match e {
        Expr::Pipe { left, stages } => {
            let (st1, cur) = lower_expr(st, *left, ph);
            if stages@.len() <= 3 {
                pipe_inline(st1, stages@, cur, ph)
            } else {
                let (st2, c) = capture(st1, cur, "p"@);
                let (st3, prev) = st2.fresh("p"@);
                let (st4, setup, last) = pipe_temps(st3, stages@, prev, ph);
                (
                    st4,
                    LoweredView {
                        setup: c.setup + seq!["local "@ + prev + " = "@ + c.expr] + setup,
                        expr: last,
                        reuse_safe: false,
                    },
                )
            }
        },
        _ => (st, simple(seq![], false)),
    }
}

// ---------------------------------------------------------------------------
// Patterns
// ---------------------------------------------------------------------------

/// `local` declarations that bind `p` to `source` at `level`.
pub open spec fn pattern_local(
    st: EmitState,
    p: Pattern,
    annotation: Option<String>,
    source: Seq<char>,
    level: usize,
) -> (EmitState, Seq<Seq<char>>)
    decreases p, 2nat,
{
    match p {
        Pattern::Name(n) => (
            st,
            seq![indented(level, "local "@ + n@ + annot(annotation) + " = "@ + source)],
        ),
        Pattern::Table { entries, rest } => {
            let (st1, body) = entry_bindings(st, entries@, source, level);
            match rest {
                Some(r) => {
                    let (st2, temp) = st1.fresh("rest"@);
                    (st2, body + rest_lines(r@, temp, source, excluded_keys(entries@, temp), level))
                },
                None => (st1, body),
            }
        },
        Pattern::Array { items, rest } => {
            let (st1, body) = item_bindings(st, items@, source, level);
            (
                st1,
                body + match rest {
                    Some(r) => seq![
                        indented(
                            level,
                            "local "@ + r@ + " = table.move("@ + source + ", "@
                                + crate::emitter::decimal(items@.len() + 1) + ", #"@ + source
                                + ", 1, {})"@,
                        ),
                    ],
                    None => seq![],
                },
            )
        },
    }
}

/// The lines that collect the keys not named by a table pattern into the
/// rest table `r`.
pub open spec fn rest_lines(
    r: Seq<char>,
    temp: Seq<char>,
    base: Seq<char>,
    excluded: Seq<char>,
    level: usize,
) -> Seq<Seq<char>> {
    if excluded.len() == 0 {
        seq![
            indented(level, "local "@ + r + " = {}"@),
            indented(level, "for "@ + temp + ", _v in "@ + base + " do"@),
            indented(deeper(level, 1), r + "["@ + temp + "] = _v"@),
            indented(level, "end"@),
        ]
    } else {
        seq![
            indented(level, "local "@ + r + " = {}"@),
            indented(level, "for "@ + temp + ", _v in "@ + base + " do"@),
            indented(deeper(level, 1), "if "@ + excluded + " then"@),
            indented(deeper(level, 2), r + "["@ + temp + "] = _v"@),
            indented(deeper(level, 1), "end"@),
            indented(level, "end"@),
        ]
    }
}

/// `temp ~= "key"` for each entry, joined with `and`.
pub open spec fn excluded_keys(es: Seq<TablePatternEntry>, temp: Seq<char>) -> Seq<char> {
    join(es.map_values(|e: TablePatternEntry| temp + " ~= "@ + quoted(e.key@)), " and "@)
}

/// The entries of a table pattern, each read from `base.key`.
pub open spec fn entry_bindings(
    st: EmitState,
    es: Seq<TablePatternEntry>,
    base: Seq<char>,
    level: usize,
) -> (EmitState, Seq<Seq<char>>)
    decreases es, 0nat,
{
    if es.len() == 0 {
        (st, seq![])
    } else {
        let (st1, prev) = entry_bindings(st, es.drop_last(), base, level);
        let e = es.last();
        let (st2, more) = pattern_binding(st1, e.binding, base + "."@ + e.key@, level);
        (st2, prev + more)
    }
}

/// The items of an array pattern, item `k` read from `base[k + 1]`.
pub open spec fn item_bindings(
    st: EmitState,
    items: Seq<ArrayPatternItem>,
    base: Seq<char>,
    level: usize,
) -> (EmitState, Seq<Seq<char>>)
    decreases items, 0nat,
{
    if items.len() == 0 {
        (st, seq![])
    } else {
        let (st1, prev) = item_bindings(st, items.drop_last(), base, level);
        match items.last().binding {
            Some(b) => {
                let (st2, more) = pattern_binding(
                    st1,
                    b,
                    base + "["@ + crate::emitter::decimal(items.len()) + "]"@,
                    level,
                );
                (st2, prev + more)
            },
            None => (st1, prev),
        }
    }
}

/// A nested pattern read from `source`, its default used when the value
/// is `nil`.
pub open spec fn pattern_binding(st: EmitState, b: PatternBinding, source: Seq<char>, level: usize) -> (
    EmitState,
    Seq<Seq<char>>,
)
    decreases b, 1nat,
{
    match b.default_value {
        Some(d) => {
            let (st1, l) = lower_expr(st, d, None);
            if l.setup.len() == 0 && b.target is Name {
                let (st2, temp) = st1.fresh("d"@);
                let (st3, more) = pattern_local(
                    st2,
                    b.target,
                    None,
                    "if "@ + temp + " ~= nil then "@ + temp + " else "@ + l.expr,
                    level,
                );
                (st3, seq![indented(level, "local "@ + temp + " = "@ + source)] + more)
            } else {
                let (st2, temp) = st1.fresh("default"@);
                let inner = deeper(level, 1);
                let pre = seq![
                    indented(level, "local "@ + temp),
                    indented(level, "if "@ + source + " ~= nil then"@),
                    indented(inner, temp + " = "@ + source),
                    indented(level, "else"@),
                ] + setup_block(inner, l.setup) + seq![
                    indented(inner, temp + " = "@ + l.expr),
                    indented(level, "end"@),
                ];
                let (st3, more) = pattern_local(st2, b.target, None, temp, level);
                (st3, pre + more)
            }
        },
        None => pattern_local(st, b.target, None, source, level),
    }
}

/// The condition that a `match` pattern holds of `value`, and the setup
/// that records its bindings in the table `binds`; the fields of a table
/// pattern are read only once `value` is known to be a table.
#[verifier::opaque]
pub open spec fn match_condition(
    st: EmitState,
    p: MatchPattern,
    value: Seq<char>,
    binds: Seq<char>,
) -> (EmitState, Seq<Seq<char>>, Seq<char>)
    decreases p, 2nat,
{
    match p {
        MatchPattern::Literal(e) => {
            let (st1, l) = lower_expr(st, e, None);
            (
                st1,
                l.setup,
                value + " == "@ + parens_if(l.expr, operand_needs_parens(e, BinaryOp::Equal, true)),
            )
        },
        MatchPattern::Bind(n) => (st, seq![binds + "["@ + quoted(n@) + "] = "@ + value], "true"@),
        MatchPattern::Table(fields) => {
            let (st1, setup, conds) = field_conditions(st, fields@, value, binds);
            let test = "type("@ + value + ") == "@ + quoted("table"@);
            (
                st1,
                if setup.len() == 0 {
                    setup
                } else {
                    seq!["if "@ + test + " then"@] + indent_all(1, setup) + seq!["end"@]
                },
                join(seq![test] + conds, " and "@),
            )
        },
    }
}

/// The conditions of the field patterns of a table pattern.
pub open spec fn field_conditions(
    st: EmitState,
    fs: Seq<MatchFieldPattern>,
    value: Seq<char>,
    binds: Seq<char>,
) -> (EmitState, Seq<Seq<char>>, Seq<Seq<char>>)
    decreases fs, 0nat,
{
    if fs.len() == 0 {
        (st, seq![], seq![])
    } else {
        let (st1, setup, conds) = field_conditions(st, fs.drop_last(), value, binds);
        let f = fs.last();
        let (st2, su, c) = match_condition(st1, f.pattern, value + "."@ + f.key@, binds);
        (st2, setup + su, conds.push(c))
    }
}

/// The `local` lines that read the names a pattern bound from `binds`.
pub open spec fn match_bindings(p: MatchPattern, binds: Seq<char>, level: usize) -> Seq<Seq<char>> {
    match_names_of(p).map_values(
        |n: Seq<char>| indented(level, "local "@ + n + " = "@ + binds + "["@ + quoted(n) + "]"@),
    )
}

// ---------------------------------------------------------------------------
// Statements and blocks
// ---------------------------------------------------------------------------

/// A block at `level`: its statements in a new scope, the non-empty chunks
/// joined by newlines.
pub open spec fn lower_block(st: EmitState, b: Seq<Stmt>, level: usize) -> (EmitState, Seq<char>)
    decreases b, 1nat,
{
    let (st1, chunks) = block_chunks(st.open_scopes(), b, level);
    (st1.close_scopes(), join(chunks, "\n"@))
}

/// The non-empty chunks of the statements of a block.
pub open spec fn block_chunks(st: EmitState, b: Seq<Stmt>, level: usize) -> (EmitState, Seq<Seq<char>>)
    decreases b, 0nat,
{
    if b.len() == 0 {
        (st, seq![])
    } else {
        let (st1, prev) = block_chunks(st, b.drop_last(), level);
        let (st2, chunk) = lower_stmt(st1, b.last(), level);
        (st2, prev + nonempty(chunk))
    }
}

/// A statement at `level`.
pub open spec fn lower_stmt(st: EmitState, s: Stmt, level: usize) -> (EmitState, Seq<char>)
    decreases s, 3nat,
{
    match s {
        Stmt::Local(..) => lower_local(st, s, level),
        Stmt::Function(..) => lower_function_stmt(st, s, level),
        Stmt::Enum(d) => lower_enum_decl(enum_registered(st, d), s, level),
        Stmt::Assignment(..) => lower_assignment(st, s, level),
        Stmt::CompoundAssignment { .. } => lower_compound(st, s, level),
        Stmt::NullishAssignment { .. } => lower_nullish_assignment(st, s, level),
        Stmt::Call(e) => {
            let (st1, l) = lower_expr(st, e, None);
            (st1, join(setup_block(level, l.setup) + seq![indented(level, l.expr)], "\n"@))
        },
        Stmt::Return(..) => lower_return(st, s, level),
        Stmt::If(..) => lower_if_stmt(st, s, level),
        Stmt::Switch(..) => lower_switch_stmt(st, s, level),
        Stmt::Match(..) => lower_match_stmt(st, s, level),
        Stmt::While { .. } => lower_while(st, s, level),
        Stmt::Repeat { .. } => lower_repeat(st, s, level),
        Stmt::ForNumeric(..) => lower_for_numeric(st, s, level),
        Stmt::ForGeneric(..) => lower_for_generic(st, s, level),
        Stmt::Do(b) => {
            let (st1, inner) = lower_block(st, b@, deeper(level, 1));
            (st1, indented(level, "do"@) + "\n"@ + inner + "\n"@ + indented(level, "end"@))
        },
        Stmt::Break => (st, indented(level, "break"@)),
        Stmt::Continue => (st, indented(level, "continue"@)),
        Stmt::Fallthrough => (st.fail(fallthrough_message()), seq![]),
        Stmt::TypeAlias { raw, .. } => (alias_registered(st, raw@), indented(level, raw@)),
    }
}

/// Whether some binding is a destructuring pattern.
pub open spec fn destructures(bs: Seq<Binding>) -> bool {
    exists|i: int| 0 <= i < bs.len() && !((#[trigger] bs[i]).pattern is Name)
}

/// The values of a destructuring `local`, each stored in a fresh `_v`
/// temporary: the lines and the temporaries.
pub open spec fn local_values(st: EmitState, vs: Seq<Expr>, level: usize) -> (
    EmitState,
    Seq<Seq<char>>,
    Seq<Seq<char>>,
)
    decreases vs, 0nat,
{
    if vs.len() == 0 {
        (st, seq![], seq![])
    } else {
        let (st1, out, names) = local_values(st, vs.drop_last(), level);
        let (st2, l) = lower_expr(st1, vs.last(), None);
        let (st3, temp) = st2.fresh("v"@);
        (
            st3,
            out + setup_block(level, l.setup) + seq![
                indented(level, "local "@ + temp + " = "@ + l.expr),
            ],
            names.push(temp),
        )
    }
}

/// Each binding of a destructuring `local` bound to its value's
/// temporary, or to `nil` past the last value.
pub open spec fn local_patterns(
    st: EmitState,
    bs: Seq<Binding>,
    names: Seq<Seq<char>>,
    level: usize,
) -> (EmitState, Seq<Seq<char>>)
    decreases bs, 0nat,
{
    if bs.len() == 0 {
        (st, seq![])
    } else {
        let (st1, prev) = local_patterns(st, bs.drop_last(), names, level);
        let k = bs.len() - 1;
        let source = if k < names.len() {
            names[k]
        } else {
            "nil"@
        };
        let b = bs.last();
        let (st2, more) = pattern_local(st1, b.pattern, b.type_annotation, source, level);
        (st2, prev + more)
    }
}

/// A `local` with one plain name: its value's setup and one line.
pub open spec fn single_local(st: EmitState, d: LocalDecl, level: usize) -> (EmitState, Seq<Seq<char>>)
    decreases d, 1nat,
{
    let b = d.bindings@[0];
    let name = match b.pattern {
        Pattern::Name(n) => n@,
        _ => seq![],
    };
    if d.values@.len() > 0 {
        let (st1, l) = lower_expr(st, d.values@[0], None);
        (
            st1,
            setup_block(level, l.setup) + seq![
                indented(level, "local "@ + name + annot(b.type_annotation) + " = "@ + l.expr),
            ],
        )
    } else {
        (st, seq![indented(level, "local "@ + name + annot(b.type_annotation))])
    }
}

/// A `local` with several bindings or a pattern: a single value is read
/// directly when it may be reused (a temporary otherwise); several values
/// each go to a temporary first, then each binding is bound from its
/// temporary.
pub open spec fn destructuring_local(st: EmitState, d: LocalDecl, level: usize) -> (
    EmitState,
    Seq<Seq<char>>,
)
    decreases d, 1nat,
{
    if d.values@.len() == 1 && d.bindings@.len() == 1 {
        let (st1, l) = lower_expr(st, d.values@[0], None);
        let (st2, c) = capture(st1, l, "v"@);
        let (st3, more) = local_patterns(st2, d.bindings@, seq![c.expr], level);
        (st3, setup_block(level, c.setup) + more)
    } else {
        let (st1, pre, names) = local_values(st, d.values@, level);
        let (st2, more) = local_patterns(st1, d.bindings@, names, level);
        (st2, pre + more)
    }
}

/// A `local` or `const` declaration; its names are declared after its
/// values are lowered.
pub open spec fn lower_local(st: EmitState, s: Stmt, level: usize) -> (EmitState, Seq<char>)
    decreases s, 2nat,
{
    match s {
        Stmt::Local(d) => {
            let (st1, out) = if !destructures(d.bindings@) && d.bindings@.len() == 1 {
                single_local(st, d, level)
            } else {
                destructuring_local(st, d, level)
            };
            (bindings_declared(st1, d.bindings@, d.is_const), join(out, "\n"@))
        },
        _ => (st, seq![]),
    }
}

/// The header of a `function` statement: `local function name`, or
/// `function root.field:method`.
pub open spec fn function_header(local_name: bool, name: FunctionName) -> Seq<char> {
    if local_name {
        "local function "@ + name.root@
    } else {
        "function "@ + name.root@ + dotted(name.fields@) + match name.method {
            Some(m) => ":"@ + m@,
            None => seq![],
        }
    }
}

/// A `function` statement.
pub open spec fn lower_function_stmt(st: EmitState, s: Stmt, level: usize) -> (EmitState, Seq<char>)
    decreases s, 2nat,
{
    match s {
        Stmt::Function(f) => {
            let header = function_header(f.local_name, f.name);
            let inner = deeper(level, 1);
            let (st1, params, prologue) = lower_params(st, f.params@);
            let st2 = params_typed(st1.open_scopes(), f.params@);
            let (st3, body) = lower_block(st2, f.body@, inner);
            let body_lines = indent_each(inner, prologue) + nonempty(body);
            let signature = header + opt_text(f.generics) + "("@ + join(params, ", "@) + ")"@
                + annot(f.return_type);
            (
                st3.close_scopes(),
                join(
                    seq![indented(level, signature)] + (if body_lines.len() > 0 {
                        seq![join(body_lines, "\n"@)]
                    } else {
                        seq![]
                    }) + seq![indented(level, "end"@)],
                    "\n"@,
                ),
            )
        },
        _ => (st, seq![]),
    }
}

/// The value of each enum member, with the errors for values that need
/// setup and for missing values of a number-backed enum.
pub open spec fn enum_values(
    st: EmitState,
    ms: Seq<EnumMember>,
    enum_name: Seq<char>,
    numeric: bool,
) -> (EmitState, Seq<(Seq<char>, Seq<char>)>)
    decreases ms, 0nat,
{
    if ms.len() == 0 {
        (st, seq![])
    } else {
        let (st1, prev) = enum_values(st, ms.drop_last(), enum_name, numeric);
        let m = ms.last();
        match m.value {
            Some(v) => {
                let (st2, l) = lower_expr(st1, v, None);
                let st3 = if l.setup.len() > 0 {
                    st2.fail(
                        "enum member `"@ + m.name@ + "` value must be a simple expression"@,
                    )
                } else {
                    st2
                };
                (st3, prev.push((m.name@, l.expr)))
            },
            None => if numeric {
                (
                    st1.fail(
                        "number-backed enum `"@ + enum_name + "` member `"@ + m.name@
                            + "` requires an explicit value"@,
                    ),
                    prev.push((m.name@, "0"@)),
                )
            } else {
                (st1, prev.push((m.name@, quoted(m.name@))))
            },
        }
    }
}

/// An `enum` declaration: a type alias and a frozen table of its members.
pub open spec fn lower_enum_decl(st: EmitState, s: Stmt, level: usize) -> (EmitState, Seq<char>)
    decreases s, 2nat,
{
    match s {
        Stmt::Enum(d) => {
            let numeric = number_backed(d.base_type);
            let (st1, entries) = enum_values(st, d.members@, d.name@, numeric);
            let type_alias = if numeric {
                "type "@ + d.name@ + " = number"@
            } else {
                "type "@ + d.name@ + " = "@ + join(
                    entries.map_values(|p: (Seq<char>, Seq<char>)| p.1),
                    " | "@,
                )
            };
            (
                st1,
                join(
                    seq![
                        indented(level, type_alias),
                        indented(level, "local "@ + d.name@ + " = table.freeze({"@),
                    ] + entries.map_values(
                        |p: (Seq<char>, Seq<char>)|
                            indented(deeper(level, 1), p.0 + " = "@ + p.1 + " :: "@ + d.name@ + ","@),
                    ) + seq![indented(level, "})"@)],
                    "\n"@,
                ),
            )
        },
        _ => (st, seq![]),
    }
}

/// Expressions lowered in order at `level`: their setup lines and values.
pub open spec fn stmt_exprs(st: EmitState, vs: Seq<Expr>, level: usize) -> (
    EmitState,
    Seq<Seq<char>>,
    Seq<Seq<char>>,
)
    decreases vs, 0nat,
{
    if vs.len() == 0 {
        (st, seq![], seq![])
    } else {
        let (st1, out, values) = stmt_exprs(st, vs.drop_last(), level);
        let (st2, l) = lower_expr(st1, vs.last(), None);
        (st2, out + setup_block(level, l.setup), values.push(l.expr))
    }
}

/// An assignment target; with `capture`, an object or index that needs
/// setup is stored in a temporary so that it is evaluated once.
pub open spec fn lower_target(st: EmitState, t: AssignTarget, capture_parts: bool) -> (
    EmitState,
    TargetView,
)
    decreases t, 2nat,
{
    match t {
        AssignTarget::Name(n) => (st, TargetView { setup: seq![], expr: n@ }),
        AssignTarget::Field { object, field } => {
            let (st1, o0) = lower_expr(st, *object, None);
            let (st2, o) = capture(st1, o0, "obj"@);
            if capture_parts && o.setup.len() > 0 {
                let (st3, temp) = st2.fresh("obj"@);
                (
                    st3,
                    TargetView {
                        setup: o.setup.push("local "@ + temp + " = "@ + o.expr),
                        expr: temp + "."@ + field@,
                    },
                )
            } else {
                (st2, TargetView { setup: o.setup, expr: o.expr + "."@ + field@ })
            }
        },
        AssignTarget::Index { object, index } => {
            let (st1, o0) = lower_expr(st, *object, None);
            let (st2, o) = capture(st1, o0, "obj"@);
            let (st3, i0) = lower_expr(st2, *index, None);
            let (st4, i) = capture(st3, i0, "idx"@);
            let setup = o.setup + i.setup;
            if capture_parts && setup.len() > 0 {
                let (st5, ot) = st4.fresh("obj"@);
                let (st6, it) = st5.fresh("idx"@);
                (
                    st6,
                    TargetView {
                        setup: setup.push("local "@ + ot + " = "@ + o.expr).push(
                            "local "@ + it + " = "@ + i.expr,
                        ),
                        expr: ot + "["@ + it + "]"@,
                    },
                )
            } else {
                (st4, TargetView { setup, expr: o.expr + "["@ + i.expr + "]"@ })
            }
        },
    }
}

/// The targets of an assignment, lowered in order at `level`.
pub open spec fn assign_targets(st: EmitState, ts: Seq<AssignTarget>, level: usize) -> (
    EmitState,
    Seq<Seq<char>>,
    Seq<Seq<char>>,
)
    decreases ts, 0nat,
{
    if ts.len() == 0 {
        (st, seq![], seq![])
    } else {
        let (st1, out, targets) = assign_targets(st, ts.drop_last(), level);
        let (st2, t) = lower_target(st1, ts.last(), false);
        (st2, out + setup_block(level, t.setup), targets.push(t.expr))
    }
}

/// A plain assignment; a missing value list assigns `nil`.
pub open spec fn lower_assignment(st: EmitState, s: Stmt, level: usize) -> (EmitState, Seq<char>)
    decreases s, 2nat,
{
    match s {
        Stmt::Assignment(a) => {
            let st1 = const_checked(st, a.targets@);
            let (st2, out, targets) = assign_targets(st1, a.targets@, level);
            let (st3, more, values) = stmt_exprs(st2, a.values@, level);
            let vs = if values.len() == 0 {
                seq!["nil"@]
            } else {
                values
            };
            (
                st3,
                join(
                    out + more + seq![indented(level, join(targets, ", "@) + " = "@ + join(vs, ", "@))],
                    "\n"@,
                ),
            )
        },
        _ => (st, seq![]),
    }
}

/// `target ??= value`: assigned only when the target is `nil`.
pub open spec fn lower_nullish_assignment(st: EmitState, s: Stmt, level: usize) -> (
    EmitState,
    Seq<char>,
)
    decreases s, 2nat,
{
    match s {
        Stmt::NullishAssignment { target, value } => {
            let inner = deeper(level, 1);
            let st1 = const_check(st, target);
            let (st2, t) = lower_target(st1, target, true);
            let (st3, v) = lower_expr(st2, value, None);
            (
                st3,
                join(
                    setup_block(level, t.setup) + seq![
                        indented(level, "if "@ + t.expr + " == nil then"@),
                    ] + setup_block(inner, v.setup) + seq![
                        indented(inner, t.expr + " = "@ + v.expr),
                        indented(level, "end"@),
                    ],
                    "\n"@,
                ),
            )
        },
        _ => (st, seq![]),
    }
}

/// A compound assignment such as `x += 1`.
pub open spec fn lower_compound(st: EmitState, s: Stmt, level: usize) -> (EmitState, Seq<char>)
    decreases s, 2nat,
{
    match s {
        Stmt::CompoundAssignment { target, op, value } => {
            let st1 = const_check(st, target);
            let (st2, t) = lower_target(st1, target, true);
            let (st3, v) = lower_expr(st2, value, None);
            (
                st3,
                join(
                    setup_block(level, t.setup) + setup_block(level, v.setup) + seq![
                        indented(
                            level,
                            t.expr + " = "@ + t.expr + " "@ + compound_token_of(op) + " "@ + parens_if(
                                v.expr,
                                value is Binary || value is Ternary,
                            ),
                        ),
                    ],
                    "\n"@,
                ),
            )
        },
        _ => (st, seq![]),
    }
}

/// A `return` statement.
pub open spec fn lower_return(st: EmitState, s: Stmt, level: usize) -> (EmitState, Seq<char>)
    decreases s, 2nat,
{
    match s {
        Stmt::Return(values) => {
            let (st1, out, vs) = stmt_exprs(st, values@, level);
            (
                st1,
                join(
                    out + seq![
                        if vs.len() == 0 {
                            indented(level, "return"@)
                        } else {
                            indented(level, "return "@ + join(vs, ", "@))
                        },
                    ],
                    "\n"@,
                ),
            )
        },
        _ => (st, seq![]),
    }
}

/// The branches of an `if` statement.
pub open spec fn if_stmt_branches(st: EmitState, bs: Seq<(Expr, Block)>, level: usize) -> (
    EmitState,
    Seq<Seq<char>>,
)
    decreases bs, 0nat,
{
    if bs.len() == 0 {
        (st, seq![])
    } else {
        let (st1, prev) = if_stmt_branches(st, bs.drop_last(), level);
        let b = bs.last();
        let (st2, c0) = lower_expr(st1, b.0, None);
        let (st3, c) = capture(st2, c0, "cond"@);
        let (st4, body) = lower_block(st3, b.1@, deeper(level, 1));
        (
            st4,
            prev + setup_block(level, c.setup) + seq![
                indented(level, branch_keyword(bs.len() - 1) + " "@ + c.expr + " then"@),
            ] + nonempty(body),
        )
    }
}

/// The `else` part of an `if` statement, if it has one.
pub open spec fn else_lines(st: EmitState, e: Option<Block>, level: usize) -> (
    EmitState,
    Seq<Seq<char>>,
)
    decreases e, 1nat,
{
    match e {
        Some(b) => {
            let (st1, body) = lower_block(st, b@, deeper(level, 1));
            (st1, seq![indented(level, "else"@)] + nonempty(body))
        },
        None => (st, seq![]),
    }
}

/// An `if` statement.
pub open spec fn lower_if_stmt(st: EmitState, s: Stmt, level: usize) -> (EmitState, Seq<char>)
    decreases s, 2nat,
{
    match s {
        Stmt::If(i) => {
            let (st1, out) = if_stmt_branches(st, i.branches@, level);
            let (st2, els) = else_lines(st1, i.else_block, level);
            (st2, join(out + els + seq![indented(level, "end"@)], "\n"@))
        },
        _ => (st, seq![]),
    }
}

/// The cases of a `switch` statement from index `i` on. The values of a
/// group of cases are lowered as they come; a case with a body that does
/// not fall through emits the group's test and its body. Cases after the
/// last such case belong to no group and are not lowered. `out` is the
/// output so far, `setup` and `conds` the pending group's.
pub open spec fn switch_walk(
    st: EmitState,
    cases: Seq<SwitchCase>,
    i: int,
    setup: Seq<Seq<char>>,
    conds: Seq<Seq<char>>,
    emitted: bool,
    name: Seq<char>,
    level: usize,
    out: Seq<Seq<char>>,
) -> (EmitState, Seq<Seq<char>>)
    decreases cases, cases.len() - i,
{
    if i < 0 || i >= cases.len() || i > last_closing(cases) {
        (st, out)
    } else {
        let c = cases[i];
        let (st1, l) = lower_expr(st, c.value, None);
        let setup1 = setup + l.setup;
        let conds1 = conds.push(
            name + " == "@ + parens_if(l.expr, operand_needs_parens(c.value, BinaryOp::Equal, true)),
        );
        if closes(c) {
            let keyword = if emitted {
                "elseif"@
            } else {
                "if"@
            };
            let (st2, body) = lower_block(st1, c.block@, deeper(level, 1));
            switch_walk(
                st2,
                cases,
                i + 1,
                seq![],
                seq![],
                true,
                name,
                level,
                out + setup_block(level, setup1) + seq![
                    indented(level, keyword + " "@ + join(conds1, " or "@) + " then"@),
                ] + nonempty(body),
            )
        } else {
            switch_walk(st1, cases, i + 1, setup1, conds1, emitted, name, level, out)
        }
    }
}

/// A `switch` statement; with no group of cases the default block is
/// emitted alone.
pub open spec fn lower_switch_stmt(st: EmitState, s: Stmt, level: usize) -> (EmitState, Seq<char>)
    decreases s, 2nat,
{
    match s {
        Stmt::Switch(sw) => {
            let st1 = switch_checked(st, sw);
            let (st2, v) = lower_expr(st1, sw.value, None);
            let (st3, name) = st2.fresh("sw"@);
            let head = setup_block(level, v.setup) + seq![
                indented(level, "local "@ + name + " = "@ + v.expr),
            ];
            let any = last_closing(sw.cases@) >= 0;
            let (st4, out) = switch_walk(st3, sw.cases@, 0, seq![], seq![], false, name, level, head);
            match sw.default {
                Some(d) => if !any {
                    lower_block(st4, d@, level)
                } else {
                    let (st5, body) = lower_block(st4, d@, deeper(level, 1));
                    (
                        st5,
                        join(
                            out + seq![indented(level, "else"@)] + nonempty(body) + seq![
                                indented(level, "end"@),
                            ],
                            "\n"@,
                        ),
                    )
                },
                None => (
                    st4,
                    join(
                        out + (if any {
                            seq![indented(level, "end"@)]
                        } else {
                            seq![]
                        }),
                        "\n"@,
                    ),
                ),
            }
        },
        _ => (st, seq![]),
    }
}

/// The lines that run a guard: the arm's bindings, then the guard
/// stored into `cond`.
#[verifier::opaque]
pub open spec fn guard_lines(
    st: EmitState,
    c: MatchCase,
    binds: Seq<char>,
    cond: Seq<char>,
    level: usize,
) -> (EmitState, Seq<Seq<char>>)
    decreases c, 1nat,
{
    let l1 = deeper(level, 1);
    let l2 = deeper(level, 2);
    match c.guard {
        Some(g) => {
            let (st1, gl) = lower_expr(st, g, None);
            (
                st1,
                seq![indented(l1, "if "@ + cond + " then"@)] + match_bindings(c.pattern, binds, l2)
                    + setup_block(l2, gl.setup) + seq![
                    indented(l2, cond + " = "@ + gl.expr),
                    indented(l1, "end"@),
                ],
            )
        },
        None => (st, seq![]),
    }
}

/// One arm of a `match` statement, in its own `do` block.
pub open spec fn match_arm(
    st: EmitState,
    c: MatchCase,
    value: Seq<char>,
    matched: Seq<char>,
    level: usize,
) -> (EmitState, Seq<Seq<char>>)
    decreases c, 2nat,
{
    let l1 = deeper(level, 1);
    let l2 = deeper(level, 2);
    let (st1, binds) = st.fresh("mbind"@);
    let (st2, cond) = st1.fresh("mcond"@);
    let (st3, psetup, pexpr) = match_condition(st2, c.pattern, value, binds);
    let head = seq![indented(level, "do"@), indented(l1, "local "@ + binds + " = {}"@)]
        + setup_block(l1, psetup) + seq![
        indented(l1, "local "@ + cond + " = (not "@ + matched + ") and ("@ + pexpr + ")"@),
    ];
    let (st4, guard) = guard_lines(st3, c, binds, cond, level);
    let (st5, body) = lower_block(st4, c.block@, l2);
    (
        st5,
        head + guard + seq![indented(l1, "if "@ + cond + " then"@)] + match_bindings(
            c.pattern,
            binds,
            l2,
        ) + seq![indented(l2, matched + " = true"@)] + nonempty(body) + seq![
            indented(l1, "end"@),
            indented(level, "end"@),
        ],
    )
}

/// The arms of a `match` statement.
pub open spec fn match_arms(
    st: EmitState,
    cs: Seq<MatchCase>,
    value: Seq<char>,
    matched: Seq<char>,
    level: usize,
) -> (EmitState, Seq<Seq<char>>)
    decreases cs, 0nat,
{
    if cs.len() == 0 {
        (st, seq![])
    } else {
        let (st1, prev) = match_arms(st, cs.drop_last(), value, matched, level);
        let (st2, arm) = match_arm(st1, cs.last(), value, matched, level);
        (st2, prev + arm)
    }
}

/// A `match` statement.
pub open spec fn lower_match_stmt(st: EmitState, s: Stmt, level: usize) -> (EmitState, Seq<char>)
    decreases s, 2nat,
{
    match s {
        Stmt::Match(m) => {
            let st1 = match_checked(st, m);
            let (st2, v0) = lower_expr(st1, m.value, None);
            let (st3, v) = capture(st2, v0, "m"@);
            let (st4, matched) = st3.fresh("matched"@);
            let (st5, arms) = match_arms(st4, m.cases@, v.expr, matched, level);
            (
                st5,
                join(
                    setup_block(level, v.setup) + seq![
                        indented(level, "local "@ + matched + " = false"@),
                    ] + arms,
                    "\n"@,
                ),
            )
        },
        _ => (st, seq![]),
    }
}

/// A `while` loop; a condition that needs setup is tested inside
/// `while true`.
pub open spec fn lower_while(st: EmitState, s: Stmt, level: usize) -> (EmitState, Seq<char>)
    decreases s, 2nat,
{
    match s {
        Stmt::While { condition, block } => {
            let l1 = deeper(level, 1);
            let (st1, c0) = lower_expr(st, condition, None);
            let (st2, c) = capture(st1, c0, "cond"@);
            if c.setup.len() == 0 {
                let (st3, body) = lower_block(st2, block@, l1);
                (
                    st3,
                    join(
                        seq![indented(level, "while "@ + c.expr + " do"@)] + nonempty(body) + seq![
                            indented(level, "end"@),
                        ],
                        "\n"@,
                    ),
                )
            } else {
                let (st3, guard) = st2.fresh("while"@);
                let (st4, body) = lower_block(st3, block@, l1);
                (
                    st4,
                    join(
                        seq![indented(level, "while true do"@)] + setup_block(l1, c.setup) + seq![
                            indented(l1, "local "@ + guard + " = "@ + c.expr),
                            indented(l1, "if not "@ + guard + " then"@),
                            indented(deeper(level, 2), "break"@),
                            indented(l1, "end"@),
                        ] + nonempty(body) + seq![indented(level, "end"@)],
                        "\n"@,
                    ),
                )
            }
        },
        _ => (st, seq![]),
    }
}

/// A `repeat ... until` loop.
pub open spec fn lower_repeat(st: EmitState, s: Stmt, level: usize) -> (EmitState, Seq<char>)
    decreases s, 2nat,
{
    match s {
        Stmt::Repeat { block, condition } => {
            let l1 = deeper(level, 1);
            let (st1, body) = lower_block(st, block@, l1);
            let (st2, c0) = lower_expr(st1, condition, None);
            let (st3, c) = capture(st2, c0, "repeat"@);
            (
                st3,
                join(
                    seq![indented(level, "repeat"@)] + nonempty(body) + setup_block(l1, c.setup)
                        + seq![indented(level, "until "@ + c.expr)],
                    "\n"@,
                ),
            )
        },
        _ => (st, seq![]),
    }
}

/// A numeric `for` loop.
pub open spec fn lower_for_numeric(st: EmitState, s: Stmt, level: usize) -> (EmitState, Seq<char>)
    decreases s, 2nat,
{
    match s {
        Stmt::ForNumeric(f) => {
            let (st1, a) = lower_expr(st, f.start, None);
            let (st2, b) = lower_expr(st1, f.end, None);
            let (st3, step) = match f.step {
                Some(x) => {
                    let (sx, lx) = lower_expr(st2, x, None);
                    (sx, Some(lx))
                },
                None => (st2, None),
            };
            let range = a.expr + ", "@ + b.expr + match step {
                Some(l) => ", "@ + l.expr,
                None => seq![],
            };
            let (st4, body) = lower_block(
                st3.open_const_scope().declare(f.name@, false),
                f.block@,
                deeper(level, 1),
            );
            (
                st4.close_const_scope(),
                join(
                    setup_block(level, a.setup) + setup_block(level, b.setup) + match step {
                        Some(l) => setup_block(level, l.setup),
                        None => seq![],
                    } + seq![indented(level, "for "@ + f.name@ + " = "@ + range + " do"@)]
                        + nonempty(body) + seq![indented(level, "end"@)],
                    "\n"@,
                ),
            )
        },
        _ => (st, seq![]),
    }
}

/// The state after declaring the names that the bindings of a loop bind,
/// none of them constant.
pub open spec fn loop_names_declared(st: EmitState, bs: Seq<Binding>) -> EmitState
    decreases bs.len(),
{
    if bs.len() == 0 {
        st
    } else {
        declare_all(loop_names_declared(st, bs.drop_last()), pattern_names_of(bs.last().pattern), false)
    }
}

/// A generic `for ... in` loop; its loop names are declared in the loop's
/// scope.
pub open spec fn lower_for_generic(st: EmitState, s: Stmt, level: usize) -> (EmitState, Seq<char>)
    decreases s, 2nat,
{
    match s {
        Stmt::ForGeneric(f) => {
            let l1 = deeper(level, 1);
            let (st1, out, iters) = stmt_exprs(st, f.iterables@, level);
            let (st2, names, prologue) = loop_bindings(st1, f.bindings@);
            let (st3, body) = lower_block(
                loop_names_declared(st2.open_const_scope(), f.bindings@),
                f.block@,
                l1,
            );
            (
                st3.close_const_scope(),
                join(
                    out + seq![
                        indented(
                            level,
                            "for "@ + join(names, ", "@) + " in "@ + join(iters, ", "@) + " do"@,
                        ),
                    ] + indent_each(l1, prologue) + nonempty(body) + seq![indented(level, "end"@)],
                    "\n"@,
                ),
            )
        },
        _ => (st, seq![]),
    }
}

} // verus!
