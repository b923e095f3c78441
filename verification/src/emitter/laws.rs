//! What every lowering step keeps: scopes opened for a block, a function or
//! a loop are closed again, only the innermost scope of a statement's block
//! gains names, and errors and type shapes recorded earlier stay, in order.
//! Also: temporaries have distinct names, an assignment to a constant is
//! always reported, and every error recorded has one of a few known causes.

use vstd::prelude::*;

use crate::ast::{
    ArrayPatternItem, AssignTarget, Assignment, Binding, Block, ChainSegment,
    ComprehensionClause, EnumMember, Expr, LocalDecl, MatchCase, MatchFieldPattern, MatchPattern,
    Param, Pattern, PatternBinding, PipeStage, Stmt, SwitchCase, SwitchExprCase,
    TableComprehension, TableComprehensionKind, TableField, TablePatternEntry,
};
use crate::emitter::lowering::{
    fallthrough_message, apply_stage, assign_targets, bindings_declared, block_chunks, chain_plain, clauses_left, closes, comp_clauses, comp_insert, const_check, const_checked, declare_all, destructures, destructuring_local, else_lines, entry_bindings, enum_values, field_conditions, guard_lines, has_safe, if_branches, if_stmt_branches, item_bindings, last_closing, local_patterns, local_values, loop_bindings, loop_names_declared, lower_args, lower_assignment, lower_binary, lower_block, lower_chain, lower_compound, lower_comprehension, lower_do_expr, lower_enum_decl, lower_expr, lower_for_generic, lower_for_numeric, lower_function_expr, lower_function_stmt, lower_if_expr, lower_if_stmt, lower_local, lower_match_stmt, lower_nullish, lower_nullish_assignment, lower_optional_chain, lower_params, lower_pipe, lower_repeat, lower_return, lower_stmt, lower_switch_expr, lower_switch_stmt, lower_table, lower_target, lower_ternary, lower_while, match_arm, match_arms, match_condition, nonempty, opt_segments, pattern_binding, pattern_local, pipe_inline, pipe_temps, single_local, stmt_exprs, switch_expr_cases, switch_walk, table_fields,
};
use crate::emitter::names::pattern_names_of;
use crate::emitter::types::{
    alias_registered, enum_registered, match_checked, number_backed, params_typed,
    pattern_typed, switch_checked,
};
use crate::emitter::{
    capture, decimal, deeper, digit_char, indented, setup_block, simple, temp_name, EmitState,
    LoweredView,
};

verus! {

/// `b` begins with the elements of `a`, in order.
pub open spec fn keeps_prefix<A>(a: Seq<A>, b: Seq<A>) -> bool {
    a.len() <= b.len() && forall|i: int| 0 <= i < a.len() ==> #[trigger] b[i] == a[i]
}

/// The semantic errors that lowering records: an assignment to a constant,
/// a `fallthrough` out of place, an enum member whose value is not a simple
/// expression, a member of a number-backed enum without a value, and a
/// `switch` or `match` that misses cases.
pub open spec fn known_error(m: Seq<char>) -> bool {
    ||| exists|n: Seq<char>| #[trigger] ("cannot assign to const `"@ + n) + "`"@ == m
    ||| m == fallthrough_message()
    ||| exists|n: Seq<char>|
        #[trigger] ("enum member `"@ + n) + "` value must be a simple expression"@ == m
    ||| exists|e: Seq<char>, n: Seq<char>|
        #![trigger "number-backed enum `"@ + e, ("number-backed enum `"@ + e + "` member `"@) + n]
        "number-backed enum `"@ + e + "` member `"@ + n + "` requires an explicit value"@ == m
    ||| exists|x: Seq<char>| #[trigger] ("non-exhaustive switch is missing: "@ + x) == m
    ||| exists|f: Seq<char>, x: Seq<char>|
        #![trigger "non-exhaustive match is missing variants for `"@ + f, ("non-exhaustive match is missing variants for `"@ + f + "`: "@) + x]
        "non-exhaustive match is missing variants for `"@ + f + "`: "@ + x == m
}

/// The errors of `b` past those of `a` all have a known cause.
pub open spec fn new_errors_known(a: EmitState, b: EmitState) -> bool {
    forall|i: int| a.errors.len() <= i < b.errors.len() ==> known_error(#[trigger] b.errors[i])
}

/// `b` is `a` after a step that leaves the scopes alone: errors and type
/// shapes only grow at the end, and every new error has a known cause; the
/// counter of temporaries may move.
pub open spec fn extends(a: EmitState, b: EmitState) -> bool {
    &&& keeps_prefix(a.errors, b.errors)
    &&& new_errors_known(a, b)
    &&& keeps_prefix(a.defs, b.defs)
    &&& b.consts == a.consts
    &&& b.types == a.types
}

/// Like `extends`, but the innermost scope of constants and of types may
/// have gained names.
pub open spec fn extends_inner(a: EmitState, b: EmitState) -> bool {
    &&& keeps_prefix(a.errors, b.errors)
    &&& new_errors_known(a, b)
    &&& keeps_prefix(a.defs, b.defs)
    &&& b.consts.len() == a.consts.len()
    &&& b.types.len() == a.types.len()
    &&& forall|i: int| 0 <= i < a.consts.len() - 1 ==> #[trigger] b.consts[i] == a.consts[i]
    &&& forall|i: int| 0 <= i < a.types.len() - 1 ==> #[trigger] b.types[i] == a.types[i]
}

proof fn lemma_declare_all(st: EmitState, names: Seq<Seq<char>>, is_const: bool)
    ensures
        extends_inner(st, declare_all(st, names, is_const)),
    decreases names.len(),
{
    if names.len() > 0 {
        lemma_declare_all(st, names.drop_last(), is_const);
    }
}

proof fn lemma_pattern_typed(st: EmitState, p: Pattern, a: Option<String>)
    ensures
        extends_inner(st, pattern_typed(st, p, a)),
{
}

proof fn lemma_bindings_declared(st: EmitState, bs: Seq<Binding>, is_const: bool)
    ensures
        extends_inner(st, bindings_declared(st, bs, is_const)),
    decreases bs.len(),
{
    if bs.len() > 0 {
        let st1 = bindings_declared(st, bs.drop_last(), is_const);
        lemma_bindings_declared(st, bs.drop_last(), is_const);
        let b = bs.last();
        let st2 = declare_all(st1, pattern_names_of(b.pattern), is_const);
        lemma_declare_all(st1, pattern_names_of(b.pattern), is_const);
        lemma_pattern_typed(st2, b.pattern, b.type_annotation);
    }
}

proof fn lemma_params_typed(st: EmitState, ps: Seq<Param>)
    ensures
        extends_inner(st, params_typed(st, ps)),
    decreases ps.len(),
{
    if ps.len() > 0 {
        lemma_params_typed(st, ps.drop_last());
        let st1 = params_typed(st, ps.drop_last());
        match ps.last() {
            Param::Binding(b) => {
                let st2 = declare_all(st1, pattern_names_of(b.pattern), false);
                lemma_declare_all(st1, pattern_names_of(b.pattern), false);
                lemma_pattern_typed(st2, b.pattern, b.type_annotation);
            },
            Param::VarArg(_) => {},
        }
    }
}

proof fn lemma_const_checked(st: EmitState, ts: Seq<AssignTarget>)
    ensures
        extends(st, const_checked(st, ts)),
    decreases ts.len(),
{
    if ts.len() > 0 {
        lemma_const_checked(st, ts.drop_last());
    }
}

/// Closing the scopes opened before a step that kept all but the innermost
/// scope gives back the scopes as they were.
proof fn lemma_close_after_open(st: EmitState, st2: EmitState)
    requires
        extends_inner(st.open_scopes(), st2),
    ensures
        extends(st, st2.close_scopes()),
{
    assert(st2.close_scopes().consts =~= st.consts);
    assert(st2.close_scopes().types =~= st.types);
}

// ---------------------------------------------------------------------------
// Expressions
// ---------------------------------------------------------------------------

proof fn lemma_lower_expr(st: EmitState, e: Expr, ph: Option<Seq<char>>)
    ensures
        extends(st, lower_expr(st, e, ph).0),
    decreases e, 3nat,
{
    match e {
        Expr::Paren(inner) => lemma_lower_expr(st, *inner, ph),
        Expr::Unary { expr, .. } => lemma_lower_expr(st, *expr, ph),
        Expr::TypeAssertion { expr, .. } => lemma_lower_expr(st, *expr, ph),
        Expr::Binary { .. } => lemma_lower_binary(st, e, ph),
        Expr::Ternary { .. } => lemma_lower_ternary(st, e, ph),
        Expr::IfElse { .. } => lemma_lower_if_expr(st, e, ph),
        Expr::DoExpr { .. } => lemma_lower_do_expr(st, e, ph),
        Expr::SwitchExpr { .. } => lemma_lower_switch_expr(st, e, ph),
        Expr::Table(..) => lemma_lower_table(st, e, ph),
        Expr::Function(..) => lemma_lower_function_expr(st, e),
        Expr::Chain { .. } => lemma_lower_chain(st, e, ph),
        Expr::Pipe { .. } => lemma_lower_pipe(st, e, ph),
        Expr::Comprehension(..) => lemma_lower_comprehension(st, e, ph),
        _ => {},
    }
}

proof fn lemma_lower_binary(st: EmitState, e: Expr, ph: Option<Seq<char>>)
    ensures
        extends(st, lower_binary(st, e, ph).0),
    decreases e, 2nat,
{
    match e {
        Expr::Binary { left, op, right } => {
            if op == crate::ast::BinaryOp::Nullish {
                lemma_lower_nullish(st, e, ph);
            } else if op == crate::ast::BinaryOp::And || op == crate::ast::BinaryOp::Or {
                let (st1, l0) = lower_expr(st, *left, ph);
                lemma_lower_expr(st, *left, ph);
                let (st2, l) = capture(st1, l0, "lhs"@);
                lemma_lower_expr(st2, *right, ph);
            } else {
                let (st1, l) = lower_expr(st, *left, ph);
                lemma_lower_expr(st, *left, ph);
                lemma_lower_expr(st1, *right, ph);
            }
        },
        _ => {},
    }
}

proof fn lemma_lower_nullish(st: EmitState, e: Expr, ph: Option<Seq<char>>)
    ensures
        extends(st, lower_nullish(st, e, ph).0),
    decreases e, 1nat,
{
    match e {
        Expr::Binary { left, right, .. } => {
            let (st1, l0) = lower_expr(st, *left, ph);
            lemma_lower_expr(st, *left, ph);
            let (st2, l) = capture(st1, l0, "lhs"@);
            lemma_lower_expr(st2, *right, ph);
        },
        _ => {},
    }
}

proof fn lemma_lower_ternary(st: EmitState, e: Expr, ph: Option<Seq<char>>)
    ensures
        extends(st, lower_ternary(st, e, ph).0),
    decreases e, 2nat,
{
    match e {
        Expr::Ternary { condition, then_expr, else_expr } => {
            let (st1, c0) = lower_expr(st, *condition, ph);
            lemma_lower_expr(st, *condition, ph);
            let (st2, c) = capture(st1, c0, "cond"@);
            let (st3, t) = lower_expr(st2, *then_expr, ph);
            lemma_lower_expr(st2, *then_expr, ph);
            lemma_lower_expr(st3, *else_expr, ph);
        },
        _ => {},
    }
}

proof fn lemma_if_branches(st: EmitState, bs: Seq<(Expr, Expr)>, temp: Seq<char>, ph: Option<Seq<char>>)
    ensures
        extends(st, if_branches(st, bs, temp, ph).0),
    decreases bs, 0nat,
{
    if bs.len() > 0 {
        let (st1, prev) = if_branches(st, bs.drop_last(), temp, ph);
        lemma_if_branches(st, bs.drop_last(), temp, ph);
        let b = bs.last();
        let (st2, c0) = lower_expr(st1, b.0, ph);
        lemma_lower_expr(st1, b.0, ph);
        let (st3, c) = capture(st2, c0, "ifcond"@);
        lemma_lower_expr(st3, b.1, ph);
    }
}

proof fn lemma_lower_if_expr(st: EmitState, e: Expr, ph: Option<Seq<char>>)
    ensures
        extends(st, lower_if_expr(st, e, ph).0),
    decreases e, 2nat,
{
    match e {
        Expr::IfElse { branches, else_expr } => {
            let (st1, temp) = st.fresh("ifexpr"@);
            let (st2, bl) = if_branches(st1, branches@, temp, ph);
            lemma_if_branches(st1, branches@, temp, ph);
            lemma_lower_expr(st2, *else_expr, ph);
        },
        _ => {},
    }
}

proof fn lemma_lower_do_expr(st: EmitState, e: Expr, ph: Option<Seq<char>>)
    ensures
        extends(st, lower_do_expr(st, e, ph).0),
    decreases e, 2nat,
{
    match e {
        Expr::DoExpr { block, result } => {
            let (st1, name) = st.fresh("de"@);
            let (st2, body) = lower_block(st1, block@, 1);
            lemma_lower_block(st1, block@, 1);
            lemma_lower_expr(st2, *result, ph);
        },
        _ => {},
    }
}

proof fn lemma_switch_expr_cases(
    st: EmitState,
    cs: Seq<SwitchExprCase>,
    sw: Seq<char>,
    result: Seq<char>,
    ph: Option<Seq<char>>,
)
    ensures
        extends(st, switch_expr_cases(st, cs, sw, result, ph).0),
    decreases cs, 0nat,
{
    if cs.len() > 0 {
        let (st1, prev) = switch_expr_cases(st, cs.drop_last(), sw, result, ph);
        lemma_switch_expr_cases(st, cs.drop_last(), sw, result, ph);
        let c = cs.last();
        let (st2, v) = lower_expr(st1, c.value, ph);
        lemma_lower_expr(st1, c.value, ph);
        lemma_lower_expr(st2, c.result, ph);
    }
}

proof fn lemma_lower_switch_expr(st: EmitState, e: Expr, ph: Option<Seq<char>>)
    ensures
        extends(st, lower_switch_expr(st, e, ph).0),
    decreases e, 2nat,
{
    match e {
        Expr::SwitchExpr { value, cases, default } => {
            let (st1, v) = lower_expr(st, *value, ph);
            lemma_lower_expr(st, *value, ph);
            let (st2, result) = st1.fresh("swexpr"@);
            let (st3, sw) = st2.fresh("sw"@);
            let (st4, cl) = switch_expr_cases(st3, cases@, sw, result, ph);
            lemma_switch_expr_cases(st3, cases@, sw, result, ph);
            lemma_lower_expr(st4, *default, ph);
        },
        _ => {},
    }
}

proof fn lemma_table_fields(st: EmitState, fs: Seq<TableField>, ph: Option<Seq<char>>)
    ensures
        extends(st, table_fields(st, fs, ph).0),
    decreases fs, 0nat,
{
    if fs.len() > 0 {
        let (st1, setup, rendered) = table_fields(st, fs.drop_last(), ph);
        lemma_table_fields(st, fs.drop_last(), ph);
        match fs.last() {
            TableField::Named(_, value) => lemma_lower_expr(st1, value, ph),
            TableField::Indexed(key, value) => {
                let (st2, k) = lower_expr(st1, key, ph);
                lemma_lower_expr(st1, key, ph);
                lemma_lower_expr(st2, value, ph);
            },
            TableField::Value(value) => lemma_lower_expr(st1, value, ph),
        }
    }
}

proof fn lemma_lower_table(st: EmitState, e: Expr, ph: Option<Seq<char>>)
    ensures
        extends(st, lower_table(st, e, ph).0),
    decreases e, 2nat,
{
    match e {
        Expr::Table(fields) => lemma_table_fields(st, fields@, ph),
        _ => {},
    }
}

proof fn lemma_lower_comprehension(st: EmitState, e: Expr, ph: Option<Seq<char>>)
    ensures
        extends(st, lower_comprehension(st, e, ph).0),
    decreases e, 2nat,
{
    match e {
        Expr::Comprehension(c) => {
            let (st1, table) = st.fresh("comp"@);
            lemma_comp_clauses(st1, c, 0, 0, table, ph);
        },
        _ => {},
    }
}

proof fn lemma_loop_bindings(st: EmitState, bs: Seq<Binding>)
    ensures
        extends(st, loop_bindings(st, bs).0),
    decreases bs, 0nat,
{
    if bs.len() > 0 {
        let (st1, names, prologue) = loop_bindings(st, bs.drop_last());
        lemma_loop_bindings(st, bs.drop_last());
        let b = bs.last();
        match b.pattern {
            Pattern::Name(_) => {},
            _ => {
                let (st2, temp) = st1.fresh("for"@);
                lemma_pattern_local(st2, b.pattern, b.type_annotation, temp, 0);
            },
        }
    }
}

proof fn lemma_comp_clauses(
    st: EmitState,
    c: TableComprehension,
    k: int,
    level: usize,
    table: Seq<char>,
    ph: Option<Seq<char>>,
)
    ensures
        extends(st, comp_clauses(st, c, k, level, table, ph).0),
    decreases c, clauses_left(c, k),
{
    if k < 0 || k >= c.clauses@.len() {
        lemma_comp_insert(st, c, level, table, ph);
    } else {
        let inner = deeper(level, 1);
        match c.clauses@[k] {
            ComprehensionClause::GenericFor { bindings, iterables } => {
                let (st1, su, values) = lower_args(st, iterables@, ph);
                lemma_lower_args(st, iterables@, ph);
                let (st2, names, prologue) = loop_bindings(st1, bindings@);
                lemma_loop_bindings(st1, bindings@);
                lemma_comp_clauses(st2, c, k + 1, inner, table, ph);
            },
            ComprehensionClause::NumericFor { start, end, step, .. } => {
                let (st1, a) = lower_expr(st, start, ph);
                lemma_lower_expr(st, start, ph);
                let (st2, b) = lower_expr(st1, end, ph);
                lemma_lower_expr(st1, end, ph);
                let (st3, s) = match step {
                    Some(x) => {
                        let (sx, lx) = lower_expr(st2, x, ph);
                        (sx, Some(lx))
                    },
                    None => (st2, None),
                };
                match step {
                    Some(x) => lemma_lower_expr(st2, x, ph),
                    None => {},
                }
                lemma_comp_clauses(st3, c, k + 1, inner, table, ph);
            },
            ComprehensionClause::Filter(cond) => {
                let (st1, l) = lower_expr(st, cond, ph);
                lemma_lower_expr(st, cond, ph);
                lemma_comp_clauses(st1, c, k + 1, inner, table, ph);
            },
        }
    }
}

proof fn lemma_comp_insert(
    st: EmitState,
    c: TableComprehension,
    level: usize,
    table: Seq<char>,
    ph: Option<Seq<char>>,
)
    ensures
        extends(st, comp_insert(st, c, level, table, ph).0),
    decreases c, 0int,
{
    match c.kind {
        TableComprehensionKind::Array { value } => lemma_lower_expr(st, *value, ph),
        TableComprehensionKind::KeyValue { key, value } => {
            let (st1, k) = lower_expr(st, *key, ph);
            lemma_lower_expr(st, *key, ph);
            lemma_lower_expr(st1, *value, ph);
        },
    }
}

proof fn lemma_lower_args(st: EmitState, args: Seq<Expr>, ph: Option<Seq<char>>)
    ensures
        extends(st, lower_args(st, args, ph).0),
    decreases args, 0nat,
{
    if args.len() > 0 {
        let (st1, setup, values) = lower_args(st, args.drop_last(), ph);
        lemma_lower_args(st, args.drop_last(), ph);
        lemma_lower_expr(st1, args.last(), ph);
    }
}

proof fn lemma_lower_params(st: EmitState, ps: Seq<Param>)
    ensures
        extends(st, lower_params(st, ps).0),
    decreases ps, 0nat,
{
    if ps.len() > 0 {
        let (st1, rendered, prologue) = lower_params(st, ps.drop_last());
        lemma_lower_params(st, ps.drop_last());
        match ps.last() {
            Param::VarArg(_) => {},
            Param::Binding(b) => match b.pattern {
                Pattern::Name(_) => {},
                _ => {
                    let temp = "_param"@ + decimal((ps.len() - 1) as nat);
                    lemma_pattern_local(st1, b.pattern, None, temp, 0);
                },
            },
        }
    }
}

proof fn lemma_lower_function_expr(st: EmitState, e: Expr)
    ensures
        extends(st, lower_function_expr(st, e).0),
    decreases e, 2nat,
{
    match e {
        Expr::Function(f) => {
            let (st1, params, prologue) = lower_params(st, f.params@);
            lemma_lower_params(st, f.params@);
            let st2 = st1.open_const_scope();
            let (st3, body) = lower_block(st2, f.body@, 1);
            lemma_lower_block(st2, f.body@, 1);
            assert(st3.close_const_scope().consts =~= st1.consts);
        },
        _ => {},
    }
}

proof fn lemma_chain_plain(st: EmitState, segs: Seq<ChainSegment>, ph: Option<Seq<char>>)
    ensures
        extends(st, chain_plain(st, segs, ph).0),
    decreases segs, 0nat,
{
    if segs.len() > 0 {
        let (st1, setup, tail) = chain_plain(st, segs.drop_last(), ph);
        lemma_chain_plain(st, segs.drop_last(), ph);
        match segs.last() {
            ChainSegment::Field { .. } => {},
            ChainSegment::Index { expr, .. } => lemma_lower_expr(st1, *expr, ph),
            ChainSegment::Call { args } => lemma_lower_args(st1, args@, ph),
            ChainSegment::MethodCall { args, .. } => lemma_lower_args(st1, args@, ph),
        }
    }
}

proof fn lemma_lower_chain(st: EmitState, e: Expr, ph: Option<Seq<char>>)
    ensures
        extends(st, lower_chain(st, e, ph).0),
    decreases e, 2nat,
{
    match e {
        Expr::Chain { base, segments } => if has_safe(segments@) {
            lemma_lower_optional_chain(st, e, ph);
        } else {
            let (st1, b) = lower_expr(st, *base, ph);
            lemma_lower_expr(st, *base, ph);
            lemma_chain_plain(st1, segments@, ph);
        },
        _ => {},
    }
}

proof fn lemma_opt_segments(st: EmitState, segs: Seq<ChainSegment>, cur: Seq<char>, ph: Option<Seq<char>>)
    ensures
        extends(st, opt_segments(st, segs, cur, ph).0),
    decreases segs, 0nat,
{
    if segs.len() > 0 {
        let (st1, prev, n0) = opt_segments(st, segs.drop_last(), cur, ph);
        lemma_opt_segments(st, segs.drop_last(), cur, ph);
        match segs.last() {
            ChainSegment::Field { .. } => {},
            ChainSegment::Index { expr, .. } => lemma_lower_expr(st1, *expr, ph),
            ChainSegment::Call { args } => lemma_lower_args(st1, args@, ph),
            ChainSegment::MethodCall { args, .. } => lemma_lower_args(st1, args@, ph),
        }
    }
}

proof fn lemma_lower_optional_chain(st: EmitState, e: Expr, ph: Option<Seq<char>>)
    ensures
        extends(st, lower_optional_chain(st, e, ph).0),
    decreases e, 1nat,
{
    match e {
        Expr::Chain { base, segments } => {
            let (st1, b0) = lower_expr(st, *base, ph);
            lemma_lower_expr(st, *base, ph);
            let (st2, b) = capture(st1, b0, "opt"@);
            let (st3, result) = st2.fresh("opt"@);
            let (st4, cur) = st3.fresh("cur"@);
            lemma_opt_segments(st4, segments@, cur, ph);
        },
        _ => {},
    }
}

proof fn lemma_apply_stage(st: EmitState, input: LoweredView, stage: PipeStage, ph: Option<Seq<char>>)
    ensures
        extends(st, apply_stage(st, input, stage, ph).0),
    decreases stage, 1nat,
{
    let (st1, inp) = capture(st, input, "pipe"@);
    match stage {
        PipeStage::Method { args, .. } => lemma_lower_args(st1, args@, ph),
        PipeStage::Expr { callee } => lemma_lower_expr(st1, *callee, ph),
        PipeStage::Call { callee, args } => {
            let (st2, c) = lower_expr(st1, *callee, ph);
            lemma_lower_expr(st1, *callee, ph);
            lemma_lower_args(st2, args@, Some(inp.expr));
        },
    }
}

proof fn lemma_pipe_inline(st: EmitState, stages: Seq<PipeStage>, input: LoweredView, ph: Option<Seq<char>>)
    ensures
        extends(st, pipe_inline(st, stages, input, ph).0),
    decreases stages, 0nat,
{
    if stages.len() > 0 {
        let (st1, cur) = pipe_inline(st, stages.drop_last(), input, ph);
        lemma_pipe_inline(st, stages.drop_last(), input, ph);
        lemma_apply_stage(st1, cur, stages.last(), ph);
    }
}

proof fn lemma_pipe_temps(st: EmitState, stages: Seq<PipeStage>, first: Seq<char>, ph: Option<Seq<char>>)
    ensures
        extends(st, pipe_temps(st, stages, first, ph).0),
    decreases stages, 0nat,
{
    if stages.len() > 0 {
        let (st1, setup, prev) = pipe_temps(st, stages.drop_last(), first, ph);
        lemma_pipe_temps(st, stages.drop_last(), first, ph);
        lemma_apply_stage(st1, simple(prev, true), stages.last(), ph);
    }
}

proof fn lemma_lower_pipe(st: EmitState, e: Expr, ph: Option<Seq<char>>)
    ensures
        extends(st, lower_pipe(st, e, ph).0),
    decreases e, 2nat,
{
    match e {
        Expr::Pipe { left, stages } => {
            let (st1, cur) = lower_expr(st, *left, ph);
            lemma_lower_expr(st, *left, ph);
            if stages@.len() <= 3 {
                lemma_pipe_inline(st1, stages@, cur, ph);
            } else {
                let (st2, c) = capture(st1, cur, "p"@);
                let (st3, prev) = st2.fresh("p"@);
                lemma_pipe_temps(st3, stages@, prev, ph);
            }
        },
        _ => {},
    }
}

// ---------------------------------------------------------------------------
// Patterns
// ---------------------------------------------------------------------------

proof fn lemma_pattern_local(
    st: EmitState,
    p: Pattern,
    annotation: Option<String>,
    source: Seq<char>,
    level: usize,
)
    ensures
        extends(st, pattern_local(st, p, annotation, source, level).0),
    decreases p, 2nat,
{
    match p {
        Pattern::Name(_) => {},
        Pattern::Table { entries, rest } => {
            lemma_entry_bindings(st, entries@, source, level);
        },
        Pattern::Array { items, rest } => {
            lemma_item_bindings(st, items@, source, level);
        },
    }
}

proof fn lemma_entry_bindings(st: EmitState, es: Seq<TablePatternEntry>, base: Seq<char>, level: usize)
    ensures
        extends(st, entry_bindings(st, es, base, level).0),
    decreases es, 0nat,
{
    if es.len() > 0 {
        let (st1, prev) = entry_bindings(st, es.drop_last(), base, level);
        lemma_entry_bindings(st, es.drop_last(), base, level);
        let e = es.last();
        lemma_pattern_binding(st1, e.binding, base + "."@ + e.key@, level);
    }
}

proof fn lemma_item_bindings(st: EmitState, items: Seq<ArrayPatternItem>, base: Seq<char>, level: usize)
    ensures
        extends(st, item_bindings(st, items, base, level).0),
    decreases items, 0nat,
{
    if items.len() > 0 {
        let (st1, prev) = item_bindings(st, items.drop_last(), base, level);
        lemma_item_bindings(st, items.drop_last(), base, level);
        match items.last().binding {
            Some(b) => lemma_pattern_binding(
                st1,
                b,
                base + "["@ + decimal(items.len()) + "]"@,
                level,
            ),
            None => {},
        }
    }
}

proof fn lemma_pattern_binding(st: EmitState, b: PatternBinding, source: Seq<char>, level: usize)
    ensures
        extends(st, pattern_binding(st, b, source, level).0),
    decreases b, 1nat,
{
    match b.default_value {
        Some(d) => {
            let (st1, l) = lower_expr(st, d, None);
            lemma_lower_expr(st, d, None);
            if l.setup.len() == 0 && b.target is Name {
                let (st2, temp) = st1.fresh("d"@);
                lemma_pattern_local(
                    st2,
                    b.target,
                    None,
                    "if "@ + temp + " ~= nil then "@ + temp + " else "@ + l.expr,
                    level,
                );
            } else {
                let (st2, temp) = st1.fresh("default"@);
                lemma_pattern_local(st2, b.target, None, temp, level);
            }
        },
        None => lemma_pattern_local(st, b.target, None, source, level),
    }
}

proof fn lemma_match_condition(st: EmitState, p: MatchPattern, value: Seq<char>, binds: Seq<char>)
    ensures
        extends(st, match_condition(st, p, value, binds).0),
    decreases p, 2nat,
{
    reveal(match_condition);
    match p {
        MatchPattern::Literal(e) => lemma_lower_expr(st, e, None),
        MatchPattern::Bind(_) => {},
        MatchPattern::Table(fields) => lemma_field_conditions(st, fields@, value, binds),
    }
}

proof fn lemma_field_conditions(
    st: EmitState,
    fs: Seq<MatchFieldPattern>,
    value: Seq<char>,
    binds: Seq<char>,
)
    ensures
        extends(st, field_conditions(st, fs, value, binds).0),
    decreases fs, 0nat,
{
    reveal(match_condition);
    if fs.len() > 0 {
        let (st1, setup, conds) = field_conditions(st, fs.drop_last(), value, binds);
        lemma_field_conditions(st, fs.drop_last(), value, binds);
        let f = fs.last();
        lemma_match_condition(st1, f.pattern, value + "."@ + f.key@, binds);
    }
}

// ---------------------------------------------------------------------------
// Statements and blocks
// ---------------------------------------------------------------------------

proof fn lemma_lower_block(st: EmitState, b: Seq<Stmt>, level: usize)
    ensures
        extends(st, lower_block(st, b, level).0),
    decreases b, 1nat,
{
    let (st1, chunks) = block_chunks(st.open_scopes(), b, level);
    lemma_block_chunks(st.open_scopes(), b, level);
    lemma_close_after_open(st, st1);
}

proof fn lemma_block_chunks(st: EmitState, b: Seq<Stmt>, level: usize)
    ensures
        extends_inner(st, block_chunks(st, b, level).0),
    decreases b, 0nat,
{
    if b.len() > 0 {
        let (st1, prev) = block_chunks(st, b.drop_last(), level);
        lemma_block_chunks(st, b.drop_last(), level);
        lemma_lower_stmt(st1, b.last(), level);
    }
}

#[verifier::rlimit(60)]
proof fn lemma_lower_stmt(st: EmitState, s: Stmt, level: usize)
    ensures
        extends_inner(st, lower_stmt(st, s, level).0),
    decreases s, 3nat,
{
    match s {
        Stmt::Local(..) => lemma_lower_local(st, s, level),
        Stmt::Function(..) => lemma_lower_function_stmt(st, s, level),
        Stmt::Enum(d) => lemma_lower_enum_decl(enum_registered(st, d), s, level),
        Stmt::Assignment(..) => lemma_lower_assignment(st, s, level),
        Stmt::CompoundAssignment { .. } => lemma_lower_compound(st, s, level),
        Stmt::NullishAssignment { .. } => lemma_lower_nullish_assignment(st, s, level),
        Stmt::Call(e) => lemma_lower_expr(st, e, None),
        Stmt::Return(..) => lemma_lower_return(st, s, level),
        Stmt::If(..) => lemma_lower_if_stmt(st, s, level),
        Stmt::Switch(..) => lemma_lower_switch_stmt(st, s, level),
        Stmt::Match(..) => lemma_lower_match_stmt(st, s, level),
        Stmt::While { .. } => lemma_lower_while(st, s, level),
        Stmt::Repeat { .. } => lemma_lower_repeat(st, s, level),
        Stmt::ForNumeric(..) => lemma_lower_for_numeric(st, s, level),
        Stmt::ForGeneric(..) => lemma_lower_for_generic(st, s, level),
        Stmt::Do(b) => lemma_lower_block(st, b@, deeper(level, 1)),
        _ => {},
    }
}

proof fn lemma_local_values(st: EmitState, vs: Seq<Expr>, level: usize)
    ensures
        extends(st, local_values(st, vs, level).0),
    decreases vs, 0nat,
{
    if vs.len() > 0 {
        let (st1, out, names) = local_values(st, vs.drop_last(), level);
        lemma_local_values(st, vs.drop_last(), level);
        lemma_lower_expr(st1, vs.last(), None);
    }
}

proof fn lemma_local_patterns(st: EmitState, bs: Seq<Binding>, names: Seq<Seq<char>>, level: usize)
    ensures
        extends(st, local_patterns(st, bs, names, level).0),
    decreases bs, 0nat,
{
    if bs.len() > 0 {
        let (st1, prev) = local_patterns(st, bs.drop_last(), names, level);
        lemma_local_patterns(st, bs.drop_last(), names, level);
        let k = bs.len() - 1;
        let source = if k < names.len() {
            names[k]
        } else {
            "nil"@
        };
        let b = bs.last();
        lemma_pattern_local(st1, b.pattern, b.type_annotation, source, level);
    }
}

proof fn lemma_single_local(st: EmitState, d: LocalDecl, level: usize)
    ensures
        extends(st, single_local(st, d, level).0),
    decreases d, 1nat,
{
    if d.values@.len() > 0 {
        lemma_lower_expr(st, d.values@[0], None);
    }
}

proof fn lemma_destructuring_local(st: EmitState, d: LocalDecl, level: usize)
    ensures
        extends(st, destructuring_local(st, d, level).0),
    decreases d, 1nat,
{
    if d.values@.len() == 1 && d.bindings@.len() == 1 {
        let (st1, l) = lower_expr(st, d.values@[0], None);
        lemma_lower_expr(st, d.values@[0], None);
        let (st2, c) = capture(st1, l, "v"@);
        lemma_local_patterns(st2, d.bindings@, seq![c.expr], level);
    } else {
        let (st1, pre, names) = local_values(st, d.values@, level);
        lemma_local_values(st, d.values@, level);
        lemma_local_patterns(st1, d.bindings@, names, level);
    }
}

proof fn lemma_lower_local(st: EmitState, s: Stmt, level: usize)
    ensures
        extends_inner(st, lower_local(st, s, level).0),
    decreases s, 2nat,
{
    match s {
        Stmt::Local(d) => {
            let (st1, out) = if !destructures(d.bindings@) && d.bindings@.len() == 1 {
                single_local(st, d, level)
            } else {
                destructuring_local(st, d, level)
            };
            if !destructures(d.bindings@) && d.bindings@.len() == 1 {
                lemma_single_local(st, d, level);
            } else {
                lemma_destructuring_local(st, d, level);
            }
            lemma_bindings_declared(st1, d.bindings@, d.is_const);
        },
        _ => {},
    }
}

proof fn lemma_lower_function_stmt(st: EmitState, s: Stmt, level: usize)
    ensures
        extends(st, lower_function_stmt(st, s, level).0),
    decreases s, 2nat,
{
    match s {
        Stmt::Function(f) => {
            let inner = deeper(level, 1);
            let (st1, params, prologue) = lower_params(st, f.params@);
            lemma_lower_params(st, f.params@);
            let st2 = params_typed(st1.open_scopes(), f.params@);
            lemma_params_typed(st1.open_scopes(), f.params@);
            let (st3, body) = lower_block(st2, f.body@, inner);
            lemma_lower_block(st2, f.body@, inner);
            lemma_close_after_open(st1, st3);
        },
        _ => {},
    }
}

proof fn lemma_enum_values(st: EmitState, ms: Seq<EnumMember>, enum_name: Seq<char>, numeric: bool)
    ensures
        extends(st, enum_values(st, ms, enum_name, numeric).0),
    decreases ms, 0nat,
{
    if ms.len() > 0 {
        let (st1, prev) = enum_values(st, ms.drop_last(), enum_name, numeric);
        lemma_enum_values(st, ms.drop_last(), enum_name, numeric);
        match ms.last().value {
            Some(v) => lemma_lower_expr(st1, v, None),
            None => {},
        }
    }
}

proof fn lemma_lower_enum_decl(st: EmitState, s: Stmt, level: usize)
    ensures
        extends(st, lower_enum_decl(st, s, level).0),
    decreases s, 2nat,
{
    match s {
        Stmt::Enum(d) => lemma_enum_values(st, d.members@, d.name@, number_backed(d.base_type)),
        _ => {},
    }
}

proof fn lemma_stmt_exprs(st: EmitState, vs: Seq<Expr>, level: usize)
    ensures
        extends(st, stmt_exprs(st, vs, level).0),
    decreases vs, 0nat,
{
    if vs.len() > 0 {
        let (st1, out, values) = stmt_exprs(st, vs.drop_last(), level);
        lemma_stmt_exprs(st, vs.drop_last(), level);
        lemma_lower_expr(st1, vs.last(), None);
    }
}

proof fn lemma_lower_target(st: EmitState, t: AssignTarget, capture_parts: bool)
    ensures
        extends(st, lower_target(st, t, capture_parts).0),
    decreases t, 2nat,
{
    match t {
        AssignTarget::Name(_) => {},
        AssignTarget::Field { object, .. } => {
            let (st1, o0) = lower_expr(st, *object, None);
            lemma_lower_expr(st, *object, None);
            let st2 = capture(st1, o0, "obj"@).0;
            assert(extends(st, st2));
            assert(extends(st, st2.fresh("obj"@).0));
        },
        AssignTarget::Index { object, index } => {
            let (st1, o0) = lower_expr(st, *object, None);
            lemma_lower_expr(st, *object, None);
            let st2 = capture(st1, o0, "obj"@).0;
            assert(extends(st, st2));
            let (st3, i0) = lower_expr(st2, *index, None);
            lemma_lower_expr(st2, *index, None);
            let st4 = capture(st3, i0, "idx"@).0;
            assert(extends(st, st4));
            assert(extends(st, st4.fresh("obj"@).0.fresh("idx"@).0));
        },
    }
}

proof fn lemma_assign_targets(st: EmitState, ts: Seq<AssignTarget>, level: usize)
    ensures
        extends(st, assign_targets(st, ts, level).0),
    decreases ts, 0nat,
{
    if ts.len() > 0 {
        let (st1, out, targets) = assign_targets(st, ts.drop_last(), level);
        lemma_assign_targets(st, ts.drop_last(), level);
        lemma_lower_target(st1, ts.last(), false);
    }
}

proof fn lemma_lower_assignment(st: EmitState, s: Stmt, level: usize)
    ensures
        extends(st, lower_assignment(st, s, level).0),
    decreases s, 2nat,
{
    match s {
        Stmt::Assignment(a) => {
            let st1 = const_checked(st, a.targets@);
            lemma_const_checked(st, a.targets@);
            let (st2, out, targets) = assign_targets(st1, a.targets@, level);
            lemma_assign_targets(st1, a.targets@, level);
            lemma_stmt_exprs(st2, a.values@, level);
        },
        _ => {},
    }
}

proof fn lemma_lower_nullish_assignment(st: EmitState, s: Stmt, level: usize)
    ensures
        extends(st, lower_nullish_assignment(st, s, level).0),
    decreases s, 2nat,
{
    match s {
        Stmt::NullishAssignment { target, value } => {
            let st1 = const_check(st, target);
            let (st2, t) = lower_target(st1, target, true);
            lemma_lower_target(st1, target, true);
            lemma_lower_expr(st2, value, None);
        },
        _ => {},
    }
}

proof fn lemma_lower_compound(st: EmitState, s: Stmt, level: usize)
    ensures
        extends(st, lower_compound(st, s, level).0),
    decreases s, 2nat,
{
    match s {
        Stmt::CompoundAssignment { target, value, .. } => {
            let st1 = const_check(st, target);
            let (st2, t) = lower_target(st1, target, true);
            lemma_lower_target(st1, target, true);
            lemma_lower_expr(st2, value, None);
        },
        _ => {},
    }
}

proof fn lemma_lower_return(st: EmitState, s: Stmt, level: usize)
    ensures
        extends(st, lower_return(st, s, level).0),
    decreases s, 2nat,
{
    match s {
        Stmt::Return(values) => lemma_stmt_exprs(st, values@, level),
        _ => {},
    }
}

proof fn lemma_if_stmt_branches(st: EmitState, bs: Seq<(Expr, Block)>, level: usize)
    ensures
        extends(st, if_stmt_branches(st, bs, level).0),
    decreases bs, 0nat,
{
    if bs.len() > 0 {
        let (st1, prev) = if_stmt_branches(st, bs.drop_last(), level);
        lemma_if_stmt_branches(st, bs.drop_last(), level);
        let b = bs.last();
        let (st2, c0) = lower_expr(st1, b.0, None);
        lemma_lower_expr(st1, b.0, None);
        let (st3, c) = capture(st2, c0, "cond"@);
        lemma_lower_block(st3, b.1@, deeper(level, 1));
    }
}

proof fn lemma_else_lines(st: EmitState, e: Option<Block>, level: usize)
    ensures
        extends(st, else_lines(st, e, level).0),
    decreases e, 1nat,
{
    match e {
        Some(b) => lemma_lower_block(st, b@, deeper(level, 1)),
        None => {},
    }
}

proof fn lemma_lower_if_stmt(st: EmitState, s: Stmt, level: usize)
    ensures
        extends(st, lower_if_stmt(st, s, level).0),
    decreases s, 2nat,
{
    match s {
        Stmt::If(i) => {
            let (st1, out) = if_stmt_branches(st, i.branches@, level);
            lemma_if_stmt_branches(st, i.branches@, level);
            lemma_else_lines(st1, i.else_block, level);
        },
        _ => {},
    }
}

proof fn lemma_switch_walk(
    st: EmitState,
    cases: Seq<SwitchCase>,
    i: int,
    setup: Seq<Seq<char>>,
    conds: Seq<Seq<char>>,
    emitted: bool,
    name: Seq<char>,
    level: usize,
    out: Seq<Seq<char>>,
)
    ensures
        extends(st, switch_walk(st, cases, i, setup, conds, emitted, name, level, out).0),
    decreases cases, cases.len() - i,
{
    if !(i < 0 || i >= cases.len() || i > last_closing(cases)) {
        let c = cases[i];
        let (st1, l) = lower_expr(st, c.value, None);
        lemma_lower_expr(st, c.value, None);
        let setup1 = setup + l.setup;
        let conds1 = conds.push(
            name + " == "@ + crate::emitter::lowering::parens_if(
                l.expr,
                crate::emitter::lowering::operand_needs_parens(c.value, crate::ast::BinaryOp::Equal, true),
            ),
        );
        if closes(c) {
            let keyword = if emitted {
                "elseif"@
            } else {
                "if"@
            };
            let (st2, body) = lower_block(st1, c.block@, deeper(level, 1));
            lemma_lower_block(st1, c.block@, deeper(level, 1));
            lemma_switch_walk(
                st2,
                cases,
                i + 1,
                seq![],
                seq![],
                true,
                name,
                level,
                out + setup_block(level, setup1) + seq![
                    indented(level, keyword + " "@ + crate::text::join(conds1, " or "@) + " then"@),
                ] + nonempty(body),
            );
        } else {
            lemma_switch_walk(st1, cases, i + 1, setup1, conds1, emitted, name, level, out);
        }
    }
}

proof fn lemma_lower_switch_stmt(st: EmitState, s: Stmt, level: usize)
    ensures
        extends(st, lower_switch_stmt(st, s, level).0),
    decreases s, 2nat,
{
    match s {
        Stmt::Switch(sw) => {
            let st1 = switch_checked(st, sw);
            let (st2, v) = lower_expr(st1, sw.value, None);
            lemma_lower_expr(st1, sw.value, None);
            let (st3, name) = st2.fresh("sw"@);
            let head = setup_block(level, v.setup) + seq![
                indented(level, "local "@ + name + " = "@ + v.expr),
            ];
            let (st4, out) = switch_walk(st3, sw.cases@, 0, seq![], seq![], false, name, level, head);
            lemma_switch_walk(st3, sw.cases@, 0, seq![], seq![], false, name, level, head);
            match sw.default {
                Some(d) => {
                    lemma_lower_block(st4, d@, level);
                    lemma_lower_block(st4, d@, deeper(level, 1));
                },
                None => {},
            }
        },
        _ => {},
    }
}

proof fn lemma_guard_lines(st: EmitState, c: MatchCase, binds: Seq<char>, cond: Seq<char>, level: usize)
    ensures
        extends(st, guard_lines(st, c, binds, cond, level).0),
    decreases c, 1nat,
{
    reveal(guard_lines);
    match c.guard {
        Some(g) => lemma_lower_expr(st, g, None),
        None => {},
    }
}

#[verifier::rlimit(80)]
#[verifier::spinoff_prover]
proof fn lemma_match_arm(st: EmitState, c: MatchCase, value: Seq<char>, matched: Seq<char>, level: usize)
    ensures
        extends(st, match_arm(st, c, value, matched, level).0),
    decreases c, 2nat,
{
    let (st1, binds) = st.fresh("mbind"@);
    let (st2, cond) = st1.fresh("mcond"@);
    let (st3, psetup, pexpr) = match_condition(st2, c.pattern, value, binds);
    lemma_match_condition(st2, c.pattern, value, binds);
    let (st4, guard) = guard_lines(st3, c, binds, cond, level);
    lemma_guard_lines(st3, c, binds, cond, level);
    lemma_lower_block(st4, c.block@, deeper(level, 2));
    let st5 = lower_block(st4, c.block@, deeper(level, 2)).0;
    assert(extends(st, st3));
    assert(extends(st, st4));
    assert(match_arm(st, c, value, matched, level).0 == st5);
}

proof fn lemma_match_arms(st: EmitState, cs: Seq<MatchCase>, value: Seq<char>, matched: Seq<char>, level: usize)
    ensures
        extends(st, match_arms(st, cs, value, matched, level).0),
    decreases cs, 0nat,
{
    if cs.len() > 0 {
        let (st1, prev) = match_arms(st, cs.drop_last(), value, matched, level);
        lemma_match_arms(st, cs.drop_last(), value, matched, level);
        lemma_match_arm(st1, cs.last(), value, matched, level);
    }
}

proof fn lemma_lower_match_stmt(st: EmitState, s: Stmt, level: usize)
    ensures
        extends(st, lower_match_stmt(st, s, level).0),
    decreases s, 2nat,
{
    match s {
        Stmt::Match(m) => {
            let st1 = match_checked(st, m);
            let (st2, v0) = lower_expr(st1, m.value, None);
            lemma_lower_expr(st1, m.value, None);
            let (st3, v) = capture(st2, v0, "m"@);
            let (st4, matched) = st3.fresh("matched"@);
            lemma_match_arms(st4, m.cases@, v.expr, matched, level);
        },
        _ => {},
    }
}

proof fn lemma_lower_while(st: EmitState, s: Stmt, level: usize)
    ensures
        extends(st, lower_while(st, s, level).0),
    decreases s, 2nat,
{
    match s {
        Stmt::While { condition, block } => {
            let l1 = deeper(level, 1);
            let (st1, c0) = lower_expr(st, condition, None);
            lemma_lower_expr(st, condition, None);
            let (st2, c) = capture(st1, c0, "cond"@);
            if c.setup.len() == 0 {
                lemma_lower_block(st2, block@, l1);
            } else {
                let (st3, guard) = st2.fresh("while"@);
                lemma_lower_block(st3, block@, l1);
            }
        },
        _ => {},
    }
}

proof fn lemma_lower_repeat(st: EmitState, s: Stmt, level: usize)
    ensures
        extends(st, lower_repeat(st, s, level).0),
    decreases s, 2nat,
{
    match s {
        Stmt::Repeat { block, condition } => {
            let (st1, body) = lower_block(st, block@, deeper(level, 1));
            lemma_lower_block(st, block@, deeper(level, 1));
            lemma_lower_expr(st1, condition, None);
        },
        _ => {},
    }
}

proof fn lemma_lower_for_numeric(st: EmitState, s: Stmt, level: usize)
    ensures
        extends(st, lower_for_numeric(st, s, level).0),
    decreases s, 2nat,
{
    match s {
        Stmt::ForNumeric(f) => {
            let (st1, a) = lower_expr(st, f.start, None);
            lemma_lower_expr(st, f.start, None);
            let (st2, b) = lower_expr(st1, f.end, None);
            lemma_lower_expr(st1, f.end, None);
            let (st3, step) = match f.step {
                Some(x) => {
                    let (sx, lx) = lower_expr(st2, x, None);
                    (sx, Some(lx))
                },
                None => (st2, None),
            };
            match f.step {
                Some(x) => lemma_lower_expr(st2, x, None),
                None => {},
            }
            let inner = st3.open_const_scope().declare(f.name@, false);
            let (st4, body) = lower_block(inner, f.block@, deeper(level, 1));
            lemma_lower_block(inner, f.block@, deeper(level, 1));
            assert(inner.consts.drop_last() =~= st3.consts);
            assert(st4.close_const_scope().consts =~= st3.consts);
        },
        _ => {},
    }
}

proof fn lemma_declare_all_keeps(st: EmitState, names: Seq<Seq<char>>, is_const: bool)
    ensures
        declare_all(st, names, is_const).types == st.types,
        declare_all(st, names, is_const).errors == st.errors,
        declare_all(st, names, is_const).defs == st.defs,
    decreases names.len(),
{
    if names.len() > 0 {
        lemma_declare_all_keeps(st, names.drop_last(), is_const);
    }
}

proof fn lemma_loop_names_declared(st: EmitState, bs: Seq<Binding>)
    ensures
        extends_inner(st, loop_names_declared(st, bs)),
        loop_names_declared(st, bs).types == st.types,
        loop_names_declared(st, bs).errors == st.errors,
        loop_names_declared(st, bs).defs == st.defs,
    decreases bs.len(),
{
    if bs.len() > 0 {
        lemma_loop_names_declared(st, bs.drop_last());
        let st1 = loop_names_declared(st, bs.drop_last());
        lemma_declare_all(st1, pattern_names_of(bs.last().pattern), false);
        lemma_declare_all_keeps(st1, pattern_names_of(bs.last().pattern), false);
    }
}

proof fn lemma_lower_for_generic(st: EmitState, s: Stmt, level: usize)
    ensures
        extends(st, lower_for_generic(st, s, level).0),
    decreases s, 2nat,
{
    match s {
        Stmt::ForGeneric(f) => {
            let l1 = deeper(level, 1);
            let (st1, out, iters) = stmt_exprs(st, f.iterables@, level);
            lemma_stmt_exprs(st, f.iterables@, level);
            let (st2, names, prologue) = loop_bindings(st1, f.bindings@);
            lemma_loop_bindings(st1, f.bindings@);
            let opened = st2.open_const_scope();
            let inner = loop_names_declared(opened, f.bindings@);
            lemma_loop_names_declared(opened, f.bindings@);
            let (st3, body) = lower_block(inner, f.block@, l1);
            lemma_lower_block(inner, f.block@, l1);
            assert forall|i: int| 0 <= i < st2.consts.len() implies inner.consts[i] == st2.consts[i] by {
                assert(opened.consts[i] == st2.consts[i]);
            }
            assert(inner.consts.drop_last() =~= st2.consts);
            assert(st3.close_const_scope().consts =~= st2.consts);
        },
        _ => {},
    }
}

// ---------------------------------------------------------------------------
// Laws
// ---------------------------------------------------------------------------

/// Lowering a block leaves the scopes of constants and of binding types
/// exactly as it found them: every scope opened inside it is closed again,
/// so nothing declared in the block is visible after it. The semantic
/// errors and type shapes recorded before are kept, in order, in front of
/// the new ones.
pub proof fn law_block_restores_scopes(st: EmitState, b: Seq<Stmt>, level: usize)
    ensures
        lower_block(st, b, level).0.consts == st.consts,
        lower_block(st, b, level).0.types == st.types,
        keeps_prefix(st.errors, lower_block(st, b, level).0.errors),
        keeps_prefix(st.defs, lower_block(st, b, level).0.defs),
{
    lemma_lower_block(st, b, level);
}

/// Every semantic error that lowering a block adds has a known cause (see
/// `known_error`); so a program fails to lower only through one of them.
pub proof fn law_errors_have_known_causes(st: EmitState, b: Seq<Stmt>, level: usize)
    ensures
        forall|i: int|
            st.errors.len() <= i < lower_block(st, b, level).0.errors.len() ==> known_error(
                #[trigger] lower_block(st, b, level).0.errors[i],
            ),
{
    lemma_lower_block(st, b, level);
}

/// Lowering an expression declares nothing: the scopes are as before, and
/// earlier errors and type shapes are kept in front of any new ones.
pub proof fn law_expression_restores_scopes(st: EmitState, e: Expr, ph: Option<Seq<char>>)
    ensures
        lower_expr(st, e, ph).0.consts == st.consts,
        lower_expr(st, e, ph).0.types == st.types,
        keeps_prefix(st.errors, lower_expr(st, e, ph).0.errors),
        keeps_prefix(st.defs, lower_expr(st, e, ph).0.defs),
{
    lemma_lower_expr(st, e, ph);
}

/// A statement declares names only in the innermost scope: the number of
/// open scopes is unchanged and every outer scope is as before; earlier
/// errors and type shapes are kept in front of any new ones.
pub proof fn law_statement_touches_only_innermost_scope(st: EmitState, s: Stmt, level: usize)
    ensures
        lower_stmt(st, s, level).0.consts.len() == st.consts.len(),
        lower_stmt(st, s, level).0.types.len() == st.types.len(),
        forall|i: int|
            0 <= i < st.consts.len() - 1 ==> #[trigger] lower_stmt(st, s, level).0.consts[i]
                == st.consts[i],
        forall|i: int|
            0 <= i < st.types.len() - 1 ==> #[trigger] lower_stmt(st, s, level).0.types[i]
                == st.types[i],
        keeps_prefix(st.errors, lower_stmt(st, s, level).0.errors),
        keeps_prefix(st.defs, lower_stmt(st, s, level).0.defs),
{
    lemma_lower_stmt(st, s, level);
}

/// The message recorded for an assignment to the constant `name`.
pub open spec fn const_message(name: Seq<char>) -> Seq<char> {
    "cannot assign to const `"@ + name + "`"@
}

proof fn lemma_const_checked_reports(st: EmitState, ts: Seq<AssignTarget>, k: int, n: String)
    requires
        0 <= k < ts.len(),
        ts[k] == AssignTarget::Name(n),
        st.is_const(n@),
    ensures
        const_checked(st, ts).errors.contains(const_message(n@)),
    decreases ts.len(),
{
    if k < ts.len() - 1 {
        lemma_const_checked_reports(st, ts.drop_last(), k, n);
        let st1 = const_checked(st, ts.drop_last());
        let m = st1.errors.index_of(const_message(n@));
        assert(const_check(st1, ts.last()).errors[m] == const_message(n@));
    } else {
        let st1 = const_checked(st, ts.drop_last());
        lemma_const_checked(st, ts.drop_last());
        assert(st1.consts == st.consts);
        assert(st1.is_const(n@));
        assert(const_check(st1, ts.last()).errors.last() == const_message(n@));
    }
}

/// Assigning to a name that is a constant of an open scope is always
/// reported, whatever the other targets and values of the assignment: the
/// error `cannot assign to const `name`` is among the errors afterwards.
pub proof fn law_const_assignment_reported(st: EmitState, a: Assignment, level: usize, k: int, n: String)
    requires
        0 <= k < a.targets@.len(),
        a.targets@[k] == AssignTarget::Name(n),
        st.is_const(n@),
    ensures
        lower_stmt(st, Stmt::Assignment(a), level).0.errors.contains(const_message(n@)),
{
    let st1 = const_checked(st, a.targets@);
    lemma_const_checked_reports(st, a.targets@, k, n);
    let (st2, out, targets) = assign_targets(st1, a.targets@, level);
    lemma_assign_targets(st1, a.targets@, level);
    let st3 = stmt_exprs(st2, a.values@, level).0;
    lemma_stmt_exprs(st2, a.values@, level);
    let m = st1.errors.index_of(const_message(n@));
    assert(st3.errors[m] == const_message(n@));
}

/// Whether every character of `p` is an ASCII letter.
pub open spec fn letters(p: Seq<char>) -> bool {
    forall|i: int| 0 <= i < p.len() ==> ('a' <= #[trigger] p[i] <= 'z' || 'A' <= p[i] <= 'Z')
}

/// The decimal digits of a number are digits, and there is at least one.
proof fn lemma_decimal_digits(n: nat)
    ensures
        decimal(n).len() >= 1,
        forall|i: int| 0 <= i < decimal(n).len() ==> '0' <= #[trigger] decimal(n)[i] <= '9',
        n < 10 <==> decimal(n).len() == 1,
    decreases n,
{
    if n >= 10 {
        lemma_decimal_digits(n / 10);
    }
}

/// Different numbers have different decimal texts.
proof fn lemma_decimal_injective(a: nat, b: nat)
    requires
        decimal(a) == decimal(b),
    ensures
        a == b,
    decreases a,
{
    lemma_decimal_digits(a);
    lemma_decimal_digits(b);
    if a < 10 {
        assert(decimal(a)[0] == digit_char(a));
        assert(decimal(b)[0] == digit_char(b));
        assert(a == b) by {
            assert(digit_char(a) as u32 == a + 48);
            assert(digit_char(b) as u32 == b + 48);
        }
    } else {
        assert(decimal(a).drop_last() =~= decimal(a / 10));
        assert(decimal(b).drop_last() =~= decimal(b / 10));
        lemma_decimal_injective(a / 10, b / 10);
        assert(decimal(a).last() == digit_char(a % 10));
        assert(decimal(b).last() == digit_char(b % 10));
        assert(a % 10 == b % 10) by {
            assert(digit_char(a % 10) as u32 == a % 10 + 48);
            assert(digit_char(b % 10) as u32 == b % 10 + 48);
        }
    }
}

/// Temporaries taken at different values of the counter have different
/// names, whatever their prefixes, as long as the prefixes are made of
/// letters (as all of the emitter's are): the generated locals never clash.
pub proof fn law_temporaries_distinct(p: Seq<char>, n: usize, q: Seq<char>, m: usize)
    requires
        letters(p),
        letters(q),
        n != m,
    ensures
        temp_name(p, n) != temp_name(q, m),
{
    let a = temp_name(p, n);
    let b = temp_name(q, m);
    lemma_decimal_digits(n as nat);
    lemma_decimal_digits(m as nat);
    if a == b {
        if p.len() < q.len() {
            assert(a[(1 + p.len()) as int] == decimal(n as nat)[0]);
            assert(b[(1 + p.len()) as int] == q[p.len() as int]);
        } else if q.len() < p.len() {
            assert(b[(1 + q.len()) as int] == decimal(m as nat)[0]);
            assert(a[(1 + q.len()) as int] == p[q.len() as int]);
        } else {
            assert(a.subrange((1 + p.len()) as int, a.len() as int) =~= decimal(n as nat));
            assert(b.subrange((1 + q.len()) as int, b.len() as int) =~= decimal(m as nat));
            lemma_decimal_injective(n as nat, m as nat);
        }
    }
}

} // verus!
