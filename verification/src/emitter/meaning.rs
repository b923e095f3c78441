//! What the lowering of conditional expressions means, stated over the
//! lowerings of their parts: `c ? a : b` and `if c then a else b` give `a`
//! under the truthy test of `c` and `b` otherwise; each `switch` case tests
//! the switched value for equality; `l ?? r` gives `l` under the test
//! `l ~= nil` and `r` otherwise; `l and r` / `l or r` run `r` only where it
//! decides the result; a pipe stage passes the piped value as the first
//! argument; `x ??= v` assigns only under `x == nil`; a safe access `?.`
//! runs only under a `~= nil` test of the value reached so far.

use vstd::prelude::*;

use crate::ast::{AssignTarget, BinaryOp, ChainSegment, Expr, PipeStage, Stmt, SwitchExprCase};
use crate::emitter::lowering::{
    apply_stage, const_check, if_branches, lower_args, lower_binary, lower_expr, lower_if_expr,
    lower_nullish, lower_nullish_assignment, lower_target, lower_ternary, operand_needs_parens,
    opt_segments, parens_if, seg_safe, switch_expr_cases,
};
use crate::emitter::names::exprs_have_placeholder;
use crate::emitter::{capture, deeper, indent_all, indented, setup_block, EmitState, LoweredView};
use crate::text::join;

verus! {

/// `c ? a : b` evaluates `c` once (its setup first), then gives `a` when
/// `c` is truthy and `b` otherwise. Without setup in either branch the
/// result is the expression `if c then a else b`. Otherwise it is a
/// temporary declared after the condition's setup and set in an `if` on
/// the condition: the first branch, under the truthy test, runs the setup
/// of `a` and assigns `a`; the `else` branch runs the setup of `b` and
/// assigns `b`.
pub proof fn law_ternary_picks_then_when_true(
    st: EmitState,
    c: Expr,
    a: Expr,
    b: Expr,
    ph: Option<Seq<char>>,
)
    ensures
        ({
            let e = Expr::Ternary {
                condition: Box::new(c),
                then_expr: Box::new(a),
                else_expr: Box::new(b),
            };
            let (_, out) = lower_expr(st, e, ph);
            let (st1, c0) = lower_expr(st, c, ph);
            let (st2, cv) = capture(st1, c0, "cond"@);
            let (st3, tv) = lower_expr(st2, a, ph);
            let (_, fv) = lower_expr(st3, b, ph);
            let n = cv.setup.len() as int;
            let ti = indent_all(1, tv.setup);
            let fi = indent_all(1, fv.setup);
            let k = out.setup.len() as int;
            if tv.setup.len() == 0 && fv.setup.len() == 0 {
                &&& out.setup == cv.setup
                &&& out.expr == "if "@ + cv.expr + " then "@ + tv.expr + " else "@ + fv.expr
            } else {
                &&& k == n + ti.len() + fi.len() + 6
                &&& out.setup.subrange(0, n) == cv.setup
                &&& out.setup[n] == "local "@ + out.expr
                &&& out.setup[n + 1] == "if "@ + cv.expr + " then"@
                &&& out.setup.subrange(n + 2, n + 2 + ti.len()) == ti
                &&& out.setup[n + 2 + ti.len()] == indented(1, out.expr + " = "@ + tv.expr)
                &&& out.setup[n + 3 + ti.len()] == "else"@
                &&& out.setup.subrange(n + 4 + ti.len(), k - 2) == fi
                &&& out.setup[k - 2] == indented(1, out.expr + " = "@ + fv.expr)
                &&& out.setup[k - 1] == "end"@
            }
        }),
{
    let e = Expr::Ternary { condition: Box::new(c), then_expr: Box::new(a), else_expr: Box::new(b) };
    assert(lower_expr(st, e, ph) == lower_ternary(st, e, ph));
    let (_, out) = lower_expr(st, e, ph);
    let (st1, c0) = lower_expr(st, c, ph);
    let (st2, cv) = capture(st1, c0, "cond"@);
    let (st3, tv) = lower_expr(st2, a, ph);
    let (_, fv) = lower_expr(st3, b, ph);
    let n = cv.setup.len() as int;
    let ti = indent_all(1, tv.setup);
    let fi = indent_all(1, fv.setup);
    if !(tv.setup.len() == 0 && fv.setup.len() == 0) {
        let s = out.setup;
        assert(s =~= cv.setup + seq!["local "@ + out.expr, "if "@ + cv.expr + " then"@] + ti + seq![
            indented(1, out.expr + " = "@ + tv.expr),
            "else"@,
        ] + fi + seq![indented(1, out.expr + " = "@ + fv.expr), "end"@]);
        assert(s.subrange(0, n) =~= cv.setup);
        assert(s.subrange(n + 2, n + 2 + ti.len()) =~= ti);
        assert(s.subrange(n + 4 + ti.len(), s.len() - 2) =~= fi);
    }
}

/// `l ?? r` evaluates `l` once (its setup first) and gives it when it is
/// not `nil`, and `r` otherwise. Without setup in `r` the result is the
/// expression `if l ~= nil then l else r`. Otherwise it is a temporary set
/// in an `if` whose test is `l ~= nil`: that branch assigns `l`; only the
/// `else` branch runs the setup of `r` and assigns `r`.
pub proof fn law_nullish_keeps_left_unless_nil(st: EmitState, l: Expr, r: Expr, ph: Option<Seq<char>>)
    ensures
        ({
            let e = Expr::Binary { left: Box::new(l), op: BinaryOp::Nullish, right: Box::new(r) };
            let (_, out) = lower_expr(st, e, ph);
            let (st1, l0) = lower_expr(st, l, ph);
            let (st2, lv) = capture(st1, l0, "lhs"@);
            let (_, rv) = lower_expr(st2, r, ph);
            let n = lv.setup.len() as int;
            let ri = indent_all(1, rv.setup);
            let k = out.setup.len() as int;
            if rv.setup.len() == 0 {
                &&& out.setup == lv.setup
                &&& out.expr == "if "@ + lv.expr + " ~= nil then "@ + lv.expr + " else "@ + rv.expr
            } else {
                &&& k == n + ri.len() + 6
                &&& out.setup.subrange(0, n) == lv.setup
                &&& out.setup[n] == "local "@ + out.expr
                &&& out.setup[n + 1] == "if "@ + lv.expr + " ~= nil then"@
                &&& out.setup[n + 2] == indented(1, out.expr + " = "@ + lv.expr)
                &&& out.setup[n + 3] == "else"@
                &&& out.setup.subrange(n + 4, k - 2) == ri
                &&& out.setup[k - 2] == indented(1, out.expr + " = "@ + rv.expr)
                &&& out.setup[k - 1] == "end"@
            }
        }),
{
    let e = Expr::Binary { left: Box::new(l), op: BinaryOp::Nullish, right: Box::new(r) };
    assert(lower_expr(st, e, ph) == lower_binary(st, e, ph));
    assert(lower_binary(st, e, ph) == lower_nullish(st, e, ph));
    let (_, out) = lower_expr(st, e, ph);
    let (st1, l0) = lower_expr(st, l, ph);
    let (st2, lv) = capture(st1, l0, "lhs"@);
    let (_, rv) = lower_expr(st2, r, ph);
    let n = lv.setup.len() as int;
    let ri = indent_all(1, rv.setup);
    if rv.setup.len() != 0 {
        let s = out.setup;
        assert(s =~= lv.setup + seq![
            "local "@ + out.expr,
            "if "@ + lv.expr + " ~= nil then"@,
            indented(1, out.expr + " = "@ + lv.expr),
            "else"@,
        ] + ri + seq![indented(1, out.expr + " = "@ + rv.expr), "end"@]);
        assert(s.subrange(0, n) =~= lv.setup);
        assert(s.subrange(n + 4, s.len() - 2) =~= ri);
    }
}

/// `l and r` and `l or r` evaluate `l` once (its setup first) and `r` only
/// where it decides the result: for `and` when `l` is truthy, for `or` when
/// it is not. Without setup in `r` the result is the Luau operation itself,
/// `l` on the left and `r` on the right. Otherwise it is a temporary set in
/// an `if` whose test is `l`: for `and` the first branch runs the setup of
/// `r` and assigns `r` while the `else` branch assigns `l`; for `or` the
/// first branch assigns `l` and only the `else` branch runs the setup of
/// `r` and assigns `r`.
pub proof fn law_short_circuit_runs_right_only_when_needed(
    st: EmitState,
    l: Expr,
    r: Expr,
    is_and: bool,
    ph: Option<Seq<char>>,
)
    ensures
        ({
            let op = if is_and {
                BinaryOp::And
            } else {
                BinaryOp::Or
            };
            let e = Expr::Binary { left: Box::new(l), op, right: Box::new(r) };
            let (_, out) = lower_expr(st, e, ph);
            let (st1, l0) = lower_expr(st, l, ph);
            let (st2, lv) = capture(st1, l0, "lhs"@);
            let (_, rv) = lower_expr(st2, r, ph);
            let n = lv.setup.len() as int;
            let ri = indent_all(1, rv.setup);
            let k = out.setup.len() as int;
            let word = if is_and {
                "and"@
            } else {
                "or"@
            };
            if rv.setup.len() == 0 {
                &&& out.setup == lv.setup
                &&& out.expr == parens_if(lv.expr, operand_needs_parens(l, op, false)) + " "@ + word
                    + " "@ + parens_if(rv.expr, operand_needs_parens(r, op, true))
            } else if is_and {
                &&& k == n + ri.len() + 6
                &&& out.setup.subrange(0, n) == lv.setup
                &&& out.setup[n] == "local "@ + out.expr
                &&& out.setup[n + 1] == "if "@ + lv.expr + " then"@
                &&& out.setup.subrange(n + 2, n + 2 + ri.len()) == ri
                &&& out.setup[n + 2 + ri.len()] == indented(1, out.expr + " = "@ + rv.expr)
                &&& out.setup[n + 3 + ri.len()] == "else"@
                &&& out.setup[k - 2] == indented(1, out.expr + " = "@ + lv.expr)
                &&& out.setup[k - 1] == "end"@
            } else {
                &&& k == n + ri.len() + 6
                &&& out.setup.subrange(0, n) == lv.setup
                &&& out.setup[n] == "local "@ + out.expr
                &&& out.setup[n + 1] == "if "@ + lv.expr + " then"@
                &&& out.setup[n + 2] == indented(1, out.expr + " = "@ + lv.expr)
                &&& out.setup[n + 3] == "else"@
                &&& out.setup.subrange(n + 4, k - 2) == ri
                &&& out.setup[k - 2] == indented(1, out.expr + " = "@ + rv.expr)
                &&& out.setup[k - 1] == "end"@
            }
        }),
{
    let op = if is_and {
        BinaryOp::And
    } else {
        BinaryOp::Or
    };
    let e = Expr::Binary { left: Box::new(l), op, right: Box::new(r) };
    assert(lower_expr(st, e, ph) == lower_binary(st, e, ph));
    let (_, out) = lower_expr(st, e, ph);
    let (st1, l0) = lower_expr(st, l, ph);
    let (st2, lv) = capture(st1, l0, "lhs"@);
    let (_, rv) = lower_expr(st2, r, ph);
    let n = lv.setup.len() as int;
    let ri = indent_all(1, rv.setup);
    if rv.setup.len() != 0 {
        let s = out.setup;
        if is_and {
            assert(s =~= lv.setup + seq!["local "@ + out.expr, "if "@ + lv.expr + " then"@] + ri
                + seq![
                indented(1, out.expr + " = "@ + rv.expr),
                "else"@,
                indented(1, out.expr + " = "@ + lv.expr),
                "end"@,
            ]);
            assert(s.subrange(0, n) =~= lv.setup);
            assert(s.subrange(n + 2, n + 2 + ri.len()) =~= ri);
        } else {
            assert(s =~= lv.setup + seq![
                "local "@ + out.expr,
                "if "@ + lv.expr + " then"@,
                indented(1, out.expr + " = "@ + lv.expr),
                "else"@,
            ] + ri + seq![indented(1, out.expr + " = "@ + rv.expr), "end"@]);
            assert(s.subrange(0, n) =~= lv.setup);
            assert(s.subrange(n + 4, s.len() - 2) =~= ri);
        }
    }
}

/// `if c then a else b` as an expression is a temporary, declared first,
/// then set in an `if` on `c` (after the setup of `c`): the first branch
/// runs the setup of `a` and assigns `a`, the `else` branch runs the setup
/// of `b` and assigns `b`.
pub proof fn law_if_expr_picks_branch_by_condition(
    st: EmitState,
    branches: Vec<(Expr, Expr)>,
    other: Expr,
    ph: Option<Seq<char>>,
)
    requires
        branches@.len() == 1,
    ensures
        ({
            let e = Expr::IfElse { branches, else_expr: Box::new(other) };
            let (_, out) = lower_expr(st, e, ph);
            let (st1, temp) = st.fresh("ifexpr"@);
            let (st2, c0) = lower_expr(st1, branches@[0].0, ph);
            let (st3, cv) = capture(st2, c0, "ifcond"@);
            let (st4, tv) = lower_expr(st3, branches@[0].1, ph);
            let (_, fv) = lower_expr(st4, other, ph);
            &&& out.expr == temp
            &&& out.setup == seq!["local "@ + temp] + cv.setup + seq!["if "@ + cv.expr + " then"@]
                + indent_all(1, tv.setup) + seq![indented(1, temp + " = "@ + tv.expr), "else"@]
                + indent_all(1, fv.setup) + seq![indented(1, temp + " = "@ + fv.expr), "end"@]
        }),
{
    let e = Expr::IfElse { branches, else_expr: Box::new(other) };
    assert(lower_expr(st, e, ph) == lower_if_expr(st, e, ph));
    let (st1, temp) = st.fresh("ifexpr"@);
    let bs = branches@;
    assert(bs.drop_last() =~= Seq::<(Expr, Expr)>::empty());
    assert(if_branches(st1, bs.drop_last(), temp, ph) == (st1, Seq::<Seq<char>>::empty()));
    let (_, out) = lower_expr(st, e, ph);
    let (st2, c0) = lower_expr(st1, bs[0].0, ph);
    let (st3, cv) = capture(st2, c0, "ifcond"@);
    let (st4, tv) = lower_expr(st3, bs[0].1, ph);
    let (_, fv) = lower_expr(st4, other, ph);
    let (_, bl) = if_branches(st1, bs, temp, ph);
    assert(bs.last() == bs[0]);
    reveal_strlit("if");
    reveal_strlit(" ");
    reveal_strlit("if ");
    assert("if"@ + " "@ =~= "if "@);
    assert(bl == Seq::<Seq<char>>::empty() + cv.setup + seq!["if"@ + " "@ + cv.expr + " then"@]
        + indent_all(1, tv.setup) + seq![indented(1, temp + " = "@ + tv.expr)]);
    assert(bl =~= cv.setup + seq!["if "@ + cv.expr + " then"@] + indent_all(1, tv.setup) + seq![
        indented(1, temp + " = "@ + tv.expr),
    ]);
    assert(out.setup =~= seq!["local "@ + temp] + cv.setup + seq!["if "@ + cv.expr + " then"@]
        + indent_all(1, tv.setup) + seq![indented(1, temp + " = "@ + tv.expr), "else"@]
        + indent_all(1, fv.setup) + seq![indented(1, temp + " = "@ + fv.expr), "end"@]);
}

/// The argument list `x, v1, .., vn`: `x` alone, or `x`, a comma and the
/// others.
proof fn lemma_join_first(x: Seq<char>, vs: Seq<Seq<char>>, sep: Seq<char>)
    ensures
        join(seq![x] + vs, sep) == if vs.len() == 0 {
            x
        } else {
            x + sep + join(vs, sep)
        },
    decreases vs.len(),
{
    let all = seq![x] + vs;
    if vs.len() == 0 {
        assert(all =~= seq![x]);
    } else {
        let d = vs.drop_last();
        lemma_join_first(x, d, sep);
        assert(all.drop_last() =~= seq![x] + d);
        assert(all.last() == vs.last());
        if d.len() == 0 {
            assert(vs =~= seq![vs.last()]);
            assert(join(vs, sep) == vs[0]);
        } else {
            assert(join(vs, sep) == join(d, sep) + sep + vs.last());
        }
        assert(join(all, sep) == join(seq![x] + d, sep) + sep + vs.last());
        if d.len() != 0 {
            assert(x + sep + join(d, sep) + sep + vs.last() =~= x + sep + (join(d, sep) + sep
                + vs.last()));
        }
    }
}

/// A call stage `|> f(a1, .., an)` without the placeholder `_` calls `f`
/// with the piped value as its first argument, followed by the given
/// arguments in order; with the placeholder, the piped value stands where
/// `_` does and is not added. The piped value's setup comes first, then the
/// callee's, then the arguments'.
pub proof fn law_pipe_value_is_first_argument(
    st: EmitState,
    input: LoweredView,
    stage: PipeStage,
    ph: Option<Seq<char>>,
)
    requires
        stage is Call,
    ensures
        ({
            let (_, out) = apply_stage(st, input, stage, ph);
            let (st1, inp) = capture(st, input, "pipe"@);
            let (st2, cv) = lower_expr(st1, *stage->Call_callee, ph);
            let (_, su, vals) = lower_args(st2, stage->Call_args@, Some(inp.expr));
            &&& out.setup == inp.setup + cv.setup + su
            &&& !exprs_have_placeholder(stage->Call_args@) ==> out.expr == cv.expr + "("@ + inp.expr
                + (if vals.len() == 0 {
                seq![]
            } else {
                ", "@ + join(vals, ", "@)
            }) + ")"@
            &&& exprs_have_placeholder(stage->Call_args@) ==> out.expr == cv.expr + "("@ + join(
                vals,
                ", "@,
            ) + ")"@
        }),
{
    let (st1, inp) = capture(st, input, "pipe"@);
    let (st2, cv) = lower_expr(st1, *stage->Call_callee, ph);
    let (_, su, vals) = lower_args(st2, stage->Call_args@, Some(inp.expr));
    lemma_join_first(inp.expr, vals, ", "@);
    if exprs_have_placeholder(stage->Call_args@) {
        assert(seq![] + vals =~= vals);
    } else {
        if vals.len() == 0 {
            assert(inp.expr + seq![] =~= inp.expr);
        }
        assert(cv.expr + "("@ + (inp.expr + (if vals.len() == 0 {
            seq![]
        } else {
            ", "@ + join(vals, ", "@)
        })) + ")"@ =~= cv.expr + "("@ + inp.expr + (if vals.len() == 0 {
            seq![]
        } else {
            ", "@ + join(vals, ", "@)
        }) + ")"@);
    }
}

/// A method stage `|> :m(a1, .., an)` calls `m` on the piped value, and a
/// bare stage `|> f` calls `f` with the piped value as its only argument.
/// The piped value's setup comes first.
pub proof fn law_pipe_value_is_receiver_or_sole_argument(
    st: EmitState,
    input: LoweredView,
    stage: PipeStage,
    ph: Option<Seq<char>>,
)
    requires
        !(stage is Call),
    ensures
        ({
            let (_, out) = apply_stage(st, input, stage, ph);
            let (st1, inp) = capture(st, input, "pipe"@);
            match stage {
                PipeStage::Method { name, args } => {
                    let (_, su, vals) = lower_args(st1, args@, ph);
                    &&& out.setup == inp.setup + su
                    &&& out.expr == inp.expr + ":"@ + name@ + "("@ + join(vals, ", "@) + ")"@
                },
                PipeStage::Expr { callee } => {
                    let (_, cv) = lower_expr(st1, *callee, ph);
                    &&& out.setup == inp.setup + cv.setup
                    &&& out.expr == cv.expr + "("@ + inp.expr + ")"@
                },
                PipeStage::Call { .. } => false,
            }
        }),
{
}

/// `target ??= value` assigns only when the target is `nil`: after the
/// target's setup comes `if target == nil then`, and only inside it the
/// value's setup and the assignment, then `end`.
pub proof fn law_nullish_assignment_only_when_nil(
    st: EmitState,
    target: AssignTarget,
    value: Expr,
    level: usize,
)
    ensures
        ({
            let (_, out) = lower_nullish_assignment(
                st,
                Stmt::NullishAssignment { target, value },
                level,
            );
            let (st2, t) = lower_target(const_check(st, target), target, true);
            let (_, v) = lower_expr(st2, value, None);
            let inner = deeper(level, 1);
            out == join(
                setup_block(level, t.setup) + seq![indented(level, "if "@ + t.expr + " == nil then"@)]
                    + setup_block(inner, v.setup) + seq![
                    indented(inner, t.expr + " = "@ + v.expr),
                    indented(level, "end"@),
                ],
                "\n"@,
            )
        }),
{
}

/// In an optional chain each safe access (`?.`) opens `if cur ~= nil then`
/// on the value reached so far and runs one level deeper; a plain access
/// opens nothing and stays at the same level. The lines of the earlier
/// segments come first, unchanged.
pub proof fn law_safe_access_guarded_by_nil_test(
    st: EmitState,
    segs: Seq<ChainSegment>,
    seg: ChainSegment,
    cur: Seq<char>,
    ph: Option<Seq<char>>,
)
    ensures
        ({
            let (_, prev, n0) = opt_segments(st, segs, cur, ph);
            let (_, all, n) = opt_segments(st, segs.push(seg), cur, ph);
            &&& all.subrange(0, prev.len() as int) == prev
            &&& seg_safe(seg) ==> all[prev.len() as int] == indented(
                n0,
                "if "@ + cur + " ~= nil then"@,
            ) && n == deeper(n0, 1)
            &&& !seg_safe(seg) ==> n == n0
        }),
{
    let all_segs = segs.push(seg);
    assert(all_segs.drop_last() =~= segs);
    assert(all_segs.last() == seg);
    let (_, prev, n0) = opt_segments(st, segs, cur, ph);
    let (_, all, n) = opt_segments(st, all_segs, cur, ph);
    assert(all.subrange(0, prev.len() as int) =~= prev);
}

/// In an `if` expression each further branch `elseif c then v` comes after
/// the lines of the branches before it: the setup of `c`, the test
/// `elseif c then` (`if c then` for the first branch), and, one level
/// deeper, the setup of `v` and the assignment of `v` to the result.
pub proof fn law_if_expr_branch_assigns_its_value(
    st: EmitState,
    bs: Seq<(Expr, Expr)>,
    b: (Expr, Expr),
    temp: Seq<char>,
    ph: Option<Seq<char>>,
)
    ensures
        ({
            let (st1, prev) = if_branches(st, bs, temp, ph);
            let (st2, c0) = lower_expr(st1, b.0, ph);
            let (st3, cv) = capture(st2, c0, "ifcond"@);
            let (_, vv) = lower_expr(st3, b.1, ph);
            let keyword = if bs.len() == 0 {
                "if "@
            } else {
                "elseif "@
            };
            if_branches(st, bs.push(b), temp, ph).1 == prev + cv.setup + seq![
                keyword + cv.expr + " then"@,
            ] + indent_all(1, vv.setup) + seq![indented(1, temp + " = "@ + vv.expr)]
        }),
{
    let all = bs.push(b);
    assert(all.drop_last() =~= bs);
    assert(all.last() == b);
    reveal_strlit("if");
    reveal_strlit("elseif");
    reveal_strlit(" ");
    reveal_strlit("if ");
    reveal_strlit("elseif ");
    assert("if"@ + " "@ =~= "if "@);
    assert("elseif"@ + " "@ =~= "elseif "@);
    let (st1, prev) = if_branches(st, bs, temp, ph);
    let (st2, c0) = lower_expr(st1, b.0, ph);
    let (st3, cv) = capture(st2, c0, "ifcond"@);
    if bs.len() == 0 {
        assert("if"@ + " "@ + cv.expr + " then"@ =~= "if "@ + cv.expr + " then"@);
    } else {
        assert("elseif"@ + " "@ + cv.expr + " then"@ =~= "elseif "@ + cv.expr + " then"@);
    }
}

/// In a `switch` expression each case `case x then r` tests the switched
/// value for equality with `x`: after the lines of the cases before it come
/// the setup of `x`, the test `elseif sw == x then` (`if sw == x then` for
/// the first case), and, one level deeper, the setup of `r` and the
/// assignment of `r` to the result.
pub proof fn law_switch_case_tests_equality(
    st: EmitState,
    cs: Seq<SwitchExprCase>,
    c: SwitchExprCase,
    sw: Seq<char>,
    result: Seq<char>,
    ph: Option<Seq<char>>,
)
    ensures
        ({
            let (st1, prev) = switch_expr_cases(st, cs, sw, result, ph);
            let (st2, v) = lower_expr(st1, c.value, ph);
            let (_, r) = lower_expr(st2, c.result, ph);
            let keyword = if cs.len() == 0 {
                "if "@
            } else {
                "elseif "@
            };
            switch_expr_cases(st, cs.push(c), sw, result, ph).1 == prev + v.setup + seq![
                keyword + sw + " == "@ + parens_if(
                    v.expr,
                    operand_needs_parens(c.value, BinaryOp::Equal, true),
                ) + " then"@,
            ] + indent_all(1, r.setup) + seq![indented(1, result + " = "@ + r.expr)]
        }),
{
    let all = cs.push(c);
    assert(all.drop_last() =~= cs);
    assert(all.last() == c);
    reveal_strlit("if");
    reveal_strlit("elseif");
    reveal_strlit(" ");
    reveal_strlit("if ");
    reveal_strlit("elseif ");
    assert("if"@ + " "@ =~= "if "@);
    assert("elseif"@ + " "@ =~= "elseif "@);
    let (st1, prev) = switch_expr_cases(st, cs, sw, result, ph);
    let (st2, v) = lower_expr(st1, c.value, ph);
    let tail = " == "@ + parens_if(v.expr, operand_needs_parens(c.value, BinaryOp::Equal, true))
        + " then"@;
    if cs.len() == 0 {
        assert("if"@ + " "@ + sw + tail =~= "if "@ + sw + tail);
    } else {
        assert("elseif"@ + " "@ + sw + tail =~= "elseif "@ + sw + tail);
    }
}

} // verus!
