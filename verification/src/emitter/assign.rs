//! Lowering of assignments and `return`.

use vstd::prelude::*;

use crate::ast::{AssignTarget, Expr, Stmt};
use crate::emitter::expr::{assign_text, concat_text, wrap_if};
use crate::emitter::lowering::{
    assign_targets, const_check, const_checked, lower_assignment, lower_compound,
    lower_nullish_assignment, lower_return, lower_target, stmt_exprs, TargetView,
};
use crate::emitter::names::compound_token;
use crate::emitter::pattern::local_assign;
use crate::emitter::{deeper_level, indent, indented, push_setup, setup_block, Emitter};
use crate::text::{append_lines, join_strings, push_line, string_of, views};

verus! {

impl Emitter {
    /// Records an error when an assignment targets a constant.
    pub(crate) fn check_const_target(&mut self, target: &AssignTarget)
        ensures
            final(self).model() == const_check(old(self).model(), *target),
    {
        match target {
            AssignTarget::Name(n) => {
                if self.is_const_name(n) {
                    let mut msg = concat_text("cannot assign to const `", n.as_str());
                    msg.append("`");
                    self.push_error(msg);
                }
            },
            _ => {},
        }
    }

    /// Expressions lowered in order at `level`: their setup lines and
    /// values.
    pub(crate) fn emit_stmt_exprs(&mut self, values: &Vec<Expr>, level: usize) -> (r: (
        Vec<String>,
        Vec<String>,
    ))
        ensures
            final(self).model() == stmt_exprs(old(self).model(), values@, level).0,
            views(r.0@) == stmt_exprs(old(self).model(), values@, level).1,
            views(r.1@) == stmt_exprs(old(self).model(), values@, level).2,
        decreases values, 0nat,
    {
        let ghost s0 = self.model();
        let none: Option<String> = None;
        let mut out: Vec<String> = Vec::new();
        let mut exprs: Vec<String> = Vec::new();
        let mut i: usize = 0;
        while i < values.len()
            invariant
                i <= values@.len(),
                none == Option::<String>::None,
                decreases_to!(*values => values@),
                (self.model(), views(out@), views(exprs@)) == stmt_exprs(
                    s0,
                    values@.subrange(0, i as int),
                    level,
                ),
            decreases values.len() - i,
        {
            proof {
                assert(values@.subrange(0, i + 1).drop_last() =~= values@.subrange(0, i as int));
            }
            let l = self.emit_expr(&values[i], &none);
            push_setup(&mut out, level, l.setup);
            push_line(&mut exprs, l.expr);
            i = i + 1;
        }
        assert(values@.subrange(0, values@.len() as int) =~= values@);
        (out, exprs)
    }

    /// Lowers an assignment target; with `capture`, an object or index
    /// that needs setup is stored in a temporary.
    pub(crate) fn emit_assign_target(&mut self, target: &AssignTarget, capture: bool) -> (r: (
        Vec<String>,
        String,
    ))
        ensures
            (final(self).model(), TargetView { setup: views(r.0@), expr: r.1@ }) == lower_target(
                old(self).model(),
                *target,
                capture,
            ),
        decreases target, 2nat,
    {
        let none: Option<String> = None;
        match target {
            AssignTarget::Name(name) => {
                let setup: Vec<String> = Vec::new();
                assert(views(setup@) =~= seq![]);
                (setup, name.clone())
            },
            AssignTarget::Field { object, field } => {
                let lowered_object = self.emit_expr(object, &none);
                let o = self.capture_if_needed(lowered_object, "obj");
                let ghost ov = o@;
                if capture && o.setup.len() > 0 {
                    let temp = self.next_temp("obj");
                    let mut setup = o.setup;
                    push_line(&mut setup, local_assign(temp.as_str(), o.expr.as_str()));
                    let mut t = temp;
                    t.append(".");
                    t.append(field.as_str());
                    assert(views(setup@) =~= ov.setup.push("local "@ + temp@ + " = "@ + ov.expr));
                    (setup, t)
                } else {
                    let mut t = o.expr;
                    t.append(".");
                    t.append(field.as_str());
                    (o.setup, t)
                }
            },
            AssignTarget::Index { object, index } => {
                let lowered_object = self.emit_expr(object, &none);
                let o = self.capture_if_needed(lowered_object, "obj");
                let lowered_index = self.emit_expr(index, &none);
                let i = self.capture_if_needed(lowered_index, "idx");
                let ghost ov = o@;
                let ghost iv = i@;
                let mut setup = o.setup;
                append_lines(&mut setup, i.setup);
                let ghost both = views(setup@);
                assert(both == ov.setup + iv.setup);
                if capture && setup.len() > 0 {
                    let ot = self.next_temp("obj");
                    push_line(&mut setup, local_assign(ot.as_str(), o.expr.as_str()));
                    let it = self.next_temp("idx");
                    push_line(&mut setup, local_assign(it.as_str(), i.expr.as_str()));
                    let mut t = ot;
                    t.append("[");
                    t.append(it.as_str());
                    t.append("]");
                    assert(views(setup@) =~= both.push("local "@ + ot@ + " = "@ + ov.expr).push(
                        "local "@ + it@ + " = "@ + iv.expr,
                    ));
                    (setup, t)
                } else {
                    let mut t = o.expr;
                    t.append("[");
                    t.append(i.expr.as_str());
                    t.append("]");
                    (setup, t)
                }
            },
        }
    }

    /// The targets of an assignment, lowered in order at `level`.
    pub(crate) fn emit_assign_targets(&mut self, targets: &Vec<AssignTarget>, level: usize) -> (r: (
        Vec<String>,
        Vec<String>,
    ))
        ensures
            final(self).model() == assign_targets(old(self).model(), targets@, level).0,
            views(r.0@) == assign_targets(old(self).model(), targets@, level).1,
            views(r.1@) == assign_targets(old(self).model(), targets@, level).2,
        decreases targets, 0nat,
    {
        let ghost s0 = self.model();
        let mut out: Vec<String> = Vec::new();
        let mut exprs: Vec<String> = Vec::new();
        let mut i: usize = 0;
        while i < targets.len()
            invariant
                i <= targets@.len(),
                decreases_to!(*targets => targets@),
                (self.model(), views(out@), views(exprs@)) == assign_targets(
                    s0,
                    targets@.subrange(0, i as int),
                    level,
                ),
            decreases targets.len() - i,
        {
            proof {
                assert(targets@.subrange(0, i + 1).drop_last() =~= targets@.subrange(0, i as int));
            }
            let (setup, expr) = self.emit_assign_target(&targets[i], false);
            push_setup(&mut out, level, setup);
            push_line(&mut exprs, expr);
            i = i + 1;
        }
        assert(targets@.subrange(0, targets@.len() as int) =~= targets@);
        (out, exprs)
    }

    /// Records an error for each target that is a constant.
    pub(crate) fn check_const_targets(&mut self, targets: &Vec<AssignTarget>)
        ensures
            final(self).model() == const_checked(old(self).model(), targets@),
    {
        let ghost s0 = self.model();
        let mut i: usize = 0;
        while i < targets.len()
            invariant
                i <= targets@.len(),
                self.model() == const_checked(s0, targets@.subrange(0, i as int)),
            decreases targets.len() - i,
        {
            assert(targets@.subrange(0, i + 1).drop_last() =~= targets@.subrange(0, i as int));
            self.check_const_target(&targets[i]);
            i = i + 1;
        }
        assert(targets@.subrange(0, targets@.len() as int) =~= targets@);
    }

    /// Lowers a plain assignment.
    pub(crate) fn emit_assignment(&mut self, stmt: &Stmt, level: usize) -> (r: String)
        ensures
            (final(self).model(), r@) == lower_assignment(old(self).model(), *stmt, level),
        decreases stmt, 2nat,
    {
        match stmt {
            Stmt::Assignment(a) => {
                self.check_const_targets(&a.targets);
                let (out, targets) = self.emit_assign_targets(&a.targets, level);
                let (more, values) = self.emit_stmt_exprs(&a.values, level);
                let ghost outv = views(out@);
                let ghost morev = views(more@);
                let ghost tv = views(targets@);
                let ghost valv = views(values@);
                let vs = if values.len() == 0 {
                    let mut v: Vec<String> = Vec::new();
                    push_line(&mut v, string_of("nil"));
                    v
                } else {
                    values
                };
                assert(views(vs@) =~= if valv.len() == 0 {
                    seq!["nil"@]
                } else {
                    valv
                });
                let mut line = join_strings(&targets, ", ");
                line.append(" = ");
                line.append(join_strings(&vs, ", ").as_str());
                let ghost linev = line@;
                let mut parts = out;
                append_lines(&mut parts, more);
                push_line(&mut parts, indent(level, line.as_str()));
                assert(views(parts@) =~= outv + morev + seq![indented(level, linev)]);
                join_strings(&parts, "\n")
            },
            _ => String::new(),
        }
    }

    /// Lowers `target ??= value`.
    pub(crate) fn emit_nullish_assignment(&mut self, stmt: &Stmt, level: usize) -> (r: String)
        ensures
            (final(self).model(), r@) == lower_nullish_assignment(
                old(self).model(),
                *stmt,
                level,
            ),
        decreases stmt, 2nat,
    {
        match stmt {
            Stmt::NullishAssignment { target, value } => {
                let none: Option<String> = None;
                let inner = deeper_level(level, 1);
                self.check_const_target(target);
                let (tsetup, texpr) = self.emit_assign_target(target, true);
                let v = self.emit_expr(value, &none);
                let parts = nullish_lines(level, inner, tsetup, texpr.as_str(), v.setup, v.expr.as_str());
                join_strings(&parts, "\n")
            },
            _ => String::new(),
        }
    }

    /// Lowers a compound assignment such as `x += 1`.
    pub(crate) fn emit_compound_assignment(&mut self, stmt: &Stmt, level: usize) -> (r: String)
        ensures
            (final(self).model(), r@) == lower_compound(old(self).model(), *stmt, level),
        decreases stmt, 2nat,
    {
        match stmt {
            Stmt::CompoundAssignment { target, op, value } => {
                let none: Option<String> = None;
                self.check_const_target(target);
                let (tsetup, texpr) = self.emit_assign_target(target, true);
                let mut parts: Vec<String> = Vec::new();
                push_setup(&mut parts, level, tsetup);
                let ghost tsv = views(parts@);
                let v = self.emit_expr(value, &none);
                let ghost vv = v@;
                push_setup(&mut parts, level, v.setup);
                let mut line = assign_text(texpr.as_str(), texpr.as_str());
                line.append(" ");
                line.append(compound_token(*op));
                line.append(" ");
                let value_text = wrap_if(
                    v.expr,
                    match value {
                        Expr::Binary { .. } | Expr::Ternary { .. } => true,
                        _ => false,
                    },
                );
                line.append(value_text.as_str());
                let ghost linev = line@;
                push_line(&mut parts, indent(level, line.as_str()));
                assert(views(parts@) =~= tsv + setup_block(level, vv.setup) + seq![
                    indented(level, linev),
                ]);
                join_strings(&parts, "\n")
            },
            _ => String::new(),
        }
    }

    /// Lowers a `return` statement.
    pub(crate) fn emit_return(&mut self, stmt: &Stmt, level: usize) -> (r: String)
        ensures
            (final(self).model(), r@) == lower_return(old(self).model(), *stmt, level),
        decreases stmt, 2nat,
    {
        match stmt {
            Stmt::Return(values) => {
                let (out, exprs) = self.emit_stmt_exprs(values, level);
                let ghost outv = views(out@);
                let ghost ev = views(exprs@);
                let mut parts = out;
                if exprs.len() == 0 {
                    push_line(&mut parts, indent(level, "return"));
                } else {
                    let t = concat_text("return ", join_strings(&exprs, ", ").as_str());
                    push_line(&mut parts, indent(level, t.as_str()));
                }
                assert(views(parts@) =~= outv + seq![
                    if ev.len() == 0 {
                        indented(level, "return"@)
                    } else {
                        indented(level, "return "@ + crate::text::join(ev, ", "@))
                    },
                ]);
                join_strings(&parts, "\n")
            },
            _ => String::new(),
        }
    }

}

/// The lines of `target ??= value` once target and value are lowered.
fn nullish_lines(
    level: usize,
    inner: usize,
    tsetup: Vec<String>,
    texpr: &str,
    vsetup: Vec<String>,
    vexpr: &str,
) -> (r: Vec<String>)
    ensures
        views(r@) == setup_block(level, views(tsetup@)) + seq![
            indented(level, "if "@ + texpr@ + " == nil then"@),
        ] + setup_block(inner, views(vsetup@)) + seq![
            indented(inner, texpr@ + " = "@ + vexpr@),
            indented(level, "end"@),
        ],
{
    let ghost tsv = views(tsetup@);
    let ghost vsv = views(vsetup@);
    let mut parts: Vec<String> = Vec::new();
    push_setup(&mut parts, level, tsetup);
    push_line(&mut parts, indent(level, if_nil_then(texpr).as_str()));
    push_setup(&mut parts, inner, vsetup);
    push_line(&mut parts, indent(inner, assign_text(texpr, vexpr).as_str()));
    push_line(&mut parts, indent(level, "end"));
    assert(views(parts@) =~= setup_block(level, tsv) + seq![
        indented(level, "if "@ + texpr@ + " == nil then"@),
    ] + setup_block(inner, vsv) + seq![
        indented(inner, texpr@ + " = "@ + vexpr@),
        indented(level, "end"@),
    ]);
    parts
}

/// `if cond == nil then`.
fn if_nil_then(t: &str) -> (r: String)
    ensures
        r@ == "if "@ + t@ + " == nil then"@,
{
    let mut r = string_of("if ");
    r.append(t);
    r.append(" == nil then");
    r
}

} // verus!
