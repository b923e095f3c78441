//! Lowering of expressions, each function proved to produce what the spec
//! function of the same name in `lowering` describes.

use vstd::prelude::*;

use crate::ast::{BinaryOp, ChainSegment, Expr, PipeStage, TableField, UnaryOp};
use crate::emitter::lowering::{
    apply_stage, base_needs_parens, branch_keyword, chain_plain, closers, has_safe, if_branches,
    lower_args, operand_needs_parens, op_prec, parens_if, right_assoc, unary_operand_needs_parens,
    lower_binary, lower_chain, lower_expr, lower_if_expr, lower_nullish, lower_optional_chain,
    lower_pipe, lower_switch_expr, lower_table, lower_ternary, opt_segments, opt_view,
    pipe_inline, pipe_temps, seg_safe, short_circuit_setup, switch_expr_cases, table_fields,
};
use crate::emitter::names::{exprs_contain_placeholder, exprs_have_placeholder};
use crate::emitter::names::binary_token;
use crate::emitter::{
    deeper_level, indent, indent_all, indent_lines, indented, simple_expr, Emitter, LoweredExpr,
};
use crate::text::{append_lines, join_strings, push_line, string_of, views};

verus! {

/// `t` in parentheses when `b` holds.
pub fn wrap_if(t: String, b: bool) -> (r: String)
    ensures
        r@ == parens_if(t@, b),
{
    if b {
        let mut r = string_of("(");
        r.append(t.as_str());
        r.append(")");
        r
    } else {
        t
    }
}

/// How tightly `op` binds (see `op_prec`).
pub fn precedence(op: BinaryOp) -> (r: u8)
    ensures
        r as nat == op_prec(op),
{
    match op {
        BinaryOp::Nullish => 0,
        BinaryOp::Or => 1,
        BinaryOp::And => 2,
        BinaryOp::Less | BinaryOp::LessEqual | BinaryOp::Greater | BinaryOp::GreaterEqual
        | BinaryOp::Equal | BinaryOp::NotEqual => 3,
        BinaryOp::Concat => 4,
        BinaryOp::Add | BinaryOp::Subtract => 5,
        BinaryOp::Multiply | BinaryOp::Divide | BinaryOp::FloorDivide | BinaryOp::Modulo => 6,
        BinaryOp::Power => 8,
    }
}

/// Whether `child` needs parentheses as an operand of `op`.
pub fn operand_parens(child: &Expr, op: BinaryOp, on_right: bool) -> (b: bool)
    ensures
        b == operand_needs_parens(*child, op, on_right),
{
    match child {
        Expr::Binary { op: c, .. } => {
            let right_grouping = op == BinaryOp::Concat || op == BinaryOp::Power;
            let pc = precedence(*c);
            let po = precedence(op);
            *c == BinaryOp::Nullish || pc < po || (pc == po && on_right != right_grouping)
        },
        Expr::Ternary { .. } => true,
        Expr::Unary { .. } => op == BinaryOp::Power && !on_right,
        _ => false,
    }
}

/// Whether the operand of a unary operator needs parentheses.
pub fn unary_operand_parens(child: &Expr) -> (b: bool)
    ensures
        b == unary_operand_needs_parens(*child),
{
    match child {
        Expr::Binary { op: c, .. } => *c != BinaryOp::Power,
        Expr::Ternary { .. } => true,
        Expr::Unary { .. } => true,
        _ => false,
    }
}

/// Whether the base of a call chain needs parentheses.
pub fn base_parens(base: &Expr) -> (b: bool)
    ensures
        b == base_needs_parens(*base),
{
    match base {
        Expr::Binary { .. } | Expr::Ternary { .. } | Expr::Unary { .. } => true,
        _ => false,
    }
}

/// `left op right`, each operand in parentheses where its grouping needs.
fn binary_text(l: String, left: &Expr, op: BinaryOp, r: String, right: &Expr) -> (t: String)
    ensures
        t@ == parens_if(l@, operand_needs_parens(*left, op, false)) + " "@ + crate::emitter::names::binary_token_of(op)
            + " "@ + parens_if(r@, operand_needs_parens(*right, op, true)),
{
    let mut t = wrap_if(l, operand_parens(left, op, false));
    t.append(" ");
    t.append(binary_token(op));
    t.append(" ");
    let rr = wrap_if(r, operand_parens(right, op, true));
    t.append(rr.as_str());
    t
}

impl Emitter {
    /// Lowers an expression; inside a pipe stage `ph` is the text that the
    /// placeholder `_` stands for.
    pub(crate) fn emit_expr(&mut self, expr: &Expr, ph: &Option<String>) -> (r: LoweredExpr)
        ensures
            (final(self).model(), r@) == lower_expr(old(self).model(), *expr, opt_view(*ph)),
        decreases expr, 3nat,
    {
        match expr {
            Expr::Nil => simple_expr(string_of("nil"), true),
            Expr::Bool(b) => if *b {
                simple_expr(string_of("true"), true)
            } else {
                simple_expr(string_of("false"), true)
            },
            Expr::Number(v) => simple_expr(v.clone(), true),
            Expr::String(v) => simple_expr(v.clone(), true),
            Expr::VarArg => simple_expr(string_of("..."), true),
            Expr::Name(n) => match ph {
                Some(p) => {
                    let under = string_of("_");
                    proof {
                        reveal_strlit("_");
                        assert(under@ =~= seq!['_']);
                    }
                    if *n == under {
                        simple_expr(p.clone(), true)
                    } else {
                        simple_expr(n.clone(), true)
                    }
                },
                None => simple_expr(n.clone(), true),
            },
            Expr::Paren(inner) => {
                let l = self.emit_expr(inner, ph);
                let mut t = string_of("(");
                t.append(l.expr.as_str());
                t.append(")");
                LoweredExpr { setup: l.setup, expr: t, reuse_safe: l.reuse_safe }
            },
            Expr::Unary { op, expr: operand } => {
                let l = self.emit_expr(operand, ph);
                let token = match op {
                    UnaryOp::Negate => "-",
                    UnaryOp::Not => "not ",
                    UnaryOp::Length => "#",
                };
                let mut t = string_of(token);
                let inner = wrap_if(l.expr, unary_operand_parens(operand));
                t.append(inner.as_str());
                LoweredExpr { setup: l.setup, expr: t, reuse_safe: false }
            },
            Expr::TypeAssertion { expr: operand, annotation } => {
                let l = self.emit_expr(operand, ph);
                let mut t = string_of("(");
                t.append(l.expr.as_str());
                t.append(" :: ");
                t.append(annotation.as_str());
                t.append(")");
                LoweredExpr { setup: l.setup, expr: t, reuse_safe: false }
            },
            Expr::Binary { .. } => self.emit_binary_expr(expr, ph),
            Expr::Ternary { .. } => self.emit_ternary_expr(expr, ph),
            Expr::IfElse { .. } => self.emit_if_expr(expr, ph),
            Expr::SwitchExpr { .. } => self.emit_switch_expr(expr, ph),
            Expr::Table(..) => self.emit_table_expr(expr, ph),
            Expr::Chain { .. } => self.emit_chain_expr(expr, ph),
            Expr::Pipe { .. } => self.emit_pipe_expr(expr, ph),
            Expr::DoExpr { .. } => self.emit_do_expr(expr, ph),
            Expr::Function(..) => self.emit_function_expr(expr),
            Expr::Comprehension(..) => self.emit_comprehension_expr(expr, ph),
        }
    }

    /// Lowers a binary operation; `and` and `or` keep their right side lazy.
    fn emit_binary_expr(&mut self, expr: &Expr, ph: &Option<String>) -> (r: LoweredExpr)
        ensures
            (final(self).model(), r@) == lower_binary(old(self).model(), *expr, opt_view(*ph)),
        decreases expr, 2nat,
    {
        match expr {
            Expr::Binary { left, op, right } => {
                if *op == BinaryOp::Nullish {
                    return self.emit_nullish_expr(expr, ph);
                }
                if *op == BinaryOp::And || *op == BinaryOp::Or {
                    let lowered_left = self.emit_expr(left, ph);
                    let l = self.capture_if_needed(lowered_left, "lhs");
                    let r = self.emit_expr(right, ph);
                    if r.setup.len() == 0 {
                        let t = binary_text(l.expr, left, *op, r.expr, right);
                        return LoweredExpr { setup: l.setup, expr: t, reuse_safe: false };
                    }
                    let is_and = *op == BinaryOp::And;
                    let temp = if is_and {
                        self.next_temp("and")
                    } else {
                        self.next_temp("or")
                    };
                    let ghost lv = l@;
                    let ghost rv = r@;
                    let mut setup = l.setup;
                    push_line(&mut setup, concat_text("local ", temp.as_str()));
                    push_line(&mut setup, if_then(l.expr.as_str()));
                    let set_right = indent(1, assign_text(temp.as_str(), r.expr.as_str()).as_str());
                    let set_left = indent(1, assign_text(temp.as_str(), l.expr.as_str()).as_str());
                    if is_and {
                        append_lines(&mut setup, indent_lines(1, r.setup));
                        push_line(&mut setup, set_right);
                        push_line(&mut setup, string_of("else"));
                        push_line(&mut setup, set_left);
                    } else {
                        push_line(&mut setup, set_left);
                        push_line(&mut setup, string_of("else"));
                        append_lines(&mut setup, indent_lines(1, r.setup));
                        push_line(&mut setup, set_right);
                    }
                    push_line(&mut setup, string_of("end"));
                    assert(views(setup@) =~= short_circuit_setup(is_and, lv, rv, temp@));
                    return LoweredExpr { setup, expr: temp, reuse_safe: false };
                }
                let l = self.emit_expr(left, ph);
                let r = self.emit_expr(right, ph);
                let mut setup = l.setup;
                append_lines(&mut setup, r.setup);
                let t = binary_text(l.expr, left, *op, r.expr, right);
                LoweredExpr { setup, expr: t, reuse_safe: false }
            },
            _ => simple_expr(String::new(), false),
        }
    }

    /// Lowers `left ?? right`.
    fn emit_nullish_expr(&mut self, expr: &Expr, ph: &Option<String>) -> (r: LoweredExpr)
        ensures
            (final(self).model(), r@) == lower_nullish(old(self).model(), *expr, opt_view(*ph)),
        decreases expr, 1nat,
    {
        match expr {
            Expr::Binary { left, right, .. } => {
                let lowered_left = self.emit_expr(left, ph);
                let l = self.capture_if_needed(lowered_left, "lhs");
                let r = self.emit_expr(right, ph);
                if r.setup.len() == 0 {
                    let mut t = string_of("if ");
                    t.append(l.expr.as_str());
                    t.append(" ~= nil then ");
                    t.append(l.expr.as_str());
                    t.append(" else ");
                    t.append(r.expr.as_str());
                    return LoweredExpr { setup: l.setup, expr: t, reuse_safe: false };
                }
                let temp = self.next_temp("nullish");
                let ghost lv = l@;
                let ghost rv = r@;
                let mut setup = l.setup;
                push_line(&mut setup, concat_text("local ", temp.as_str()));
                let mut test = string_of("if ");
                test.append(l.expr.as_str());
                test.append(" ~= nil then");
                push_line(&mut setup, test);
                push_line(&mut setup, indent(1, assign_text(temp.as_str(), l.expr.as_str()).as_str()));
                push_line(&mut setup, string_of("else"));
                append_lines(&mut setup, indent_lines(1, r.setup));
                push_line(&mut setup, indent(1, assign_text(temp.as_str(), r.expr.as_str()).as_str()));
                push_line(&mut setup, string_of("end"));
                assert(views(setup@) =~= lv.setup + seq![
                    "local "@ + temp@,
                    "if "@ + lv.expr + " ~= nil then"@,
                    crate::emitter::indented(1, temp@ + " = "@ + lv.expr),
                    "else"@,
                ] + crate::emitter::indent_all(1, rv.setup) + seq![
                    crate::emitter::indented(1, temp@ + " = "@ + rv.expr),
                    "end"@,
                ]);
                LoweredExpr { setup, expr: temp, reuse_safe: false }
            },
            _ => simple_expr(String::new(), false),
        }
    }

    /// Lowers `cond ? a : b`.
    fn emit_ternary_expr(&mut self, expr: &Expr, ph: &Option<String>) -> (r: LoweredExpr)
        ensures
            (final(self).model(), r@) == lower_ternary(old(self).model(), *expr, opt_view(*ph)),
        decreases expr, 2nat,
    {
        match expr {
            Expr::Ternary { condition, then_expr, else_expr } => {
                let lowered_condition = self.emit_expr(condition, ph);
                let c = self.capture_if_needed(lowered_condition, "cond");
                let t = self.emit_expr(then_expr, ph);
                let f = self.emit_expr(else_expr, ph);
                if t.setup.len() == 0 && f.setup.len() == 0 {
                    let mut text = string_of("if ");
                    text.append(c.expr.as_str());
                    text.append(" then ");
                    text.append(t.expr.as_str());
                    text.append(" else ");
                    text.append(f.expr.as_str());
                    return LoweredExpr { setup: c.setup, expr: text, reuse_safe: false };
                }
                let temp = self.next_temp("ternary");
                let ghost cv = c@;
                let ghost tv = t@;
                let ghost fv = f@;
                let mut setup = c.setup;
                push_line(&mut setup, concat_text("local ", temp.as_str()));
                push_line(&mut setup, if_then(c.expr.as_str()));
                append_lines(&mut setup, indent_lines(1, t.setup));
                push_line(&mut setup, indent(1, assign_text(temp.as_str(), t.expr.as_str()).as_str()));
                push_line(&mut setup, string_of("else"));
                append_lines(&mut setup, indent_lines(1, f.setup));
                push_line(&mut setup, indent(1, assign_text(temp.as_str(), f.expr.as_str()).as_str()));
                push_line(&mut setup, string_of("end"));
                assert(views(setup@) =~= cv.setup + seq!["local "@ + temp@, "if "@ + cv.expr + " then"@]
                    + crate::emitter::indent_all(1, tv.setup) + seq![
                    crate::emitter::indented(1, temp@ + " = "@ + tv.expr),
                    "else"@,
                ] + crate::emitter::indent_all(1, fv.setup) + seq![
                    crate::emitter::indented(1, temp@ + " = "@ + fv.expr),
                    "end"@,
                ]);
                LoweredExpr { setup, expr: temp, reuse_safe: false }
            },
            _ => simple_expr(String::new(), false),
        }
    }

    /// Lowers an `if` expression into a temporary assigned in each branch.
    fn emit_if_expr(&mut self, expr: &Expr, ph: &Option<String>) -> (r: LoweredExpr)
        ensures
            (final(self).model(), r@) == lower_if_expr(old(self).model(), *expr, opt_view(*ph)),
        decreases expr, 2nat,
    {
        match expr {
            Expr::IfElse { branches, else_expr } => {
                let ghost p = opt_view(*ph);
                let temp = self.next_temp("ifexpr");
                let ghost s1 = self.model();
                let mut bl: Vec<String> = Vec::new();
                let mut i: usize = 0;
                while i < branches.len()
                    invariant
                        i <= branches@.len(),
                        p == opt_view(*ph),
                        decreases_to!(*expr => branches@),
                        (self.model(), views(bl@)) == if_branches(
                            s1,
                            branches@.subrange(0, i as int),
                            temp@,
                            p,
                        ),
                    decreases branches.len() - i,
                {
                    proof {
                        assert(branches@.subrange(0, i + 1).drop_last() =~= branches@.subrange(
                            0,
                            i as int,
                        ));
                    }
                    let b = &branches[i];
                    let c0 = self.emit_expr(&b.0, ph);
                    let c = self.capture_if_needed(c0, "ifcond");
                    let v = self.emit_expr(&b.1, ph);
                    let ghost cv = c@;
                    let ghost vv = v@;
                    let ghost prev = views(bl@);
                    append_lines(&mut bl, c.setup);
                    let mut head = if i == 0 {
                        string_of("if")
                    } else {
                        string_of("elseif")
                    };
                    head.append(" ");
                    head.append(c.expr.as_str());
                    head.append(" then");
                    push_line(&mut bl, head);
                    append_lines(&mut bl, indent_lines(1, v.setup));
                    push_line(&mut bl, indent(1, assign_text(temp.as_str(), v.expr.as_str()).as_str()));
                    assert(views(bl@) =~= prev + cv.setup + seq![
                        branch_keyword(i as int) + " "@ + cv.expr + " then"@,
                    ] + indent_all(1, vv.setup) + seq![indented(1, temp@ + " = "@ + vv.expr)]);
                    i = i + 1;
                }
                assert(branches@.subrange(0, branches@.len() as int) =~= branches@);
                let ghost blv = views(bl@);
                let el = self.emit_expr(else_expr, ph);
                let ghost elv = el@;
                let mut setup: Vec<String> = Vec::new();
                push_line(&mut setup, concat_text("local ", temp.as_str()));
                append_lines(&mut setup, bl);
                push_line(&mut setup, string_of("else"));
                append_lines(&mut setup, indent_lines(1, el.setup));
                push_line(&mut setup, indent(1, assign_text(temp.as_str(), el.expr.as_str()).as_str()));
                push_line(&mut setup, string_of("end"));
                assert(views(setup@) =~= seq!["local "@ + temp@] + blv + seq!["else"@] + indent_all(
                    1,
                    elv.setup,
                ) + seq![indented(1, temp@ + " = "@ + elv.expr), "end"@]);
                LoweredExpr { setup, expr: temp, reuse_safe: false }
            },
            _ => simple_expr(String::new(), false),
        }
    }

    /// Lowers a `switch` expression into a temporary assigned in each case.
    fn emit_switch_expr(&mut self, expr: &Expr, ph: &Option<String>) -> (r: LoweredExpr)
        ensures
            (final(self).model(), r@) == lower_switch_expr(old(self).model(), *expr, opt_view(*ph)),
        decreases expr, 2nat,
    {
        match expr {
            Expr::SwitchExpr { value, cases, default } => {
                let ghost p = opt_view(*ph);
                let v = self.emit_expr(value, ph);
                let result = self.next_temp("swexpr");
                let sw = self.next_temp("sw");
                let ghost s3 = self.model();
                let mut cl: Vec<String> = Vec::new();
                let mut i: usize = 0;
                while i < cases.len()
                    invariant
                        i <= cases@.len(),
                        p == opt_view(*ph),
                        decreases_to!(*expr => cases@),
                        (self.model(), views(cl@)) == switch_expr_cases(
                            s3,
                            cases@.subrange(0, i as int),
                            sw@,
                            result@,
                            p,
                        ),
                    decreases cases.len() - i,
                {
                    proof {
                        assert(cases@.subrange(0, i + 1).drop_last() =~= cases@.subrange(0, i as int));
                    }
                    let c = &cases[i];
                    let cv = self.emit_expr(&c.value, ph);
                    let rv = self.emit_expr(&c.result, ph);
                    let ghost cvv = cv@;
                    let ghost rvv = rv@;
                    let ghost prev = views(cl@);
                    append_lines(&mut cl, cv.setup);
                    let mut head = if i == 0 {
                        string_of("if")
                    } else {
                        string_of("elseif")
                    };
                    head.append(" ");
                    head.append(sw.as_str());
                    head.append(" == ");
                    let value_text = wrap_if(cv.expr, operand_parens(&c.value, BinaryOp::Equal, true));
                    head.append(value_text.as_str());
                    head.append(" then");
                    push_line(&mut cl, head);
                    append_lines(&mut cl, indent_lines(1, rv.setup));
                    push_line(&mut cl, indent(1, assign_text(result.as_str(), rv.expr.as_str()).as_str()));
                    assert(views(cl@) =~= prev + cvv.setup + seq![
                        branch_keyword(i as int) + " "@ + sw@ + " == "@ + parens_if(
                            cvv.expr,
                            operand_needs_parens(c.value, BinaryOp::Equal, true),
                        ) + " then"@,
                    ] + indent_all(1, rvv.setup) + seq![indented(1, result@ + " = "@ + rvv.expr)]);
                    i = i + 1;
                }
                assert(cases@.subrange(0, cases@.len() as int) =~= cases@);
                let ghost clv = views(cl@);
                let ghost vv = v@;
                let d = self.emit_expr(default, ph);
                let ghost dv = d@;
                let mut setup = v.setup;
                let mut first = string_of("local ");
                first.append(sw.as_str());
                first.append(" = ");
                first.append(v.expr.as_str());
                push_line(&mut setup, first);
                push_line(&mut setup, concat_text("local ", result.as_str()));
                append_lines(&mut setup, cl);
                push_line(&mut setup, string_of("else"));
                append_lines(&mut setup, indent_lines(1, d.setup));
                push_line(&mut setup, indent(1, assign_text(result.as_str(), d.expr.as_str()).as_str()));
                push_line(&mut setup, string_of("end"));
                assert(views(setup@) =~= vv.setup + seq![
                    "local "@ + sw@ + " = "@ + vv.expr,
                    "local "@ + result@,
                ] + clv + seq!["else"@] + indent_all(1, dv.setup) + seq![
                    indented(1, result@ + " = "@ + dv.expr),
                    "end"@,
                ]);
                LoweredExpr { setup, expr: result, reuse_safe: false }
            },
            _ => simple_expr(String::new(), false),
        }
    }

    /// Lowers a table constructor.
    fn emit_table_expr(&mut self, expr: &Expr, ph: &Option<String>) -> (r: LoweredExpr)
        ensures
            (final(self).model(), r@) == lower_table(old(self).model(), *expr, opt_view(*ph)),
        decreases expr, 2nat,
    {
        match expr {
            Expr::Table(fields) => {
                let ghost p = opt_view(*ph);
                let ghost s0 = self.model();
                let mut setup: Vec<String> = Vec::new();
                let mut rendered: Vec<String> = Vec::new();
                let mut i: usize = 0;
                while i < fields.len()
                    invariant
                        i <= fields@.len(),
                        p == opt_view(*ph),
                        decreases_to!(*expr => fields@),
                        (self.model(), views(setup@), views(rendered@)) == table_fields(
                            s0,
                            fields@.subrange(0, i as int),
                            p,
                        ),
                    decreases fields.len() - i,
                {
                    proof {
                        assert(fields@.subrange(0, i + 1).drop_last() =~= fields@.subrange(
                            0,
                            i as int,
                        ));
                    }
                    match &fields[i] {
                        TableField::Named(name, value) => {
                            let l = self.emit_expr(value, ph);
                            append_lines(&mut setup, l.setup);
                            push_line(&mut rendered, assign_text(name.as_str(), l.expr.as_str()));
                        },
                        TableField::Indexed(key, value) => {
                            let k = self.emit_expr(key, ph);
                            let v = self.emit_expr(value, ph);
                            append_lines(&mut setup, k.setup);
                            append_lines(&mut setup, v.setup);
                            let mut t = string_of("[");
                            t.append(k.expr.as_str());
                            t.append("] = ");
                            t.append(v.expr.as_str());
                            push_line(&mut rendered, t);
                        },
                        TableField::Value(value) => {
                            let l = self.emit_expr(value, ph);
                            append_lines(&mut setup, l.setup);
                            push_line(&mut rendered, l.expr);
                        },
                    }
                    i = i + 1;
                }
                assert(fields@.subrange(0, fields@.len() as int) =~= fields@);
                let mut t = string_of("{");
                t.append(join_strings(&rendered, ", ").as_str());
                t.append("}");
                LoweredExpr { setup, expr: t, reuse_safe: false }
            },
            _ => simple_expr(String::new(), false),
        }
    }

    /// Lowers call arguments: their setup lines and values.
    pub(crate) fn emit_args(&mut self, args: &Vec<Expr>, ph: &Option<String>) -> (r: (
        Vec<String>,
        Vec<String>,
    ))
        ensures
            final(self).model() == lower_args(old(self).model(), args@, opt_view(*ph)).0,
            views(r.0@) == lower_args(old(self).model(), args@, opt_view(*ph)).1,
            views(r.1@) == lower_args(old(self).model(), args@, opt_view(*ph)).2,
        decreases args, 0nat,
    {
        let ghost p = opt_view(*ph);
        let ghost s0 = self.model();
        let mut setup: Vec<String> = Vec::new();
        let mut values: Vec<String> = Vec::new();
        let mut i: usize = 0;
        while i < args.len()
            invariant
                i <= args@.len(),
                p == opt_view(*ph),
                decreases_to!(*args => args@),
                (self.model(), views(setup@), views(values@)) == lower_args(
                    s0,
                    args@.subrange(0, i as int),
                    p,
                ),
            decreases args.len() - i,
        {
            proof {
                assert(args@.subrange(0, i + 1).drop_last() =~= args@.subrange(0, i as int));
            }
            let l = self.emit_expr(&args[i], ph);
            append_lines(&mut setup, l.setup);
            push_line(&mut values, l.expr);
            i = i + 1;
        }
        assert(args@.subrange(0, args@.len() as int) =~= args@);
        (setup, values)
    }

    /// Lowers a call chain; one with a safe access becomes an optional chain.
    fn emit_chain_expr(&mut self, expr: &Expr, ph: &Option<String>) -> (r: LoweredExpr)
        ensures
            (final(self).model(), r@) == lower_chain(old(self).model(), *expr, opt_view(*ph)),
        decreases expr, 2nat,
    {
        match expr {
            Expr::Chain { base, segments } => {
                if has_safe_segment(segments) {
                    return self.emit_optional_chain_expr(expr, ph);
                }
                let ghost p = opt_view(*ph);
                let b = self.emit_expr(base, ph);
                let ghost s1 = self.model();
                let mut setup: Vec<String> = Vec::new();
                let mut tail = String::new();
                let mut i: usize = 0;
                while i < segments.len()
                    invariant
                        i <= segments@.len(),
                        p == opt_view(*ph),
                        decreases_to!(*expr => segments@),
                        (self.model(), views(setup@), tail@) == chain_plain(
                            s1,
                            segments@.subrange(0, i as int),
                            p,
                        ),
                    decreases segments.len() - i,
                {
                    proof {
                        assert(segments@.subrange(0, i + 1).drop_last() =~= segments@.subrange(
                            0,
                            i as int,
                        ));
                    }
                    match &segments[i] {
                        ChainSegment::Field { name, .. } => {
                            tail.append(".");
                            tail.append(name.as_str());
                        },
                        ChainSegment::Index { expr: index, .. } => {
                            let l = self.emit_expr(index, ph);
                            append_lines(&mut setup, l.setup);
                            tail.append("[");
                            tail.append(l.expr.as_str());
                            tail.append("]");
                        },
                        ChainSegment::Call { args } => {
                            let (su, values) = self.emit_args(args, ph);
                            append_lines(&mut setup, su);
                            tail.append("(");
                            tail.append(join_strings(&values, ", ").as_str());
                            tail.append(")");
                        },
                        ChainSegment::MethodCall { name, args, .. } => {
                            let (su, values) = self.emit_args(args, ph);
                            append_lines(&mut setup, su);
                            tail.append(":");
                            tail.append(name.as_str());
                            tail.append("(");
                            tail.append(join_strings(&values, ", ").as_str());
                            tail.append(")");
                        },
                    }
                    i = i + 1;
                }
                assert(segments@.subrange(0, segments@.len() as int) =~= segments@);
                let mut all = b.setup;
                append_lines(&mut all, setup);
                let mut text = wrap_if(b.expr, base_parens(base));
                text.append(tail.as_str());
                LoweredExpr { setup: all, expr: text, reuse_safe: false }
            },
            _ => simple_expr(String::new(), false),
        }
    }

    /// Lowers a call chain with safe accesses: a temporary walked down the
    /// chain inside nested `if cur ~= nil` blocks.
    fn emit_optional_chain_expr(&mut self, expr: &Expr, ph: &Option<String>) -> (r: LoweredExpr)
        ensures
            (final(self).model(), r@) == lower_optional_chain(
                old(self).model(),
                *expr,
                opt_view(*ph),
            ),
        decreases expr, 1nat,
    {
        match expr {
            Expr::Chain { base, segments } => {
                let ghost p = opt_view(*ph);
                let b0 = self.emit_expr(base, ph);
                let b = self.capture_if_needed(b0, "opt");
                let result = self.next_temp("opt");
                let cur = self.next_temp("cur");
                let ghost s4 = self.model();
                let mut body: Vec<String> = Vec::new();
                let mut n: usize = 1;
                let mut i: usize = 0;
                while i < segments.len()
                    invariant
                        i <= segments@.len(),
                        p == opt_view(*ph),
                        decreases_to!(*expr => segments@),
                        (self.model(), views(body@), n) == opt_segments(
                            s4,
                            segments@.subrange(0, i as int),
                            cur@,
                            p,
                        ),
                    decreases segments.len() - i,
                {
                    proof {
                        assert(segments@.subrange(0, i + 1).drop_last() =~= segments@.subrange(
                            0,
                            i as int,
                        ));
                    }
                    let s = &segments[i];
                    let ghost prev = views(body@);
                    let ghost n0 = n;
                    let safe = segment_is_safe(s);
                    if safe {
                        push_line(&mut body, indent(n, if_not_nil(cur.as_str()).as_str()));
                        n = deeper_level(n, 1);
                    }
                    let ghost opened = views(body@);
                    assert(opened == prev + if seg_safe(*s) {
                        seq![indented(n0, "if "@ + cur@ + " ~= nil then"@)]
                    } else {
                        seq![]
                    });
                    let mut step = assign_text(cur.as_str(), cur.as_str());
                    match s {
                        ChainSegment::Field { name, .. } => {
                            step.append(".");
                            step.append(name.as_str());
                        },
                        ChainSegment::Index { expr: index, .. } => {
                            let l = self.emit_expr(index, ph);
                            append_lines(&mut body, indent_lines(n, l.setup));
                            step.append("[");
                            step.append(l.expr.as_str());
                            step.append("]");
                        },
                        ChainSegment::Call { args } => {
                            let (su, values) = self.emit_args(args, ph);
                            append_lines(&mut body, indent_lines(n, su));
                            step.append("(");
                            step.append(join_strings(&values, ", ").as_str());
                            step.append(")");
                        },
                        ChainSegment::MethodCall { name, args, .. } => {
                            let (su, values) = self.emit_args(args, ph);
                            append_lines(&mut body, indent_lines(n, su));
                            step.append(":");
                            step.append(name.as_str());
                            step.append("(");
                            step.append(join_strings(&values, ", ").as_str());
                            step.append(")");
                        },
                    }
                    push_line(&mut body, indent(n, step.as_str()));
                    i = i + 1;
                }
                assert(segments@.subrange(0, segments@.len() as int) =~= segments@);
                let ghost bodyv = views(body@);
                let ghost bv = b@;
                let mut setup = b.setup;
                let mut head = string_of("local ");
                head.append(result.as_str());
                head.append(" = nil");
                push_line(&mut setup, head);
                push_line(&mut setup, string_of("do"));
                let mut init = string_of("local ");
                init.append(cur.as_str());
                init.append(" = ");
                init.append(b.expr.as_str());
                push_line(&mut setup, indent(1, init.as_str()));
                append_lines(&mut setup, body);
                push_line(&mut setup, indent(n, assign_text(result.as_str(), cur.as_str()).as_str()));
                append_lines(&mut setup, closing_lines(n));
                push_line(&mut setup, string_of("end"));
                assert(views(setup@) =~= bv.setup + seq![
                    "local "@ + result@ + " = nil"@,
                    "do"@,
                    indented(1, "local "@ + cur@ + " = "@ + bv.expr),
                ] + bodyv + seq![indented(n, result@ + " = "@ + cur@)] + closers(n) + seq!["end"@]);
                LoweredExpr { setup, expr: result, reuse_safe: false }
            },
            _ => simple_expr(String::new(), false),
        }
    }

    /// Lowers a pipe: up to three stages inline, longer pipes through
    /// temporaries.
    fn emit_pipe_expr(&mut self, expr: &Expr, ph: &Option<String>) -> (r: LoweredExpr)
        ensures
            (final(self).model(), r@) == lower_pipe(old(self).model(), *expr, opt_view(*ph)),
        decreases expr, 2nat,
    {
        match expr {
            Expr::Pipe { left, stages } => {
                let ghost p = opt_view(*ph);
                let cur = self.emit_expr(left, ph);
                if stages.len() <= 3 {
                    let ghost s1 = self.model();
                    let ghost input = cur@;
                    let mut current = cur;
                    let mut i: usize = 0;
                    while i < stages.len()
                        invariant
                            i <= stages@.len(),
                            p == opt_view(*ph),
                            decreases_to!(*expr => stages@),
                            (self.model(), current@) == pipe_inline(
                                s1,
                                stages@.subrange(0, i as int),
                                input,
                                p,
                            ),
                        decreases stages.len() - i,
                    {
                        proof {
                            assert(stages@.subrange(0, i + 1).drop_last() =~= stages@.subrange(
                                0,
                                i as int,
                            ));
                        }
                        current = self.apply_pipe_stage(current, &stages[i], ph);
                        i = i + 1;
                    }
                    assert(stages@.subrange(0, stages@.len() as int) =~= stages@);
                    return current;
                }
                let c = self.capture_if_needed(cur, "p");
                let first = self.next_temp("p");
                let ghost s3 = self.model();
                let ghost cv = c@;
                let mut more: Vec<String> = Vec::new();
                let mut prev = first.clone();
                let mut i: usize = 0;
                while i < stages.len()
                    invariant
                        i <= stages@.len(),
                        p == opt_view(*ph),
                        decreases_to!(*expr => stages@),
                        (self.model(), views(more@), prev@) == pipe_temps(
                            s3,
                            stages@.subrange(0, i as int),
                            first@,
                            p,
                        ),
                    decreases stages.len() - i,
                {
                    proof {
                        assert(stages@.subrange(0, i + 1).drop_last() =~= stages@.subrange(
                            0,
                            i as int,
                        ));
                    }
                    let applied = self.apply_pipe_stage(simple_expr(prev, true), &stages[i], ph);
                    append_lines(&mut more, applied.setup);
                    let next = self.next_temp("p");
                    let mut line = string_of("local ");
                    line.append(next.as_str());
                    line.append(" = ");
                    line.append(applied.expr.as_str());
                    push_line(&mut more, line);
                    prev = next;
                    i = i + 1;
                }
                assert(stages@.subrange(0, stages@.len() as int) =~= stages@);
                let ghost morev = views(more@);
                let mut setup = c.setup;
                let mut line = string_of("local ");
                line.append(first.as_str());
                line.append(" = ");
                line.append(c.expr.as_str());
                push_line(&mut setup, line);
                append_lines(&mut setup, more);
                assert(views(setup@) =~= cv.setup + seq!["local "@ + first@ + " = "@ + cv.expr]
                    + morev);
                LoweredExpr { setup, expr: prev, reuse_safe: false }
            },
            _ => simple_expr(String::new(), false),
        }
    }

    /// Applies one pipe stage to `input`.
    fn apply_pipe_stage(&mut self, input: LoweredExpr, stage: &PipeStage, ph: &Option<String>) -> (r:
        LoweredExpr)
        ensures
            (final(self).model(), r@) == apply_stage(
                old(self).model(),
                input@,
                *stage,
                opt_view(*ph),
            ),
        decreases stage, 1nat,
    {
        let inp = self.capture_if_needed(input, "pipe");
        match stage {
            PipeStage::Method { name, args } => {
                let (su, values) = self.emit_args(args, ph);
                let mut setup = inp.setup;
                append_lines(&mut setup, su);
                let mut t = inp.expr;
                t.append(":");
                t.append(name.as_str());
                t.append("(");
                t.append(join_strings(&values, ", ").as_str());
                t.append(")");
                LoweredExpr { setup, expr: t, reuse_safe: false }
            },
            PipeStage::Expr { callee } => {
                let c = self.emit_expr(callee, ph);
                let mut setup = inp.setup;
                append_lines(&mut setup, c.setup);
                let mut t = c.expr;
                t.append("(");
                t.append(inp.expr.as_str());
                t.append(")");
                LoweredExpr { setup, expr: t, reuse_safe: false }
            },
            PipeStage::Call { callee, args } => {
                let c = self.emit_expr(callee, ph);
                let mut setup = inp.setup;
                append_lines(&mut setup, c.setup);
                let mut values: Vec<String> = Vec::new();
                if !exprs_contain_placeholder(args) {
                    push_line(&mut values, inp.expr.clone());
                }
                let ghost firstv = views(values@);
                assert(firstv =~= if exprs_have_placeholder(args@) {
                    seq![]
                } else {
                    seq![inp.expr@]
                });
                let sub = Some(inp.expr.clone());
                assert(opt_view(sub) == Some(inp.expr@));
                let (su, vals) = self.emit_args(args, &sub);
                append_lines(&mut setup, su);
                append_lines(&mut values, vals);
                assert(views(values@) =~= firstv + views(vals@));
                let mut t = c.expr;
                t.append("(");
                t.append(join_strings(&values, ", ").as_str());
                t.append(")");
                LoweredExpr { setup, expr: t, reuse_safe: false }
            },
        }
    }
}

/// `a` followed by `b`.
pub fn concat_text(a: &str, b: &str) -> (r: String)
    ensures
        r@ == a@ + b@,
{
    let mut r = string_of(a);
    r.append(b);
    r
}

/// `name = value`.
pub fn assign_text(name: &str, value: &str) -> (r: String)
    ensures
        r@ == name@ + " = "@ + value@,
{
    let mut r = string_of(name);
    r.append(" = ");
    r.append(value);
    r
}

/// `if cond then`.
pub fn if_then(cond: &str) -> (r: String)
    ensures
        r@ == "if "@ + cond@ + " then"@,
{
    let mut r = string_of("if ");
    r.append(cond);
    r.append(" then");
    r
}

/// `if cur ~= nil then`.
pub fn if_not_nil(cur: &str) -> (r: String)
    ensures
        r@ == "if "@ + cur@ + " ~= nil then"@,
{
    let mut r = string_of("if ");
    r.append(cur);
    r.append(" ~= nil then");
    r
}

/// Whether a chain segment is a safe access.
pub fn segment_is_safe(s: &ChainSegment) -> (b: bool)
    ensures
        b == seg_safe(*s),
{
    match s {
        ChainSegment::Field { safe, .. } => *safe,
        ChainSegment::Index { safe, .. } => *safe,
        ChainSegment::MethodCall { safe, .. } => *safe,
        ChainSegment::Call { .. } => false,
    }
}

/// Whether some segment of a chain is a safe access.
pub fn has_safe_segment(segs: &Vec<ChainSegment>) -> (b: bool)
    ensures
        b == has_safe(segs@),
{
    let mut i: usize = 0;
    while i < segs.len()
        invariant
            i <= segs@.len(),
            forall|k: int| 0 <= k < i ==> !seg_safe(#[trigger] segs@[k]),
        decreases segs.len() - i,
    {
        if segment_is_safe(&segs[i]) {
            return true;
        }
        i = i + 1;
    }
    false
}

/// The `end` lines closing the nested `if`s of an optional chain.
pub fn closing_lines(n: usize) -> (r: Vec<String>)
    ensures
        views(r@) == closers(n),
{
    let mut r: Vec<String> = Vec::new();
    let mut k = n;
    while k > 1
        invariant
            k <= n,
            views(r@) + closers(k) == closers(n),
        decreases k,
    {
        let ghost prev = views(r@);
        k = k - 1;
        push_line(&mut r, indent(k, "end"));
        assert(closers((k + 1) as usize) =~= seq![indented(k, "end"@)] + closers(k));
        assert(views(r@) + closers(k) =~= prev + closers((k + 1) as usize));
    }
    assert(closers(k) =~= seq![]);
    assert(views(r@) =~= views(r@) + closers(k));
    r
}

} // verus!
