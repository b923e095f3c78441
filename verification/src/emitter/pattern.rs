//! Lowering of destructuring patterns, parameter lists, `match` patterns,
//! functions, `do` expressions and table comprehensions.

use vstd::prelude::*;

use crate::ast::{
    BinaryOp, Binding, ComprehensionClause, Expr, MatchPattern, Param, Pattern, PatternBinding,
    TableComprehension, TableComprehensionKind, TablePatternEntry,
};
use crate::emitter::expr::{assign_text, concat_text, if_then, operand_parens, wrap_if};
use crate::emitter::lowering::{
    annot, clauses_left, comp_clauses, comp_insert, entry_bindings, excluded_keys, field_conditions,
    item_bindings, loop_bindings, lower_comprehension, lower_do_expr, lower_function_expr,
    lower_params, match_bindings, match_condition, nonempty, opt_text, opt_view, pattern_binding,
    pattern_local, quoted, rest_lines,
};
use crate::emitter::names::match_pattern_bindings;
use crate::emitter::{
    decimal, decimal_string, decimal_wide, deeper, deeper_level, indent, indent_all, indent_each,
    indent_lines, indented, push_setup, setup_block, simple_expr, Emitter, LoweredExpr,
};
use crate::text::{
    append_lines, join, join_strings, lines, lines_of, push_char, push_line, string_of, views,
};

verus! {

/// `: annotation`, or nothing.
pub fn annotation_text(a: &Option<String>) -> (r: String)
    ensures
        r@ == annot(*a),
{
    match a {
        Some(t) => concat_text(": ", t.as_str()),
        None => String::new(),
    }
}

/// The text of an optional string, empty when absent.
pub fn optional_text(a: &Option<String>) -> (r: String)
    ensures
        r@ == opt_text(*a),
{
    match a {
        Some(t) => t.clone(),
        None => String::new(),
    }
}

/// `s` in double quotes.
pub fn quote_text(s: &str) -> (r: String)
    ensures
        r@ == quoted(s@),
{
    let mut r = String::new();
    push_char(&mut r, '"');
    r.append(s);
    push_char(&mut r, '"');
    assert(r@ =~= quoted(s@));
    r
}

/// `local name = value`.
pub fn local_assign(name: &str, value: &str) -> (r: String)
    ensures
        r@ == "local "@ + name@ + " = "@ + value@,
{
    let mut r = string_of("local ");
    r.append(name);
    r.append(" = ");
    r.append(value);
    r
}

/// Each line indented by `level`, without splitting it.
pub fn indent_each_line(level: usize, ls: Vec<String>) -> (r: Vec<String>)
    ensures
        views(r@) == indent_each(level, views(ls@)),
{
    let ghost vs = views(ls@);
    let mut r: Vec<String> = Vec::new();
    let mut i: usize = 0;
    while i < ls.len()
        invariant
            i <= ls@.len(),
            vs == views(ls@),
            views(r@) == indent_each(level, vs.subrange(0, i as int)),
        decreases ls.len() - i,
    {
        assert(vs[i as int] == ls@[i as int]@);
        push_line(&mut r, indent(level, ls[i].as_str()));
        i = i + 1;
        assert(views(r@) =~= indent_each(level, vs.subrange(0, i as int)));
    }
    assert(vs.subrange(0, ls@.len() as int) =~= vs);
    r
}

/// `temp ~= "key"` for each entry, joined with `and`.
fn excluded_text(entries: &Vec<TablePatternEntry>, temp: &str) -> (r: String)
    ensures
        r@ == excluded_keys(entries@, temp@),
{
    let ghost f = |e: TablePatternEntry| temp@ + " ~= "@ + quoted(e.key@);
    let mut pieces: Vec<String> = Vec::new();
    let mut i: usize = 0;
    while i < entries.len()
        invariant
            i <= entries@.len(),
            f == (|e: TablePatternEntry| temp@ + " ~= "@ + quoted(e.key@)),
            views(pieces@) == entries@.subrange(0, i as int).map_values(f),
        decreases entries.len() - i,
    {
        let mut t = string_of(temp);
        t.append(" ~= ");
        t.append(quote_text(entries[i].key.as_str()).as_str());
        push_line(&mut pieces, t);
        i = i + 1;
        assert(views(pieces@) =~= entries@.subrange(0, i as int).map_values(f));
    }
    assert(entries@.subrange(0, entries@.len() as int) =~= entries@);
    join_strings(&pieces, " and ")
}

/// The lines that collect the keys a table pattern does not name into
/// the rest table.
fn rest_lines_of(r: &str, temp: &str, base: &str, excluded: &str, level: usize) -> (out: Vec<
    String,
>)
    ensures
        views(out@) == rest_lines(r@, temp@, base@, excluded@, level),
{
    let l1 = deeper_level(level, 1);
    let l2 = deeper_level(level, 2);
    let mut out: Vec<String> = Vec::new();
    let mut a = string_of("local ");
    a.append(r);
    a.append(" = {}");
    push_line(&mut out, indent(level, a.as_str()));
    let mut b = string_of("for ");
    b.append(temp);
    b.append(", _v in ");
    b.append(base);
    b.append(" do");
    push_line(&mut out, indent(level, b.as_str()));
    let mut c = string_of(r);
    c.append("[");
    c.append(temp);
    c.append("] = _v");
    if excluded.is_empty() {
        push_line(&mut out, indent(l1, c.as_str()));
    } else {
        push_line(&mut out, indent(l1, if_then(excluded).as_str()));
        push_line(&mut out, indent(l2, c.as_str()));
        push_line(&mut out, indent(l1, "end"));
    }
    push_line(&mut out, indent(level, "end"));
    assert(views(out@) =~= rest_lines(r@, temp@, base@, excluded@, level));
    out
}

/// `type(value) == "table"`.
fn firstv_text(value: &str) -> (r: String)
    ensures
        r@ == "type("@ + value@ + ") == "@ + quoted("table"@),
{
    let mut first = string_of("type(");
    first.append(value);
    first.append(") == ");
    first.append(quote_text("table").as_str());
    first
}

impl Emitter {
    /// `local` declarations that bind `pattern` to `source` at `level`.
    pub(crate) fn emit_pattern_local(
        &mut self,
        pattern: &Pattern,
        annotation: &Option<String>,
        source: &str,
        level: usize,
    ) -> (r: Vec<String>)
        ensures
            (final(self).model(), views(r@)) == pattern_local(
                old(self).model(),
                *pattern,
                *annotation,
                source@,
                level,
            ),
        decreases pattern, 2nat,
    {
        match pattern {
            Pattern::Name(n) => {
                let mut t = string_of("local ");
                t.append(n.as_str());
                t.append(annotation_text(annotation).as_str());
                t.append(" = ");
                t.append(source);
                let mut out: Vec<String> = Vec::new();
                push_line(&mut out, indent(level, t.as_str()));
                out
            },
            Pattern::Table { entries, rest } => {
                let base = string_of(source);
                let ghost s1 = self.model();
                let mut body: Vec<String> = Vec::new();
                let mut i: usize = 0;
                while i < entries.len()
                    invariant
                        i <= entries@.len(),
                        decreases_to!(*pattern => entries@),
                        (self.model(), views(body@)) == entry_bindings(
                            s1,
                            entries@.subrange(0, i as int),
                            base@,
                            level,
                        ),
                    decreases entries.len() - i,
                {
                    proof {
                        assert(entries@.subrange(0, i + 1).drop_last() =~= entries@.subrange(
                            0,
                            i as int,
                        ));
                    }
                    let e = &entries[i];
                    let mut access = base.clone();
                    access.append(".");
                    access.append(e.key.as_str());
                    let more = self.emit_pattern_binding(&e.binding, access.as_str(), level);
                    append_lines(&mut body, more);
                    i = i + 1;
                }
                assert(entries@.subrange(0, entries@.len() as int) =~= entries@);
                let mut out: Vec<String> = body;
                match rest {
                    Some(r) => {
                        let temp = self.next_temp("rest");
                        let excluded = excluded_text(entries, temp.as_str());
                        append_lines(
                            &mut out,
                            rest_lines_of(
                                r.as_str(),
                                temp.as_str(),
                                base.as_str(),
                                excluded.as_str(),
                                level,
                            ),
                        );
                    },
                    None => {},
                }
                out
            },
            Pattern::Array { items, rest } => {
                let base = string_of(source);
                let ghost s1 = self.model();
                let mut body: Vec<String> = Vec::new();
                let mut i: usize = 0;
                while i < items.len()
                    invariant
                        i <= items@.len(),
                        decreases_to!(*pattern => items@),
                        (self.model(), views(body@)) == item_bindings(
                            s1,
                            items@.subrange(0, i as int),
                            base@,
                            level,
                        ),
                    decreases items.len() - i,
                {
                    proof {
                        assert(items@.subrange(0, i + 1).drop_last() =~= items@.subrange(
                            0,
                            i as int,
                        ));
                    }
                    match &items[i].binding {
                        Some(b) => {
                            let mut access = base.clone();
                            access.append("[");
                            access.append(decimal_string(i + 1).as_str());
                            access.append("]");
                            let more = self.emit_pattern_binding(b, access.as_str(), level);
                            append_lines(&mut body, more);
                        },
                        None => {},
                    }
                    i = i + 1;
                }
                assert(items@.subrange(0, items@.len() as int) =~= items@);
                let mut out: Vec<String> = body;
                match rest {
                    Some(r) => {
                        let mut t = string_of("local ");
                        t.append(r.as_str());
                        t.append(" = table.move(");
                        t.append(base.as_str());
                        t.append(", ");
                        t.append(decimal_wide(items.len() as u128 + 1).as_str());
                        t.append(", #");
                        t.append(base.as_str());
                        t.append(", 1, {})");
                        push_line(&mut out, indent(level, t.as_str()));
                    },
                    None => {},
                }
                out
            },
        }
    }

    /// A nested pattern read from `source`, its default used when the value
    /// is `nil`.
    fn emit_pattern_binding(&mut self, binding: &PatternBinding, source: &str, level: usize) -> (r:
        Vec<String>)
        ensures
            (final(self).model(), views(r@)) == pattern_binding(
                old(self).model(),
                *binding,
                source@,
                level,
            ),
        decreases binding, 1nat,
    {
        let none: Option<String> = None;
        match &binding.default_value {
            Some(d) => {
                let l = self.emit_expr(d, &none);
                let named = match &binding.target {
                    Pattern::Name(_) => true,
                    _ => false,
                };
                if l.setup.len() == 0 && named {
                    let temp = self.next_temp("d");
                    let mut resolved = string_of("if ");
                    resolved.append(temp.as_str());
                    resolved.append(" ~= nil then ");
                    resolved.append(temp.as_str());
                    resolved.append(" else ");
                    resolved.append(l.expr.as_str());
                    let mut out: Vec<String> = Vec::new();
                    push_line(&mut out, indent(level, local_assign(temp.as_str(), source).as_str()));
                    let more = self.emit_pattern_local(&binding.target, &none, resolved.as_str(), level);
                    append_lines(&mut out, more);
                    out
                } else {
                    let temp = self.next_temp("default");
                    let inner = deeper_level(level, 1);
                    let ghost lv = l@;
                    let mut pre: Vec<String> = Vec::new();
                    push_line(&mut pre, indent(level, concat_text("local ", temp.as_str()).as_str()));
                    let mut test = string_of("if ");
                    test.append(source);
                    test.append(" ~= nil then");
                    push_line(&mut pre, indent(level, test.as_str()));
                    push_line(&mut pre, indent(inner, assign_text(temp.as_str(), source).as_str()));
                    push_line(&mut pre, indent(level, "else"));
                    push_setup(&mut pre, inner, l.setup);
                    push_line(&mut pre, indent(inner, assign_text(temp.as_str(), l.expr.as_str()).as_str()));
                    push_line(&mut pre, indent(level, "end"));
                    assert(views(pre@) =~= seq![
                        indented(level, "local "@ + temp@),
                        indented(level, "if "@ + source@ + " ~= nil then"@),
                        indented(inner, temp@ + " = "@ + source@),
                        indented(level, "else"@),
                    ] + setup_block(inner, lv.setup) + seq![
                        indented(inner, temp@ + " = "@ + lv.expr),
                        indented(level, "end"@),
                    ]);
                    let more = self.emit_pattern_local(&binding.target, &none, temp.as_str(), level);
                    append_lines(&mut pre, more);
                    pre
                }
            },
            None => self.emit_pattern_local(&binding.target, &none, source, level),
        }
    }

    /// The rendered parameters of a function and the prologue that
    /// destructures pattern parameters.
    pub(crate) fn lower_params(&mut self, params: &Vec<Param>) -> (r: (Vec<String>, Vec<String>))
        ensures
            final(self).model() == lower_params(old(self).model(), params@).0,
            views(r.0@) == lower_params(old(self).model(), params@).1,
            views(r.1@) == lower_params(old(self).model(), params@).2,
        decreases params, 0nat,
    {
        let ghost s0 = self.model();
        let none: Option<String> = None;
        let mut rendered: Vec<String> = Vec::new();
        let mut prologue: Vec<String> = Vec::new();
        let mut i: usize = 0;
        while i < params.len()
            invariant
                i <= params@.len(),
                none == Option::<String>::None,
                decreases_to!(*params => params@),
                (self.model(), views(rendered@), views(prologue@)) == lower_params(
                    s0,
                    params@.subrange(0, i as int),
                ),
            decreases params.len() - i,
        {
            proof {
                assert(params@.subrange(0, i + 1).drop_last() =~= params@.subrange(0, i as int));
            }
            match &params[i] {
                Param::VarArg(a) => {
                    push_line(&mut rendered, concat_text("...", annotation_text(a).as_str()));
                },
                Param::Binding(b) => match &b.pattern {
                    Pattern::Name(n) => {
                        push_line(
                            &mut rendered,
                            concat_text(n.as_str(), annotation_text(&b.type_annotation).as_str()),
                        );
                    },
                    _ => {
                        let temp = concat_text("_param", decimal_string(i).as_str());
                        push_line(
                            &mut rendered,
                            concat_text(temp.as_str(), annotation_text(&b.type_annotation).as_str()),
                        );
                        let pl = self.emit_pattern_local(&b.pattern, &none, temp.as_str(), 0);
                        append_lines(&mut prologue, pl);
                    },
                },
            }
            i = i + 1;
        }
        assert(params@.subrange(0, params@.len() as int) =~= params@);
        (rendered, prologue)
    }

    /// The loop names of a `for ... in` and the prologue that destructures
    /// the patterns bound to temporaries.
    pub(crate) fn emit_loop_bindings(&mut self, bindings: &Vec<Binding>) -> (r: (
        Vec<String>,
        Vec<String>,
    ))
        ensures
            final(self).model() == loop_bindings(old(self).model(), bindings@).0,
            views(r.0@) == loop_bindings(old(self).model(), bindings@).1,
            views(r.1@) == loop_bindings(old(self).model(), bindings@).2,
        decreases bindings, 0nat,
    {
        let ghost s0 = self.model();
        let mut names: Vec<String> = Vec::new();
        let mut prologue: Vec<String> = Vec::new();
        let mut i: usize = 0;
        while i < bindings.len()
            invariant
                i <= bindings@.len(),
                decreases_to!(*bindings => bindings@),
                (self.model(), views(names@), views(prologue@)) == loop_bindings(
                    s0,
                    bindings@.subrange(0, i as int),
                ),
            decreases bindings.len() - i,
        {
            proof {
                assert(bindings@.subrange(0, i + 1).drop_last() =~= bindings@.subrange(
                    0,
                    i as int,
                ));
            }
            let b = &bindings[i];
            match &b.pattern {
                Pattern::Name(n) => {
                    push_line(&mut names, n.clone());
                },
                _ => {
                    let temp = self.next_temp("for");
                    let pl = self.emit_pattern_local(&b.pattern, &b.type_annotation, temp.as_str(), 0);
                    push_line(&mut names, temp);
                    append_lines(&mut prologue, pl);
                },
            }
            i = i + 1;
        }
        assert(bindings@.subrange(0, bindings@.len() as int) =~= bindings@);
        (names, prologue)
    }

    /// The condition that a `match` pattern holds of `value`, and the setup
    /// that records its bindings in the table `binds`.
    pub(crate) fn emit_match_pattern_condition(
        &mut self,
        pattern: &MatchPattern,
        value: &str,
        binds: &str,
    ) -> (r: (Vec<String>, String))
        ensures
            (final(self).model(), views(r.0@), r.1@) == match_condition(
                old(self).model(),
                *pattern,
                value@,
                binds@,
            ),
        decreases pattern, 2nat,
    {
        proof {
            reveal(match_condition);
        }
        match pattern {
            MatchPattern::Literal(e) => {
                let none: Option<String> = None;
                let l = self.emit_expr(e, &none);
                let mut t = string_of(value);
                t.append(" == ");
                let value_text = wrap_if(l.expr, operand_parens(e, BinaryOp::Equal, true));
                t.append(value_text.as_str());
                (l.setup, t)
            },
            MatchPattern::Bind(n) => {
                let mut t = string_of(binds);
                t.append("[");
                t.append(quote_text(n.as_str()).as_str());
                t.append("] = ");
                t.append(value);
                let mut setup: Vec<String> = Vec::new();
                push_line(&mut setup, t);
                assert(views(setup@) =~= seq![binds@ + "["@ + quoted(n@) + "] = "@ + value@]);
                (setup, string_of("true"))
            },
            MatchPattern::Table(fields) => {
                let ghost s0 = self.model();
                let mut setup: Vec<String> = Vec::new();
                let mut conds: Vec<String> = Vec::new();
                let mut i: usize = 0;
                while i < fields.len()
                    invariant
                        i <= fields@.len(),
                        decreases_to!(*pattern => fields@),
                        (self.model(), views(setup@), views(conds@)) == field_conditions(
                            s0,
                            fields@.subrange(0, i as int),
                            value@,
                            binds@,
                        ),
                    decreases fields.len() - i,
                {
                    proof {
                        assert(fields@.subrange(0, i + 1).drop_last() =~= fields@.subrange(
                            0,
                            i as int,
                        ));
                    }
                    proof {
                        reveal(match_condition);
                    }
                    let f = &fields[i];
                    let mut access = string_of(value);
                    access.append(".");
                    access.append(f.key.as_str());
                    let (su, c) = self.emit_match_pattern_condition(&f.pattern, access.as_str(), binds);
                    append_lines(&mut setup, su);
                    push_line(&mut conds, c);
                    i = i + 1;
                }
                assert(fields@.subrange(0, fields@.len() as int) =~= fields@);
                let ghost condv = views(conds@);
                let mut first = string_of("type(");
                first.append(value);
                first.append(") == ");
                first.append(quote_text("table").as_str());
                let mut all: Vec<String> = Vec::new();
                let ghost firstv = first@;
                push_line(&mut all, first);
                append_lines(&mut all, conds);
                assert(views(all@) =~= seq![firstv] + condv);
                if setup.len() == 0 {
                    return (setup, join_strings(&all, " and "));
                }
                let ghost sv = views(setup@);
                let mut guarded: Vec<String> = Vec::new();
                push_line(&mut guarded, if_then(firstv_text(value).as_str()));
                append_lines(&mut guarded, indent_lines(1, setup));
                push_line(&mut guarded, string_of("end"));
                assert(views(guarded@) =~= seq!["if "@ + firstv + " then"@] + indent_all(1, sv) + seq![
                    "end"@,
                ]);
                (guarded, join_strings(&all, " and "))
            },
        }
    }

    /// Lowers an anonymous function.
    pub(crate) fn emit_function_expr(&mut self, expr: &Expr) -> (r: LoweredExpr)
        ensures
            (final(self).model(), r@) == lower_function_expr(old(self).model(), *expr),
        decreases expr, 2nat,
    {
        match expr {
            Expr::Function(f) => {
                let (params, prologue) = self.lower_params(&f.params);
                self.open_const_scope();
                let body = self.emit_block(&f.body, 1);
                self.close_const_scope();
                let mut head = string_of("function");
                head.append(optional_text(&f.generics).as_str());
                head.append("(");
                head.append(join_strings(&params, ", ").as_str());
                head.append(")");
                head.append(annotation_text(&f.return_type).as_str());
                let ghost headv = head@;
                let ghost prov = views(prologue@);
                let mut ls: Vec<String> = Vec::new();
                push_line(&mut ls, head);
                append_lines(&mut ls, indent_each_line(1, prologue));
                if !body.as_str().is_empty() {
                    push_line(&mut ls, body);
                }
                push_line(&mut ls, string_of("end"));
                assert(views(ls@) =~= seq![headv] + indent_each(1, prov) + nonempty(body@) + seq![
                    "end"@,
                ]);
                simple_expr(join_strings(&ls, "\n"), false)
            },
            _ => simple_expr(String::new(), false),
        }
    }

    /// Lowers `do ... end` with a result expression.
    pub(crate) fn emit_do_expr(&mut self, expr: &Expr, ph: &Option<String>) -> (r: LoweredExpr)
        ensures
            (final(self).model(), r@) == lower_do_expr(old(self).model(), *expr, opt_view(*ph)),
        decreases expr, 2nat,
    {
        match expr {
            Expr::DoExpr { block, result } => {
                let name = self.next_temp("de");
                let body = self.emit_block(block, 1);
                let r = self.emit_expr(result, ph);
                let ghost rv = r@;
                let mut setup: Vec<String> = Vec::new();
                push_line(&mut setup, concat_text("local ", name.as_str()));
                push_line(&mut setup, string_of("do"));
                let ghost before = views(setup@);
                if !body.as_str().is_empty() {
                    append_lines(&mut setup, lines_of(body.as_str()));
                }
                assert(views(setup@) =~= before + (if body@.len() > 0 {
                    lines(body@)
                } else {
                    seq![]
                }));
                append_lines(&mut setup, indent_lines(1, r.setup));
                push_line(&mut setup, indent(1, assign_text(name.as_str(), r.expr.as_str()).as_str()));
                push_line(&mut setup, string_of("end"));
                assert(views(setup@) =~= seq!["local "@ + name@, "do"@] + (if body@.len() > 0 {
                    lines(body@)
                } else {
                    seq![]
                }) + indent_all(1, rv.setup) + seq![indented(1, name@ + " = "@ + rv.expr), "end"@]);
                LoweredExpr { setup, expr: name, reuse_safe: false }
            },
            _ => simple_expr(String::new(), false),
        }
    }

    /// Lowers a table comprehension into a fresh table filled by loops.
    pub(crate) fn emit_comprehension_expr(&mut self, expr: &Expr, ph: &Option<String>) -> (r:
        LoweredExpr)
        ensures
            (final(self).model(), r@) == lower_comprehension(
                old(self).model(),
                *expr,
                opt_view(*ph),
            ),
        decreases expr, 2nat,
    {
        match expr {
            Expr::Comprehension(c) => {
                let table = self.next_temp("comp");
                let body = self.emit_comprehension_clauses(c, 0, 0, &table, ph);
                let mut setup: Vec<String> = Vec::new();
                let mut head = string_of("local ");
                head.append(table.as_str());
                head.append(" = {}");
                let ghost bodyv = views(body@);
                push_line(&mut setup, head);
                append_lines(&mut setup, body);
                assert(views(setup@) =~= seq!["local "@ + table@ + " = {}"@] + bodyv);
                LoweredExpr { setup, expr: table, reuse_safe: false }
            },
            _ => simple_expr(String::new(), false),
        }
    }

    /// The clauses of a comprehension from index `k` on, at `level`.
    fn emit_comprehension_clauses(
        &mut self,
        c: &TableComprehension,
        k: usize,
        level: usize,
        table: &String,
        ph: &Option<String>,
    ) -> (r: Vec<String>)
        ensures
            (final(self).model(), views(r@)) == comp_clauses(
                old(self).model(),
                *c,
                k as int,
                level,
                table@,
                opt_view(*ph),
            ),
        decreases c, clauses_left(*c, k as int),
    {
        if k >= c.clauses.len() {
            return self.emit_comprehension_insert(c, level, table, ph);
        }
        let inner = deeper_level(level, 1);
        match &c.clauses[k] {
            ComprehensionClause::GenericFor { bindings, iterables } => {
                let (su, values) = self.emit_args(iterables, ph);
                let (names, prologue) = self.emit_loop_bindings(bindings);
                let body = self.emit_comprehension_clauses(c, k + 1, inner, table, ph);
                let ghost suv = views(su@);
                let ghost prov = views(prologue@);
                let ghost bodyv = views(body@);
                let mut head = string_of("for ");
                head.append(join_strings(&names, ", ").as_str());
                head.append(" in ");
                head.append(join_strings(&values, ", ").as_str());
                head.append(" do");
                let ghost headv = head@;
                let mut out = indent_lines(level, su);
                push_line(&mut out, indent(level, head.as_str()));
                append_lines(&mut out, indent_lines(inner, prologue));
                append_lines(&mut out, body);
                push_line(&mut out, indent(level, "end"));
                assert(views(out@) =~= indent_all(level, suv) + seq![indented(level, headv)]
                    + indent_all(inner, prov) + bodyv + seq![indented(level, "end"@)]);
                out
            },
            ComprehensionClause::NumericFor { name, start, end, step } => {
                let a = self.emit_expr(start, ph);
                let b = self.emit_expr(end, ph);
                let s = match step {
                    Some(x) => Some(self.emit_expr(x, ph)),
                    None => None,
                };
                let ghost av = a@;
                let ghost bv = b@;
                let ghost sv: Option<crate::emitter::LoweredView> = match &s {
                    Some(l) => Some(l@),
                    None => None,
                };
                let mut range = a.expr.clone();
                range.append(", ");
                range.append(b.expr.as_str());
                let mut out = indent_lines(level, a.setup);
                append_lines(&mut out, indent_lines(level, b.setup));
                let ghost before_step = views(out@);
                match s {
                    Some(l) => {
                        range.append(", ");
                        range.append(l.expr.as_str());
                        append_lines(&mut out, indent_lines(level, l.setup));
                    },
                    None => {},
                }
                assert(range@ =~= av.expr + ", "@ + bv.expr + match sv {
                    Some(l) => ", "@ + l.expr,
                    None => seq![],
                });
                let body = self.emit_comprehension_clauses(c, k + 1, inner, table, ph);
                let ghost bodyv = views(body@);
                let mut head = string_of("for ");
                head.append(name.as_str());
                head.append(" = ");
                head.append(range.as_str());
                head.append(" do");
                let ghost headv = head@;
                let ghost mid = views(out@);
                assert(mid =~= indent_all(level, av.setup) + indent_all(level, bv.setup) + match sv {
                    Some(l) => indent_all(level, l.setup),
                    None => seq![],
                });
                push_line(&mut out, indent(level, head.as_str()));
                append_lines(&mut out, body);
                push_line(&mut out, indent(level, "end"));
                assert(views(out@) =~= mid + seq![indented(level, headv)] + bodyv + seq![
                    indented(level, "end"@),
                ]);
                out
            },
            ComprehensionClause::Filter(cond) => {
                let l = self.emit_expr(cond, ph);
                let body = self.emit_comprehension_clauses(c, k + 1, inner, table, ph);
                let ghost lv = l@;
                let ghost bodyv = views(body@);
                let mut out = indent_lines(level, l.setup);
                push_line(&mut out, indent(level, if_then(l.expr.as_str()).as_str()));
                append_lines(&mut out, body);
                push_line(&mut out, indent(level, "end"));
                assert(views(out@) =~= indent_all(level, lv.setup) + seq![
                    indented(level, "if "@ + lv.expr + " then"@),
                ] + bodyv + seq![indented(level, "end"@)]);
                out
            },
        }
    }

    /// The insertion of one item into the comprehension's table.
    fn emit_comprehension_insert(
        &mut self,
        c: &TableComprehension,
        level: usize,
        table: &String,
        ph: &Option<String>,
    ) -> (r: Vec<String>)
        ensures
            (final(self).model(), views(r@)) == comp_insert(
                old(self).model(),
                *c,
                level,
                table@,
                opt_view(*ph),
            ),
        decreases c, 0int,
    {
        match &c.kind {
            TableComprehensionKind::Array { value } => {
                let l = self.emit_expr(value, ph);
                let mut out = indent_lines(level, l.setup);
                let mut t = string_of("table.insert(");
                t.append(table.as_str());
                t.append(", ");
                t.append(l.expr.as_str());
                t.append(")");
                push_line(&mut out, indent(level, t.as_str()));
                out
            },
            TableComprehensionKind::KeyValue { key, value } => {
                let k = self.emit_expr(key, ph);
                let v = self.emit_expr(value, ph);
                let mut out = indent_lines(level, k.setup);
                append_lines(&mut out, indent_lines(level, v.setup));
                let mut t = table.clone();
                t.append("[");
                t.append(k.expr.as_str());
                t.append("] = ");
                t.append(v.expr.as_str());
                push_line(&mut out, indent(level, t.as_str()));
                out
            },
        }
    }

    /// The `local` lines that read the names a pattern bound from `binds`.
    pub(crate) fn emit_match_bindings(&self, binds: &str, pattern: &MatchPattern, level: usize) -> (r:
        Vec<String>)
        ensures
            views(r@) == match_bindings(*pattern, binds@, level),
    {
        let names = match_pattern_bindings(pattern);
        let ghost ns = views(names@);
        let ghost f = |n: Seq<char>|
            indented(level, "local "@ + n + " = "@ + binds@ + "["@ + quoted(n) + "]"@);
        let mut out: Vec<String> = Vec::new();
        let mut i: usize = 0;
        while i < names.len()
            invariant
                i <= names@.len(),
                ns == views(names@),
                f == (|n: Seq<char>|
                    indented(level, "local "@ + n + " = "@ + binds@ + "["@ + quoted(n) + "]"@)),
                views(out@) == ns.subrange(0, i as int).map_values(f),
            decreases names.len() - i,
        {
            let n = names[i].as_str();
            assert(ns[i as int] == n@);
            let mut t = local_assign(n, binds);
            t.append("[");
            t.append(quote_text(n).as_str());
            t.append("]");
            push_line(&mut out, indent(level, t.as_str()));
            i = i + 1;
            assert(views(out@) =~= ns.subrange(0, i as int).map_values(f));
        }
        assert(ns.subrange(0, ns.len() as int) =~= ns);
        out
    }
}

} // verus!
