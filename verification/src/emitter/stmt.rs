//! Lowering of statements and blocks, each function proved to produce what
//! the spec function of the same name in `lowering` describes.

use vstd::prelude::*;

use crate::ast::{Binding, Block, Expr, FunctionName, LocalDecl, Pattern, Stmt};
use crate::emitter::expr::{assign_text, concat_text, if_then};
use crate::emitter::lowering::{
    annot, bindings_declared, block_chunks, declare_all, destructures, destructuring_local, dotted,
    enum_values, function_header, local_patterns, local_values, lower_block, lower_enum_decl,
    lower_function_stmt, lower_local, lower_stmt, nonempty, single_local,
};
use crate::emitter::names::pattern_names;
use crate::emitter::pattern::{annotation_text, indent_each_line, local_assign, optional_text, quote_text};
use crate::emitter::types::is_number_backed;
use crate::emitter::{
    deeper, deeper_level, indent, indent_each, indented, pair_views, push_setup, setup_block,
    Emitter,
};
use crate::text::{append_lines, join, join_strings, push_line, string_of, views};

verus! {

/// `.field` for each field, in order.
fn dotted_text(fields: &Vec<String>) -> (r: String)
    ensures
        r@ == dotted(fields@),
{
    let mut r = String::new();
    let mut i: usize = 0;
    while i < fields.len()
        invariant
            i <= fields@.len(),
            r@ == dotted(fields@.subrange(0, i as int)),
        decreases fields.len() - i,
    {
        assert(fields@.subrange(0, i + 1).drop_last() =~= fields@.subrange(0, i as int));
        r.append(".");
        r.append(fields[i].as_str());
        i = i + 1;
    }
    assert(fields@.subrange(0, fields@.len() as int) =~= fields@);
    r
}

/// The header of a `function` statement.
fn function_header_text(local_name: bool, name: &FunctionName) -> (r: String)
    ensures
        r@ == function_header(local_name, *name),
{
    if local_name {
        concat_text("local function ", name.root.as_str())
    } else {
        let mut h = concat_text("function ", name.root.as_str());
        h.append(dotted_text(&name.fields).as_str());
        let ghost before = h@;
        match &name.method {
            Some(m) => {
                h.append(concat_text(":", m.as_str()).as_str());
            },
            None => {},
        }
        assert(h@ =~= before + match name.method {
            Some(m) => ":"@ + m@,
            None => seq![],
        });
        h
    }
}

/// The temporary holding value `k` of a destructuring `local`, or `nil`
/// past the last value.
fn value_source(names: &Vec<String>, k: usize) -> (r: String)
    ensures
        r@ == (if (k as int) < views(names@).len() {
            views(names@)[k as int]
        } else {
            "nil"@
        }),
{
    if k < names.len() {
        names[k].clone()
    } else {
        string_of("nil")
    }
}

/// Whether some binding is a destructuring pattern.
fn has_destructuring(bindings: &Vec<Binding>) -> (r: bool)
    ensures
        r == destructures(bindings@),
{
    let mut i: usize = 0;
    while i < bindings.len()
        invariant
            i <= bindings@.len(),
            forall|k: int| 0 <= k < i ==> (#[trigger] bindings@[k]).pattern is Name,
        decreases bindings.len() - i,
    {
        match &bindings[i].pattern {
            Pattern::Name(_) => {},
            _ => {
                return true;
            },
        }
        i = i + 1;
    }
    false
}

impl Emitter {
    /// Lowers a block at `level` in a new scope.
    pub(crate) fn emit_block(&mut self, block: &Block, level: usize) -> (r: String)
        ensures
            (final(self).model(), r@) == lower_block(old(self).model(), block@, level),
        decreases block, 1nat,
    {
        self.open_scopes();
        let ghost s1 = self.model();
        let mut chunks: Vec<String> = Vec::new();
        let mut i: usize = 0;
        while i < block.len()
            invariant
                i <= block@.len(),
                decreases_to!(*block => block@),
                (self.model(), views(chunks@)) == block_chunks(
                    s1,
                    block@.subrange(0, i as int),
                    level,
                ),
            decreases block.len() - i,
        {
            proof {
                assert(block@.subrange(0, i + 1).drop_last() =~= block@.subrange(0, i as int));
            }
            let ghost prev = views(chunks@);
            let chunk = self.emit_stmt(&block[i], level);
            let ghost cv = chunk@;
            if !chunk.as_str().is_empty() {
                push_line(&mut chunks, chunk);
            }
            assert(views(chunks@) =~= prev + nonempty(cv));
            i = i + 1;
        }
        assert(block@.subrange(0, block@.len() as int) =~= block@);
        self.close_scopes();
        join_strings(&chunks, "\n")
    }

    /// Lowers a statement at `level`.
    pub(crate) fn emit_stmt(&mut self, stmt: &Stmt, level: usize) -> (r: String)
        ensures
            (final(self).model(), r@) == lower_stmt(old(self).model(), *stmt, level),
        decreases stmt, 3nat,
    {
        match stmt {
            Stmt::Local(..) => self.emit_local(stmt, level),
            Stmt::Function(..) => self.emit_function_stmt(stmt, level),
            Stmt::Enum(decl) => {
                self.register_enum_type(decl);
                self.emit_enum_decl(stmt, level)
            },
            Stmt::Assignment(..) => self.emit_assignment(stmt, level),
            Stmt::CompoundAssignment { .. } => self.emit_compound_assignment(stmt, level),
            Stmt::NullishAssignment { .. } => self.emit_nullish_assignment(stmt, level),
            Stmt::Call(e) => {
                let none: Option<String> = None;
                let l = self.emit_expr(e, &none);
                let ghost lv = l@;
                let mut parts: Vec<String> = Vec::new();
                push_setup(&mut parts, level, l.setup);
                push_line(&mut parts, indent(level, l.expr.as_str()));
                assert(views(parts@) =~= setup_block(level, lv.setup) + seq![
                    indented(level, lv.expr),
                ]);
                join_strings(&parts, "\n")
            },
            Stmt::Return(..) => self.emit_return(stmt, level),
            Stmt::If(..) => self.emit_if_stmt(stmt, level),
            Stmt::Switch(..) => self.emit_switch_stmt(stmt, level),
            Stmt::Match(..) => self.emit_match_stmt(stmt, level),
            Stmt::While { .. } => self.emit_while_stmt(stmt, level),
            Stmt::Repeat { .. } => self.emit_repeat_stmt(stmt, level),
            Stmt::ForNumeric(..) => self.emit_for_numeric(stmt, level),
            Stmt::ForGeneric(..) => self.emit_for_generic(stmt, level),
            Stmt::Do(b) => {
                let inner = self.emit_block(b, deeper_level(level, 1));
                let mut t = indent(level, "do");
                t.append("\n");
                t.append(inner.as_str());
                t.append("\n");
                t.append(indent(level, "end").as_str());
                t
            },
            Stmt::Break => indent(level, "break"),
            Stmt::Continue => indent(level, "continue"),
            Stmt::Fallthrough => {
                self.push_error(
                    string_of("`fallthrough` is only valid as the last statement in a switch case"),
                );
                String::new()
            },
            Stmt::TypeAlias { raw, .. } => {
                self.register_type_alias(raw.as_str());
                indent(level, raw.as_str())
            },
        }
    }

    /// Declares the names each binding binds and records their types.
    fn declare_bindings(&mut self, bindings: &Vec<Binding>, is_const: bool)
        ensures
            final(self).model() == bindings_declared(old(self).model(), bindings@, is_const),
    {
        let ghost s0 = self.model();
        let mut i: usize = 0;
        while i < bindings.len()
            invariant
                i <= bindings@.len(),
                self.model() == bindings_declared(s0, bindings@.subrange(0, i as int), is_const),
            decreases bindings.len() - i,
        {
            assert(bindings@.subrange(0, i + 1).drop_last() =~= bindings@.subrange(0, i as int));
            let b = &bindings[i];
            self.declare_local_names(&b.pattern, is_const);
            self.declare_pattern_types(&b.pattern, &b.type_annotation);
            i = i + 1;
        }
        assert(bindings@.subrange(0, bindings@.len() as int) =~= bindings@);
    }

    /// Declares the names a pattern binds.
    pub(crate) fn declare_local_names(&mut self, pattern: &Pattern, is_const: bool)
        ensures
            final(self).model() == declare_all(old(self).model(), crate::emitter::names::pattern_names_of(*pattern), is_const),
    {
        let names = pattern_names(pattern);
        let ghost ns = views(names@);
        let ghost s0 = self.model();
        let mut i: usize = 0;
        while i < names.len()
            invariant
                i <= names@.len(),
                ns == views(names@),
                self.model() == declare_all(s0, ns.subrange(0, i as int), is_const),
            decreases names.len() - i,
        {
            assert(ns.subrange(0, i + 1).drop_last() =~= ns.subrange(0, i as int));
            assert(ns[i as int] == names@[i as int]@);
            self.declare_name(names[i].as_str(), is_const);
            i = i + 1;
        }
        assert(ns.subrange(0, ns.len() as int) =~= ns);
    }

    /// The values of a destructuring `local`, each stored in a fresh
    /// temporary.
    fn lower_local_values(&mut self, values: &Vec<Expr>, level: usize) -> (r: (
        Vec<String>,
        Vec<String>,
    ))
        ensures
            final(self).model() == local_values(old(self).model(), values@, level).0,
            views(r.0@) == local_values(old(self).model(), values@, level).1,
            views(r.1@) == local_values(old(self).model(), values@, level).2,
        decreases values, 0nat,
    {
        let ghost s0 = self.model();
        let none: Option<String> = None;
        let mut out: Vec<String> = Vec::new();
        let mut names: Vec<String> = Vec::new();
        let mut i: usize = 0;
        while i < values.len()
            invariant
                i <= values@.len(),
                none == Option::<String>::None,
                decreases_to!(*values => values@),
                (self.model(), views(out@), views(names@)) == local_values(
                    s0,
                    values@.subrange(0, i as int),
                    level,
                ),
            decreases values.len() - i,
        {
            proof {
                assert(values@.subrange(0, i + 1).drop_last() =~= values@.subrange(0, i as int));
            }
            let l = self.emit_expr(&values[i], &none);
            push_setup(&mut out, level, l.setup);
            let temp = self.next_temp("v");
            push_line(&mut out, indent(level, local_assign(temp.as_str(), l.expr.as_str()).as_str()));
            push_line(&mut names, temp);
            i = i + 1;
        }
        assert(values@.subrange(0, values@.len() as int) =~= values@);
        (out, names)
    }

    /// Lowers a `local` or `const` declaration, then declares its names.
    pub(crate) fn emit_local(&mut self, stmt: &Stmt, level: usize) -> (r: String)
        ensures
            (final(self).model(), r@) == lower_local(old(self).model(), *stmt, level),
        decreases stmt, 2nat,
    {
        match stmt {
            Stmt::Local(d) => {
                let parts = if !has_destructuring(&d.bindings) && d.bindings.len() == 1 {
                    self.emit_single_local(d, level)
                } else {
                    self.emit_destructuring_local(d, level)
                };
                self.declare_bindings(&d.bindings, d.is_const);
                join_strings(&parts, "\n")
            },
            _ => String::new(),
        }
    }

    /// A `local` with one plain name.
    pub(crate) fn emit_single_local(&mut self, d: &LocalDecl, level: usize) -> (r: Vec<String>)
        requires
            d.bindings@.len() == 1,
        ensures
            (final(self).model(), views(r@)) == single_local(old(self).model(), *d, level),
        decreases d, 1nat,
    {
        let none: Option<String> = None;
        let b = &d.bindings[0];
        let name = match &b.pattern {
            Pattern::Name(n) => n.clone(),
            _ => String::new(),
        };
        let mut head = string_of("local ");
        head.append(name.as_str());
        head.append(annotation_text(&b.type_annotation).as_str());
        let mut parts: Vec<String> = Vec::new();
        if d.values.len() > 0 {
            let l = self.emit_expr(&d.values[0], &none);
            let ghost lv = l@;
            push_setup(&mut parts, level, l.setup);
            head.append(" = ");
            head.append(l.expr.as_str());
            push_line(&mut parts, indent(level, head.as_str()));
            assert(views(parts@) =~= setup_block(level, lv.setup) + seq![
                indented(level, "local "@ + name@ + annot(b.type_annotation) + " = "@ + lv.expr),
            ]);
        } else {
            push_line(&mut parts, indent(level, head.as_str()));
            assert(views(parts@) =~= seq![
                indented(level, "local "@ + name@ + annot(b.type_annotation)),
            ]);
        }
        parts
    }

    /// A `local` with several bindings or a pattern.
    pub(crate) fn emit_destructuring_local(&mut self, d: &LocalDecl, level: usize) -> (r: Vec<String>)
        ensures
            (final(self).model(), views(r@)) == destructuring_local(old(self).model(), *d, level),
        decreases d, 1nat,
    {
        if d.values.len() == 1 && d.bindings.len() == 1 {
            let none: Option<String> = None;
            let l = self.emit_expr(&d.values[0], &none);
            let c = self.capture_if_needed(l, "v");
            let mut names: Vec<String> = Vec::new();
            names.push(c.expr);
            assert(views(names@) =~= seq![c@.expr]);
            let more = self.emit_local_patterns(&d.bindings, &names, level);
            let mut parts: Vec<String> = Vec::new();
            push_setup(&mut parts, level, c.setup);
            append_lines(&mut parts, more);
            return parts;
        }
        let (pre, names) = self.lower_local_values(&d.values, level);
        let more = self.emit_local_patterns(&d.bindings, &names, level);
        let mut parts = pre;
        append_lines(&mut parts, more);
        parts
    }

    /// Each binding of a destructuring `local` bound from its value's
    /// temporary, or from `nil` past the last value.
    fn emit_local_patterns(&mut self, bindings: &Vec<Binding>, names: &Vec<String>, level: usize) -> (r:
        Vec<String>)
        ensures
            (final(self).model(), views(r@)) == local_patterns(
                old(self).model(),
                bindings@,
                views(names@),
                level,
            ),
        decreases bindings, 0nat,
    {
        let ghost s0 = self.model();
        let ghost ns = views(names@);
        let mut more: Vec<String> = Vec::new();
        let mut i: usize = 0;
        while i < bindings.len()
            invariant
                i <= bindings@.len(),
                ns == views(names@),
                decreases_to!(*bindings => bindings@),
                (self.model(), views(more@)) == local_patterns(
                    s0,
                    bindings@.subrange(0, i as int),
                    ns,
                    level,
                ),
            decreases bindings.len() - i,
        {
            proof {
                assert(bindings@.subrange(0, i + 1).drop_last() =~= bindings@.subrange(
                    0,
                    i as int,
                ));
            }
            let b = &bindings[i];
            let source = value_source(names, i);
            let pl = self.emit_pattern_local(&b.pattern, &b.type_annotation, source.as_str(), level);
            append_lines(&mut more, pl);
            i = i + 1;
        }
        assert(bindings@.subrange(0, bindings@.len() as int) =~= bindings@);
        more
    }

    /// Lowers a `function` statement.
    pub(crate) fn emit_function_stmt(&mut self, stmt: &Stmt, level: usize) -> (r: String)
        ensures
            (final(self).model(), r@) == lower_function_stmt(old(self).model(), *stmt, level),
        decreases stmt, 2nat,
    {
        match stmt {
            Stmt::Function(f) => {
                let header = function_header_text(f.local_name, &f.name);
                let inner = deeper_level(level, 1);
                let (params, prologue) = self.lower_params(&f.params);
                self.open_scopes();
                self.declare_param_types(&f.params);
                let ghost prov = views(prologue@);
                let mut body_lines = indent_each_line(inner, prologue);
                let body = self.emit_block(&f.body, inner);
                if !body.as_str().is_empty() {
                    push_line(&mut body_lines, body);
                }
                let ghost blv = views(body_lines@);
                assert(blv =~= indent_each(inner, prov) + nonempty(body@));
                self.close_scopes();
                let mut signature = header;
                signature.append(optional_text(&f.generics).as_str());
                signature.append("(");
                signature.append(join_strings(&params, ", ").as_str());
                signature.append(")");
                signature.append(annotation_text(&f.return_type).as_str());
                let ghost sigv = signature@;
                let mut parts: Vec<String> = Vec::new();
                push_line(&mut parts, indent(level, signature.as_str()));
                if body_lines.len() > 0 {
                    push_line(&mut parts, join_strings(&body_lines, "\n"));
                }
                push_line(&mut parts, indent(level, "end"));
                assert(views(parts@) =~= seq![indented(level, sigv)] + (if blv.len() > 0 {
                    seq![join(blv, "\n"@)]
                } else {
                    seq![]
                }) + seq![indented(level, "end"@)]);
                join_strings(&parts, "\n")
            },
            _ => String::new(),
        }
    }

    /// Lowers an `enum` declaration: a type alias and a frozen table.
    pub(crate) fn emit_enum_decl(&mut self, stmt: &Stmt, level: usize) -> (r: String)
        ensures
            (final(self).model(), r@) == lower_enum_decl(old(self).model(), *stmt, level),
        decreases stmt, 2nat,
    {
        match stmt {
            Stmt::Enum(d) => {
                let none: Option<String> = None;
                let numeric = is_number_backed(&d.base_type);
                let ghost s0 = self.model();
                let mut entries: Vec<(String, String)> = Vec::new();
                let mut i: usize = 0;
                while i < d.members.len()
                    invariant
                        i <= d.members@.len(),
                        none == Option::<String>::None,
                        numeric == crate::emitter::types::number_backed(d.base_type),
                        decreases_to!(*stmt => d.members@),
                        (self.model(), pair_views(entries@)) == enum_values(
                            s0,
                            d.members@.subrange(0, i as int),
                            d.name@,
                            numeric,
                        ),
                    decreases d.members.len() - i,
                {
                    proof {
                        assert(d.members@.subrange(0, i + 1).drop_last() =~= d.members@.subrange(
                            0,
                            i as int,
                        ));
                    }
                    let ghost prev = entries@;
                    let m = &d.members[i];
                    match &m.value {
                        Some(v) => {
                            let l = self.emit_expr(v, &none);
                            if l.setup.len() > 0 {
                                let mut msg = concat_text("enum member `", m.name.as_str());
                                msg.append("` value must be a simple expression");
                                self.push_error(msg);
                            }
                            entries.push((m.name.clone(), l.expr));
                        },
                        None => {
                            if numeric {
                                let mut msg = concat_text("number-backed enum `", d.name.as_str());
                                msg.append("` member `");
                                msg.append(m.name.as_str());
                                msg.append("` requires an explicit value");
                                self.push_error(msg);
                                entries.push((m.name.clone(), string_of("0")));
                            } else {
                                entries.push((m.name.clone(), quote_text(m.name.as_str())));
                            }
                        },
                    }
                    assert(pair_views(entries@) =~= pair_views(prev).push(
                        (entries@.last().0@, entries@.last().1@),
                    ));
                    i = i + 1;
                }
                assert(d.members@.subrange(0, d.members@.len() as int) =~= d.members@);
                let ghost ev = pair_views(entries@);
                let mut values: Vec<String> = Vec::new();
                let mut members: Vec<String> = Vec::new();
                let l1 = deeper_level(level, 1);
                let mut k: usize = 0;
                while k < entries.len()
                    invariant
                        k <= entries@.len(),
                        ev == pair_views(entries@),
                        views(values@) == ev.subrange(0, k as int).map_values(
                            |p: (Seq<char>, Seq<char>)| p.1,
                        ),
                        views(members@) == ev.subrange(0, k as int).map_values(
                            |p: (Seq<char>, Seq<char>)|
                                indented(l1, p.0 + " = "@ + p.1 + " :: "@ + d.name@ + ","@),
                        ),
                        l1 == deeper(level, 1),
                    decreases entries.len() - k,
                {
                    let e = &entries[k];
                    assert(ev[k as int] == (e.0@, e.1@));
                    push_line(&mut values, e.1.clone());
                    let mut t = assign_text(e.0.as_str(), e.1.as_str());
                    t.append(" :: ");
                    t.append(d.name.as_str());
                    t.append(",");
                    push_line(&mut members, indent(l1, t.as_str()));
                    k = k + 1;
                    assert(views(values@) =~= ev.subrange(0, k as int).map_values(
                        |p: (Seq<char>, Seq<char>)| p.1,
                    ));
                    assert(views(members@) =~= ev.subrange(0, k as int).map_values(
                        |p: (Seq<char>, Seq<char>)|
                            indented(l1, p.0 + " = "@ + p.1 + " :: "@ + d.name@ + ","@),
                    ));
                }
                assert(ev.subrange(0, ev.len() as int) =~= ev);
                let mut alias = concat_text("type ", d.name.as_str());
                if numeric {
                    alias.append(" = number");
                } else {
                    alias.append(" = ");
                    alias.append(join_strings(&values, " | ").as_str());
                }
                let ghost aliasv = alias@;
                let ghost memv = views(members@);
                let mut parts: Vec<String> = Vec::new();
                push_line(&mut parts, indent(level, alias.as_str()));
                let mut open = concat_text("local ", d.name.as_str());
                open.append(" = table.freeze({");
                push_line(&mut parts, indent(level, open.as_str()));
                append_lines(&mut parts, members);
                push_line(&mut parts, indent(level, "})"));
                assert(views(parts@) =~= seq![
                    indented(level, aliasv),
                    indented(level, "local "@ + d.name@ + " = table.freeze({"@),
                ] + memv + seq![indented(level, "})"@)]);
                join_strings(&parts, "\n")
            },
            _ => String::new(),
        }
    }

}

} // verus!
