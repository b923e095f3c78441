//! Lowering of control flow: `if`, `switch`, `match` and loops.

use vstd::prelude::*;

use crate::ast::{BinaryOp, Block, MatchCase, Stmt, SwitchCase};
use crate::emitter::expr::{assign_text, concat_text, if_then, operand_parens, wrap_if};
use crate::emitter::lowering::{loop_names_declared, operand_needs_parens, parens_if};
use crate::emitter::lowering::{
    closes, else_lines, guard_lines, if_stmt_branches, last_closing, lower_for_generic, lower_for_numeric,
    lower_if_stmt, lower_match_stmt, lower_repeat, lower_switch_stmt, lower_while, match_arm,
    match_arms, nonempty, switch_walk,
};
use crate::emitter::pattern::{indent_each_line, local_assign};
use crate::emitter::{
    deeper, deeper_level, indent, indent_each, indented, push_setup, setup_block, Emitter,
    LoweredExpr, LoweredView,
};
use crate::text::{append_lines, join_strings, push_line, string_of, views};

verus! {

/// Whether a switch case ends a group of cases.
fn case_closes(c: &SwitchCase) -> (r: bool)
    ensures
        r == closes(*c),
{
    !c.fallthrough && c.block.len() > 0
}

/// The index of the last case that ends a group, if there is one.
fn last_closing_case(cases: &Vec<SwitchCase>) -> (r: Option<usize>)
    ensures
        match r {
            Some(j) => j == last_closing(cases@),
            None => last_closing(cases@) == -1,
        },
{
    let mut i = cases.len();
    assert(cases@.subrange(0, cases@.len() as int) =~= cases@);
    while i > 0
        invariant
            i <= cases@.len(),
            last_closing(cases@) == last_closing(cases@.subrange(0, i as int)),
        decreases i,
    {
        let ghost sub = cases@.subrange(0, i as int);
        assert(sub.last() == cases@[i - 1]);
        assert(sub.drop_last() =~= cases@.subrange(0, i - 1));
        if case_closes(&cases[i - 1]) {
            return Some(i - 1);
        }
        i = i - 1;
    }
    None
}

/// The opening lines of a `match` arm: the bindings table, the pattern's
/// setup and the arm's condition.
fn match_head(level: usize, binds: &str, cond: &str, matched: &str, psetup: Vec<String>, pexpr: &str) -> (r:
    Vec<String>)
    ensures
        views(r@) == seq![
            indented(level, "do"@),
            indented(deeper(level, 1), "local "@ + binds@ + " = {}"@),
        ] + setup_block(deeper(level, 1), views(psetup@)) + seq![
            indented(
                deeper(level, 1),
                "local "@ + cond@ + " = (not "@ + matched@ + ") and ("@ + pexpr@ + ")"@,
            ),
        ],
{
    let l1 = deeper_level(level, 1);
    let ghost psv = views(psetup@);
    let mut arm: Vec<String> = Vec::new();
    push_line(&mut arm, indent(level, "do"));
    let mut bdecl = concat_text("local ", binds);
    bdecl.append(" = {}");
    push_line(&mut arm, indent(l1, bdecl.as_str()));
    push_setup(&mut arm, l1, psetup);
    let mut test = concat_text("local ", cond);
    test.append(" = (not ");
    test.append(matched);
    test.append(") and (");
    test.append(pexpr);
    test.append(")");
    let ghost testv = test@;
    push_line(&mut arm, indent(l1, test.as_str()));
    assert(testv == "local "@ + cond@ + " = (not "@ + matched@ + ") and ("@ + pexpr@ + ")"@);
    assert(views(arm@) =~= seq![indented(level, "do"@), indented(l1, "local "@ + binds@ + " = {}"@)]
        + setup_block(l1, psv) + seq![indented(l1, testv)]);
    arm
}

impl Emitter {
    /// Lowers an `if` statement.
    pub(crate) fn emit_if_stmt(&mut self, stmt: &Stmt, level: usize) -> (r: String)
        ensures
            (final(self).model(), r@) == lower_if_stmt(old(self).model(), *stmt, level),
        decreases stmt, 2nat,
    {
        match stmt {
            Stmt::If(if_stmt) => {
                let none: Option<String> = None;
                let inner = deeper_level(level, 1);
                let ghost s0 = self.model();
                let mut parts: Vec<String> = Vec::new();
                let mut i: usize = 0;
                while i < if_stmt.branches.len()
                    invariant
                        i <= if_stmt.branches@.len(),
                        none == Option::<String>::None,
                        inner == deeper(level, 1),
                        decreases_to!(*stmt => if_stmt.branches@),
                        (self.model(), views(parts@)) == if_stmt_branches(
                            s0,
                            if_stmt.branches@.subrange(0, i as int),
                            level,
                        ),
                    decreases if_stmt.branches.len() - i,
                {
                    proof {
                        assert(if_stmt.branches@.subrange(0, i + 1).drop_last()
                            =~= if_stmt.branches@.subrange(0, i as int));
                    }
                    let ghost prev = views(parts@);
                    let b = &if_stmt.branches[i];
                    let c0 = self.emit_expr(&b.0, &none);
                    let c = self.capture_if_needed(c0, "cond");
                    let ghost cv = c@;
                    push_setup(&mut parts, level, c.setup);
                    let mut head = if i == 0 {
                        string_of("if")
                    } else {
                        string_of("elseif")
                    };
                    head.append(" ");
                    head.append(c.expr.as_str());
                    head.append(" then");
                    let ghost headv = head@;
                    push_line(&mut parts, indent(level, head.as_str()));
                    let body = self.emit_block(&b.1, inner);
                    if !body.as_str().is_empty() {
                        push_line(&mut parts, body);
                    }
                    assert(views(parts@) =~= prev + setup_block(level, cv.setup) + seq![
                        indented(level, headv),
                    ] + nonempty(body@));
                    i = i + 1;
                }
                assert(if_stmt.branches@.subrange(0, if_stmt.branches@.len() as int)
                    =~= if_stmt.branches@);
                let ghost outv = views(parts@);
                let els = self.emit_else(&if_stmt.else_block, level);
                let ghost elsv = views(els@);
                append_lines(&mut parts, els);
                push_line(&mut parts, indent(level, "end"));
                assert(views(parts@) =~= outv + elsv + seq![indented(level, "end"@)]);
                join_strings(&parts, "\n")
            },
            _ => String::new(),
        }
    }


    /// The `else` part of an `if` statement.
    fn emit_else(&mut self, else_block: &Option<Block>, level: usize) -> (r: Vec<String>)
        ensures
            (final(self).model(), views(r@)) == else_lines(old(self).model(), *else_block, level),
        decreases else_block, 1nat,
    {
        let mut out: Vec<String> = Vec::new();
        match else_block {
            Some(b) => {
                push_line(&mut out, indent(level, "else"));
                let body = self.emit_block(b, deeper_level(level, 1));
                if !body.as_str().is_empty() {
                    push_line(&mut out, body);
                }
                assert(views(out@) =~= seq![indented(level, "else"@)] + nonempty(body@));
            },
            None => {
                assert(views(out@) =~= seq![]);
            },
        }
        out
    }

    /// Lowers a `switch` statement into an `if`/`elseif` chain on a
    /// temporary holding the value; the values of a group of cases are
    /// lowered as they come and tested together.
    pub(crate) fn emit_switch_stmt(&mut self, stmt: &Stmt, level: usize) -> (r: String)
        ensures
            (final(self).model(), r@) == lower_switch_stmt(old(self).model(), *stmt, level),
        decreases stmt, 2nat,
    {
        match stmt {
            Stmt::Switch(sw) => {
                let none: Option<String> = None;
                let inner = deeper_level(level, 1);
                self.check_switch_exhaustiveness(sw);
                let v = self.emit_expr(&sw.value, &none);
                let name = self.next_temp("sw");
                let ghost vv = v@;
                let mut out: Vec<String> = Vec::new();
                push_setup(&mut out, level, v.setup);
                push_line(&mut out, indent(level, local_assign(name.as_str(), v.expr.as_str()).as_str()));
                assert(views(out@) =~= setup_block(level, vv.setup) + seq![
                    indented(level, "local "@ + name@ + " = "@ + vv.expr),
                ]);
                let last = last_closing_case(&sw.cases);
                let ghost s3 = self.model();
                let ghost head = views(out@);
                let ghost cases = sw.cases@;
                let ghost goal = switch_walk(s3, cases, 0, seq![], seq![], false, name@, level, head);
                let mut setup: Vec<String> = Vec::new();
                let mut conds: Vec<String> = Vec::new();
                assert(views(setup@) =~= seq![]);
                assert(views(conds@) =~= seq![]);
                let mut emitted = false;
                let (has_group, bound) = match last {
                    Some(j) => (true, j),
                    None => (false, 0),
                };
                let mut i: usize = 0;
                while has_group && i <= bound && i < sw.cases.len()
                    invariant
                        i <= cases.len(),
                        cases == sw.cases@,
                        none == Option::<String>::None,
                        inner == deeper(level, 1),
                        has_group ==> bound == last_closing(cases),
                        !has_group ==> last_closing(cases) == -1,
                        decreases_to!(*stmt => sw.cases@),
                        goal == switch_walk(
                            self.model(),
                            cases,
                            i as int,
                            views(setup@),
                            views(conds@),
                            emitted,
                            name@,
                            level,
                            views(out@),
                        ),
                    decreases sw.cases.len() - i,
                {
                    let ghost st = self.model();
                    let ghost setupv = views(setup@);
                    let ghost condsv = views(conds@);
                    let ghost outv = views(out@);
                    let c = &sw.cases[i];
                    let l = self.emit_expr(&c.value, &none);
                    let ghost lv = l@;
                    append_lines(&mut setup, l.setup);
                    let mut test = string_of(name.as_str());
                    test.append(" == ");
                    let value_text = wrap_if(l.expr, operand_parens(&c.value, BinaryOp::Equal, true));
                    test.append(value_text.as_str());
                    push_line(&mut conds, test);
                    let ghost setup1 = setupv + lv.setup;
                    let ghost conds1 = condsv.push(
                        name@ + " == "@ + parens_if(
                            lv.expr,
                            operand_needs_parens(c.value, BinaryOp::Equal, true),
                        ),
                    );
                    assert(views(setup@) =~= setup1);
                    assert(views(conds@) =~= conds1);
                    if case_closes(c) {
                        let mut head_line = if emitted {
                            string_of("elseif")
                        } else {
                            string_of("if")
                        };
                        head_line.append(" ");
                        head_line.append(join_strings(&conds, " or ").as_str());
                        head_line.append(" then");
                        let ghost hv = head_line@;
                        push_setup(&mut out, level, setup);
                        setup = Vec::new();
                        conds = Vec::new();
                        push_line(&mut out, indent(level, head_line.as_str()));
                        let body = self.emit_block(&c.block, inner);
                        if !body.as_str().is_empty() {
                            push_line(&mut out, body);
                        }
                        assert(views(out@) =~= outv + setup_block(level, setup1) + seq![
                            indented(level, hv),
                        ] + nonempty(body@));
                        assert(views(setup@) =~= seq![]);
                        assert(views(conds@) =~= seq![]);
                        emitted = true;
                    }
                    i = i + 1;
                }
                let ghost walked = views(out@);
                match &sw.default {
                    Some(d) => {
                        if !has_group {
                            return self.emit_block(d, level);
                        }
                        push_line(&mut out, indent(level, "else"));
                        let body = self.emit_block(d, inner);
                        if !body.as_str().is_empty() {
                            push_line(&mut out, body);
                        }
                        push_line(&mut out, indent(level, "end"));
                        assert(views(out@) =~= walked + seq![indented(level, "else"@)] + nonempty(
                            body@,
                        ) + seq![indented(level, "end"@)]);
                    },
                    None => {
                        if has_group {
                            push_line(&mut out, indent(level, "end"));
                        }
                        assert(views(out@) =~= walked + (if has_group {
                            seq![indented(level, "end"@)]
                        } else {
                            seq![]
                        }));
                    },
                }
                join_strings(&out, "\n")
            },
            _ => String::new(),
        }
    }

    /// Lowers a `match` statement: one `do` block per arm, each testing
    /// its pattern unless an earlier arm matched.
    #[verifier::rlimit(40)]
    pub(crate) fn emit_match_stmt(&mut self, stmt: &Stmt, level: usize) -> (r: String)
        ensures
            (final(self).model(), r@) == lower_match_stmt(old(self).model(), *stmt, level),
        decreases stmt, 2nat,
    {
        match stmt {
            Stmt::Match(m) => {
                let none: Option<String> = None;
                self.check_match_exhaustiveness(m);
                let v0 = self.emit_expr(&m.value, &none);
                let v = self.capture_if_needed(v0, "m");
                let ghost vv = v@;
                let mut out: Vec<String> = Vec::new();
                push_setup(&mut out, level, v.setup);
                let matched = self.next_temp("matched");
                let mut decl = concat_text("local ", matched.as_str());
                decl.append(" = false");
                push_line(&mut out, indent(level, decl.as_str()));
                let ghost headv = views(out@);
                let ghost s4 = self.model();
                let mut arms: Vec<String> = Vec::new();
                let mut i: usize = 0;
                while i < m.cases.len()
                    invariant
                        i <= m.cases@.len(),
                        decreases_to!(*stmt => m.cases@),
                        (self.model(), views(arms@)) == match_arms(
                            s4,
                            m.cases@.subrange(0, i as int),
                            v.expr@,
                            matched@,
                            level,
                        ),
                    decreases m.cases.len() - i,
                {
                    proof {
                        assert(m.cases@.subrange(0, i + 1).drop_last() =~= m.cases@.subrange(
                            0,
                            i as int,
                        ));
                    }
                    let arm = self.emit_match_arm(&m.cases[i], v.expr.as_str(), matched.as_str(), level);
                    append_lines(&mut arms, arm);
                    i = i + 1;
                }
                assert(m.cases@.subrange(0, m.cases@.len() as int) =~= m.cases@);
                let ghost armsv = views(arms@);
                append_lines(&mut out, arms);
                assert(views(out@) =~= setup_block(level, vv.setup) + seq![
                    indented(level, "local "@ + matched@ + " = false"@),
                ] + armsv);
                join_strings(&out, "\n")
            },
            _ => String::new(),
        }
    }

    /// One arm of a `match` statement.
    #[verifier::rlimit(100)]
    #[verifier::spinoff_prover]
    pub(crate) fn emit_match_arm(&mut self, c: &MatchCase, value: &str, matched: &str, level: usize) -> (r: Vec<
        String,
    >)
        ensures
            (final(self).model(), views(r@)) == match_arm(
                old(self).model(),
                *c,
                value@,
                matched@,
                level,
            ),
        decreases c, 2nat,
    {
        let l1 = deeper_level(level, 1);
        let l2 = deeper_level(level, 2);
        let binds = self.next_temp("mbind");
        let cond = self.next_temp("mcond");
        let (psetup, pexpr) = self.emit_match_pattern_condition(&c.pattern, value, binds.as_str());
        let ghost psv = views(psetup@);
        let ghost pev = pexpr@;
        let mut arm = match_head(level, binds.as_str(), cond.as_str(), matched, psetup, pexpr.as_str());
        let ghost headv = views(arm@);
        let guard = self.emit_guard_lines(c, binds.as_str(), cond.as_str(), level);
        let ghost gv = views(guard@);
        append_lines(&mut arm, guard);
        let ghost a1 = headv + gv;
        assert(views(arm@) =~= a1);
        push_line(&mut arm, indent(l1, if_then(cond.as_str()).as_str()));
        let ghost a2 = a1 + seq![indented(l1, "if "@ + cond@ + " then"@)];
        assert(views(arm@) =~= a2);
        let mb = self.emit_match_bindings(binds.as_str(), &c.pattern, l2);
        let ghost mbv = views(mb@);
        append_lines(&mut arm, mb);
        let ghost a3 = a2 + mbv;
        assert(views(arm@) =~= a3);
        push_line(&mut arm, indent(l2, concat_text(matched, " = true").as_str()));
        let ghost a4 = a3 + seq![indented(l2, matched@ + " = true"@)];
        assert(views(arm@) =~= a4);
        let body = self.emit_block(&c.block, l2);
        if !body.as_str().is_empty() {
            push_line(&mut arm, body);
        }
        let ghost a5 = a4 + nonempty(body@);
        assert(views(arm@) =~= a5);
        push_line(&mut arm, indent(l1, "end"));
        push_line(&mut arm, indent(level, "end"));
        assert(views(arm@) =~= a5 + seq![indented(l1, "end"@), indented(level, "end"@)]);
        arm
    }

    /// The lines that run an arm's guard, if it has one.
    pub(crate) fn emit_guard_lines(&mut self, c: &MatchCase, binds: &str, cond: &str, level: usize) -> (r: Vec<
        String,
    >)
        ensures
            (final(self).model(), views(r@)) == guard_lines(
                old(self).model(),
                *c,
                binds@,
                cond@,
                level,
            ),
        decreases c, 1nat,
    {
        proof {
            reveal(guard_lines);
        }
        let l1 = deeper_level(level, 1);
        let l2 = deeper_level(level, 2);
        let mut out: Vec<String> = Vec::new();
        match &c.guard {
            Some(g) => {
                let none: Option<String> = None;
                push_line(&mut out, indent(l1, if_then(cond).as_str()));
                let mb = self.emit_match_bindings(binds, &c.pattern, l2);
                let ghost mbv = views(mb@);
                append_lines(&mut out, mb);
                let gl = self.emit_expr(g, &none);
                let ghost glv = gl@;
                push_setup(&mut out, l2, gl.setup);
                push_line(&mut out, indent(l2, assign_text(cond, gl.expr.as_str()).as_str()));
                push_line(&mut out, indent(l1, "end"));
                assert(views(out@) =~= seq![indented(l1, "if "@ + cond@ + " then"@)] + mbv
                    + setup_block(l2, glv.setup) + seq![
                    indented(l2, cond@ + " = "@ + glv.expr),
                    indented(l1, "end"@),
                ]);
            },
            None => {
                assert(views(out@) =~= seq![]);
            },
        }
        out
    }

    /// Lowers a `while` loop; a condition that needs setup is tested
    /// inside `while true`.
    pub(crate) fn emit_while_stmt(&mut self, stmt: &Stmt, level: usize) -> (r: String)
        ensures
            (final(self).model(), r@) == lower_while(old(self).model(), *stmt, level),
        decreases stmt, 2nat,
    {
        match stmt {
            Stmt::While { condition, block } => {
                let none: Option<String> = None;
                let l1 = deeper_level(level, 1);
                let c0 = self.emit_expr(condition, &none);
                let c = self.capture_if_needed(c0, "cond");
                let ghost cv = c@;
                if c.setup.len() == 0 {
                    let body = self.emit_block(block, l1);
                    let mut head = concat_text("while ", c.expr.as_str());
                    head.append(" do");
                    let ghost hv = head@;
                    let mut parts: Vec<String> = Vec::new();
                    push_line(&mut parts, indent(level, head.as_str()));
                    if !body.as_str().is_empty() {
                        push_line(&mut parts, body);
                    }
                    push_line(&mut parts, indent(level, "end"));
                    assert(views(parts@) =~= seq![indented(level, hv)] + nonempty(body@) + seq![
                        indented(level, "end"@),
                    ]);
                    return join_strings(&parts, "\n");
                }
                let guard = self.next_temp("while");
                let mut parts: Vec<String> = Vec::new();
                push_line(&mut parts, indent(level, "while true do"));
                push_setup(&mut parts, l1, c.setup);
                push_line(&mut parts, indent(l1, local_assign(guard.as_str(), c.expr.as_str()).as_str()));
                let mut test = concat_text("if not ", guard.as_str());
                test.append(" then");
                let ghost testv = test@;
                push_line(&mut parts, indent(l1, test.as_str()));
                push_line(&mut parts, indent(deeper_level(level, 2), "break"));
                push_line(&mut parts, indent(l1, "end"));
                let ghost headv = views(parts@);
                assert(headv =~= seq![indented(level, "while true do"@)] + setup_block(l1, cv.setup)
                    + seq![
                    indented(l1, "local "@ + guard@ + " = "@ + cv.expr),
                    indented(l1, testv),
                    indented(deeper(level, 2), "break"@),
                    indented(l1, "end"@),
                ]);
                let body = self.emit_block(block, l1);
                if !body.as_str().is_empty() {
                    push_line(&mut parts, body);
                }
                push_line(&mut parts, indent(level, "end"));
                assert(views(parts@) =~= headv + nonempty(body@) + seq![indented(level, "end"@)]);
                join_strings(&parts, "\n")
            },
            _ => String::new(),
        }
    }

    /// Lowers a `repeat ... until` loop.
    pub(crate) fn emit_repeat_stmt(&mut self, stmt: &Stmt, level: usize) -> (r: String)
        ensures
            (final(self).model(), r@) == lower_repeat(old(self).model(), *stmt, level),
        decreases stmt, 2nat,
    {
        match stmt {
            Stmt::Repeat { block, condition } => {
                let none: Option<String> = None;
                let l1 = deeper_level(level, 1);
                let mut parts: Vec<String> = Vec::new();
                push_line(&mut parts, indent(level, "repeat"));
                let body = self.emit_block(block, l1);
                if !body.as_str().is_empty() {
                    push_line(&mut parts, body);
                }
                let ghost headv = views(parts@);
                let c0 = self.emit_expr(condition, &none);
                let c = self.capture_if_needed(c0, "repeat");
                let ghost cv = c@;
                push_setup(&mut parts, l1, c.setup);
                push_line(&mut parts, indent(level, concat_text("until ", c.expr.as_str()).as_str()));
                assert(headv =~= seq![indented(level, "repeat"@)] + nonempty(body@));
                assert(views(parts@) =~= headv + setup_block(l1, cv.setup) + seq![
                    indented(level, "until "@ + cv.expr),
                ]);
                join_strings(&parts, "\n")
            },
            _ => String::new(),
        }
    }

    /// Lowers a numeric `for` loop.
    pub(crate) fn emit_for_numeric(&mut self, stmt: &Stmt, level: usize) -> (r: String)
        ensures
            (final(self).model(), r@) == lower_for_numeric(old(self).model(), *stmt, level),
        decreases stmt, 2nat,
    {
        match stmt {
            Stmt::ForNumeric(f) => {
                let none: Option<String> = None;
                let start = self.emit_expr(&f.start, &none);
                let end = self.emit_expr(&f.end, &none);
                let step = match &f.step {
                    Some(x) => Some(self.emit_expr(x, &none)),
                    None => None,
                };
                let ghost stepv: Option<LoweredView> = match &step {
                    Some(l) => Some(l@),
                    None => None,
                };
                let (lines, range) = numeric_range(level, start, end, step);
                let ghost linesv = views(lines@);
                let mut head = concat_text("for ", f.name.as_str());
                head.append(" = ");
                head.append(range.as_str());
                head.append(" do");
                let ghost hv = head@;
                let mut parts = lines;
                push_line(&mut parts, indent(level, head.as_str()));
                self.open_const_scope();
                self.declare_name(f.name.as_str(), false);
                let body = self.emit_block(&f.block, deeper_level(level, 1));
                self.close_const_scope();
                if !body.as_str().is_empty() {
                    push_line(&mut parts, body);
                }
                push_line(&mut parts, indent(level, "end"));
                assert(views(parts@) =~= linesv + seq![indented(level, hv)] + nonempty(body@) + seq![
                    indented(level, "end"@),
                ]);
                join_strings(&parts, "\n")
            },
            _ => String::new(),
        }
    }

    /// Lowers a generic `for ... in` loop.
    pub(crate) fn emit_for_generic(&mut self, stmt: &Stmt, level: usize) -> (r: String)
        ensures
            (final(self).model(), r@) == lower_for_generic(old(self).model(), *stmt, level),
        decreases stmt, 2nat,
    {
        match stmt {
            Stmt::ForGeneric(f) => {
                let l1 = deeper_level(level, 1);
                let (out, iters) = self.emit_stmt_exprs(&f.iterables, level);
                let (names, prologue) = self.emit_loop_bindings(&f.bindings);
                let ghost outv = views(out@);
                let ghost prov = views(prologue@);
                let mut head = concat_text("for ", join_strings(&names, ", ").as_str());
                head.append(" in ");
                head.append(join_strings(&iters, ", ").as_str());
                head.append(" do");
                let ghost hv = head@;
                let mut parts = out;
                push_line(&mut parts, indent(level, head.as_str()));
                self.open_const_scope();
                let ghost opened = self.model();
                let mut k: usize = 0;
                while k < f.bindings.len()
                    invariant
                        k <= f.bindings@.len(),
                        self.model() == loop_names_declared(opened, f.bindings@.subrange(0, k as int)),
                    decreases f.bindings.len() - k,
                {
                    assert(f.bindings@.subrange(0, k + 1).drop_last() =~= f.bindings@.subrange(
                        0,
                        k as int,
                    ));
                    self.declare_local_names(&f.bindings[k].pattern, false);
                    k = k + 1;
                }
                assert(f.bindings@.subrange(0, f.bindings@.len() as int) =~= f.bindings@);
                append_lines(&mut parts, indent_each_line(l1, prologue));
                let body = self.emit_block(&f.block, l1);
                self.close_const_scope();
                if !body.as_str().is_empty() {
                    push_line(&mut parts, body);
                }
                push_line(&mut parts, indent(level, "end"));
                assert(views(parts@) =~= outv + seq![indented(level, hv)] + indent_each(l1, prov)
                    + nonempty(body@) + seq![indented(level, "end"@)]);
                join_strings(&parts, "\n")
            },
            _ => String::new(),
        }
    }
}

/// The setup lines of a numeric `for` range and the range text.
fn numeric_range(level: usize, start: LoweredExpr, end: LoweredExpr, step: Option<LoweredExpr>) -> (r: (
    Vec<String>,
    String,
))
    ensures
        views(r.0@) == setup_block(level, start@.setup) + setup_block(level, end@.setup) + match step {
            Some(l) => setup_block(level, l@.setup),
            None => seq![],
        },
        r.1@ == start@.expr + ", "@ + end@.expr + match step {
            Some(l) => ", "@ + l@.expr,
            None => seq![],
        },
{
    let ghost sv = start@;
    let ghost ev = end@;
    let ghost stepv: Option<LoweredView> = match &step {
        Some(l) => Some(l@),
        None => None,
    };
    let mut parts: Vec<String> = Vec::new();
    push_setup(&mut parts, level, start.setup);
    push_setup(&mut parts, level, end.setup);
    let mut range = start.expr;
    range.append(", ");
    range.append(end.expr.as_str());
    let ghost before = views(parts@);
    let ghost rbefore = range@;
    match step {
        Some(l) => {
            push_setup(&mut parts, level, l.setup);
            range.append(", ");
            range.append(l.expr.as_str());
        },
        None => {},
    }
    assert(range@ =~= rbefore + match stepv {
        Some(l) => ", "@ + l.expr,
        None => seq![],
    });
    assert(views(parts@) =~= before + match stepv {
        Some(l) => setup_block(level, l.setup),
        None => seq![],
    });
    (parts, range)
}

} // verus!
