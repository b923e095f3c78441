//! Names bound by patterns, placeholder detection, literal keys and
//! operator tokens: the emitter's pure queries on the syntax tree.

use vstd::prelude::*;

use crate::ast::{
    ArrayPatternItem, BinaryOp, ChainSegment, ComprehensionClause, CompoundOp, Expr,
    MatchFieldPattern, MatchPattern, Param, Pattern, PipeStage, SwitchExprCase, TableField,
    TablePatternEntry, TableComprehensionKind,
};
use crate::text::{string_of, views};

verus! {

/// The names a pattern binds, in source order, a rest name after the
/// names of its entries.
pub open spec fn pattern_names_of(p: Pattern) -> Seq<Seq<char>>
    decreases p,
{
    match p {
        Pattern::Name(name) => seq![name@],
        Pattern::Table { entries, rest } => entry_names(entries@) + match rest {
            Some(r) => seq![r@],
            None => seq![],
        },
        Pattern::Array { items, rest } => item_names(items@) + match rest {
            Some(r) => seq![r@],
            None => seq![],
        },
    }
}

/// The names bound by the entries of a table pattern.
pub open spec fn entry_names(es: Seq<TablePatternEntry>) -> Seq<Seq<char>>
    decreases es,
{
    if es.len() == 0 {
        seq![]
    } else {
        entry_names(es.drop_last()) + pattern_names_of(es.last().binding.target)
    }
}

/// The names bound by the items of an array pattern.
pub open spec fn item_names(items: Seq<ArrayPatternItem>) -> Seq<Seq<char>>
    decreases items,
{
    if items.len() == 0 {
        seq![]
    } else {
        item_names(items.drop_last()) + match items.last().binding {
            Some(b) => pattern_names_of(b.target),
            None => seq![],
        }
    }
}

/// The name of a plain name pattern.
pub fn pattern_name(pattern: &Pattern) -> (r: Option<&String>)
    ensures
        r matches Some(n) ==> pattern == Pattern::Name(*n),
        r is None ==> !(pattern is Name),
{
    match pattern {
        Pattern::Name(name) => Some(name),
        _ => None,
    }
}

/// The names that `pattern` binds.
pub fn pattern_names(pattern: &Pattern) -> (r: Vec<String>)
    ensures
        views(r@) == pattern_names_of(*pattern),
    decreases pattern,
{
    let mut names: Vec<String> = Vec::new();
    match pattern {
        Pattern::Name(name) => {
            names.push(name.clone());
            assert(views(names@) =~= seq![name@]);
        },
        Pattern::Table { entries, rest } => {
            let mut i: usize = 0;
            while i < entries.len()
                invariant
                    i <= entries@.len(),
                    pattern == (Pattern::Table { entries: *entries, rest: *rest }),
                    decreases_to!(*pattern => entries@),
                    views(names@) == entry_names(entries@.subrange(0, i as int)),
                decreases entries.len() - i,
            {
                assert(entries@.subrange(0, i + 1).drop_last() =~= entries@.subrange(0, i as int));
                let mut inner = pattern_names(&entries[i].binding.target);
                names.append(&mut inner);
                i = i + 1;
                assert(views(names@) =~= entry_names(entries@.subrange(0, i as int)));
            }
            assert(entries@.subrange(0, entries@.len() as int) =~= entries@);
            if let Some(rest_name) = rest {
                names.push(rest_name.clone());
            }
            assert(views(names@) =~= pattern_names_of(*pattern));
        },
        Pattern::Array { items, rest } => {
            let mut i: usize = 0;
            while i < items.len()
                invariant
                    i <= items@.len(),
                    pattern == (Pattern::Array { items: *items, rest: *rest }),
                    decreases_to!(*pattern => items@),
                    views(names@) == item_names(items@.subrange(0, i as int)),
                decreases items.len() - i,
            {
                assert(items@.subrange(0, i + 1).drop_last() =~= items@.subrange(0, i as int));
                if let Some(binding) = &items[i].binding {
                    let mut inner = pattern_names(&binding.target);
                    names.append(&mut inner);
                }
                i = i + 1;
                assert(views(names@) =~= item_names(items@.subrange(0, i as int)));
            }
            assert(items@.subrange(0, items@.len() as int) =~= items@);
            if let Some(rest_name) = rest {
                names.push(rest_name.clone());
            }
            assert(views(names@) =~= pattern_names_of(*pattern));
        },
    }
    names
}


/// The names a `match` pattern binds, in source order.
pub open spec fn match_names_of(p: MatchPattern) -> Seq<Seq<char>>
    decreases p,
{
    match p {
        MatchPattern::Literal(_) => seq![],
        MatchPattern::Bind(name) => seq![name@],
        MatchPattern::Table(fields) => field_match_names(fields@),
    }
}

/// The names bound by the field patterns of a `match` table pattern.
pub open spec fn field_match_names(fs: Seq<MatchFieldPattern>) -> Seq<Seq<char>>
    decreases fs,
{
    if fs.len() == 0 {
        seq![]
    } else {
        field_match_names(fs.drop_last()) + match_names_of(fs.last().pattern)
    }
}

/// The names that a `match` pattern binds.
pub fn match_pattern_bindings(pattern: &MatchPattern) -> (r: Vec<String>)
    ensures
        views(r@) == match_names_of(*pattern),
    decreases pattern,
{
    let mut names: Vec<String> = Vec::new();
    match pattern {
        MatchPattern::Literal(_) => {
            assert(views(names@) =~= seq![]);
        },
        MatchPattern::Bind(name) => {
            names.push(name.clone());
            assert(views(names@) =~= seq![name@]);
        },
        MatchPattern::Table(fields) => {
            let mut i: usize = 0;
            while i < fields.len()
                invariant
                    i <= fields@.len(),
                    pattern == MatchPattern::Table(*fields),
                    decreases_to!(*pattern => fields@),
                    views(names@) == field_match_names(fields@.subrange(0, i as int)),
                decreases fields.len() - i,
            {
                assert(fields@.subrange(0, i + 1).drop_last() =~= fields@.subrange(0, i as int));
                let mut inner = match_pattern_bindings(&fields[i].pattern);
                names.append(&mut inner);
                i = i + 1;
                assert(views(names@) =~= field_match_names(fields@.subrange(0, i as int)));
            }
            assert(fields@.subrange(0, fields@.len() as int) =~= fields@);
        },
    }
    names
}

/// The names bound by a parameter list, in order (varargs bind none).
pub open spec fn param_names_of(ps: Seq<Param>) -> Seq<Seq<char>>
    decreases ps.len(),
{
    if ps.len() == 0 {
        seq![]
    } else {
        param_names_of(ps.drop_last()) + match ps.last() {
            Param::Binding(b) => pattern_names_of(b.pattern),
            Param::VarArg(_) => seq![],
        }
    }
}

/// The names that a parameter list binds.
pub fn collect_param_names(params: &Vec<Param>) -> (r: Vec<String>)
    ensures
        views(r@) == param_names_of(params@),
{
    let mut names: Vec<String> = Vec::new();
    let mut i: usize = 0;
    while i < params.len()
        invariant
            i <= params@.len(),
            views(names@) == param_names_of(params@.subrange(0, i as int)),
        decreases params.len() - i,
    {
        assert(params@.subrange(0, i + 1).drop_last() =~= params@.subrange(0, i as int));
        if let Param::Binding(binding) = &params[i] {
            let mut inner = pattern_names(&binding.pattern);
            names.append(&mut inner);
        }
        i = i + 1;
        assert(views(names@) =~= param_names_of(params@.subrange(0, i as int)));
    }
    assert(params@.subrange(0, params@.len() as int) =~= params@);
    names
}

/// Whether an expression mentions the pipe placeholder `_` outside nested
/// functions and the blocks of `do` expressions.
pub open spec fn has_placeholder(e: Expr) -> bool
    decreases e,
{
    match e {
        Expr::Name(name) => name@ == seq!['_'],
        Expr::Paren(inner) => has_placeholder(*inner),
        Expr::Unary { expr, .. } => has_placeholder(*expr),
        Expr::TypeAssertion { expr, .. } => has_placeholder(*expr),
        Expr::Binary { left, right, .. } => has_placeholder(*left) || has_placeholder(*right),
        Expr::Ternary { condition, then_expr, else_expr } => has_placeholder(*condition)
            || has_placeholder(*then_expr) || has_placeholder(*else_expr),
        Expr::Table(fields) => fields_have_placeholder(fields@),
        Expr::IfElse { branches, else_expr } => branches_have_placeholder(branches@)
            || has_placeholder(*else_expr),
        Expr::DoExpr { result, .. } => has_placeholder(*result),
        Expr::SwitchExpr { value, cases, default } => has_placeholder(*value)
            || cases_have_placeholder(cases@) || has_placeholder(*default),
        Expr::Chain { base, segments } => has_placeholder(*base) || segments_have_placeholder(
            segments@,
        ),
        Expr::Pipe { left, stages } => has_placeholder(*left) || stages_have_placeholder(stages@),
        Expr::Comprehension(c) => match c.kind {
            TableComprehensionKind::Array { value } => has_placeholder(*value)
                || clauses_have_placeholder(c.clauses@),
            TableComprehensionKind::KeyValue { key, value } => has_placeholder(*key) || has_placeholder(
                *value,
            ) || clauses_have_placeholder(c.clauses@),
        },
        Expr::Function(_) | Expr::Nil | Expr::Bool(_) | Expr::Number(_) | Expr::String(_)
        | Expr::VarArg => false,
    }
}

/// Whether any of `es` mentions the placeholder.
pub open spec fn exprs_have_placeholder(es: Seq<Expr>) -> bool
    decreases es,
{
    if es.len() == 0 {
        false
    } else {
        exprs_have_placeholder(es.drop_last()) || has_placeholder(es.last())
    }
}

/// Whether any table field mentions the placeholder.
pub open spec fn fields_have_placeholder(fs: Seq<TableField>) -> bool
    decreases fs,
{
    if fs.len() == 0 {
        false
    } else {
        fields_have_placeholder(fs.drop_last()) || match fs.last() {
            TableField::Named(_, v) => has_placeholder(v),
            TableField::Value(v) => has_placeholder(v),
            TableField::Indexed(k, v) => has_placeholder(k) || has_placeholder(v),
        }
    }
}

/// Whether any branch of an `if` expression mentions the placeholder.
pub open spec fn branches_have_placeholder(bs: Seq<(Expr, Expr)>) -> bool
    decreases bs,
{
    if bs.len() == 0 {
        false
    } else {
        branches_have_placeholder(bs.drop_last()) || has_placeholder(bs.last().0) || has_placeholder(
            bs.last().1,
        )
    }
}

/// Whether any case of a `switch` expression mentions the placeholder.
pub open spec fn cases_have_placeholder(cs: Seq<SwitchExprCase>) -> bool
    decreases cs,
{
    if cs.len() == 0 {
        false
    } else {
        cases_have_placeholder(cs.drop_last()) || has_placeholder(cs.last().value) || has_placeholder(
            cs.last().result,
        )
    }
}

/// Whether any chain segment mentions the placeholder.
pub open spec fn segments_have_placeholder(ss: Seq<ChainSegment>) -> bool
    decreases ss,
{
    if ss.len() == 0 {
        false
    } else {
        segments_have_placeholder(ss.drop_last()) || match ss.last() {
            ChainSegment::Field { .. } => false,
            ChainSegment::Index { expr, .. } => has_placeholder(*expr),
            ChainSegment::Call { args } => exprs_have_placeholder(args@),
            ChainSegment::MethodCall { args, .. } => exprs_have_placeholder(args@),
        }
    }
}

/// Whether any pipe stage mentions the placeholder.
pub open spec fn stages_have_placeholder(ss: Seq<PipeStage>) -> bool
    decreases ss,
{
    if ss.len() == 0 {
        false
    } else {
        stages_have_placeholder(ss.drop_last()) || match ss.last() {
            PipeStage::Method { args, .. } => exprs_have_placeholder(args@),
            PipeStage::Call { args, .. } => exprs_have_placeholder(args@),
            PipeStage::Expr { callee } => has_placeholder(*callee),
        }
    }
}

/// Whether any comprehension clause mentions the placeholder.
pub open spec fn clauses_have_placeholder(cs: Seq<ComprehensionClause>) -> bool
    decreases cs,
{
    if cs.len() == 0 {
        false
    } else {
        clauses_have_placeholder(cs.drop_last()) || match cs.last() {
            ComprehensionClause::GenericFor { iterables, .. } => exprs_have_placeholder(
                iterables@,
            ),
            ComprehensionClause::NumericFor { start, end, step, .. } => has_placeholder(start)
                || has_placeholder(end) || match step {
                Some(s) => has_placeholder(s),
                None => false,
            },
            ComprehensionClause::Filter(e) => has_placeholder(e),
        }
    }
}

pub(crate) fn exprs_contain_placeholder(es: &Vec<Expr>) -> (b: bool)
    ensures
        b == exprs_have_placeholder(es@),
    decreases es,
{
    let mut i: usize = 0;
    while i < es.len()
        invariant
            i <= es@.len(),
            !exprs_have_placeholder(es@.subrange(0, i as int)),
            decreases_to!(*es => es@),
        decreases es.len() - i,
    {
        assert(es@.subrange(0, i + 1).drop_last() =~= es@.subrange(0, i as int));
        if contains_placeholder(&es[i]) {
            proof {
                lemma_any_prefix_exprs(es@, i as int + 1);
            }
            return true;
        }
        i = i + 1;
    }
    assert(es@.subrange(0, es@.len() as int) =~= es@);
    false
}

proof fn lemma_any_prefix_exprs(es: Seq<Expr>, n: int)
    requires
        0 < n <= es.len(),
        exprs_have_placeholder(es.subrange(0, n)),
    ensures
        exprs_have_placeholder(es),
    decreases es.len(),
{
    if n < es.len() {
        assert(es.drop_last().subrange(0, n) =~= es.subrange(0, n));
        lemma_any_prefix_exprs(es.drop_last(), n);
    } else {
        assert(es.subrange(0, n) =~= es);
    }
}

/// Whether `expr` mentions the pipe placeholder `_`.
pub fn contains_placeholder(expr: &Expr) -> (b: bool)
    ensures
        b == has_placeholder(*expr),
    decreases expr,
{
    match expr {
        Expr::Name(name) => {
            let under = string_of("_");
            proof {
                reveal_strlit("_");
                assert(under@ =~= seq!['_']);
            }
            *name == under
        },
        Expr::Paren(inner) => contains_placeholder(inner),
        Expr::Unary { expr, .. } => contains_placeholder(expr),
        Expr::TypeAssertion { expr, .. } => contains_placeholder(expr),
        Expr::Binary { left, right, .. } => contains_placeholder(left) || contains_placeholder(
            right,
        ),
        Expr::Ternary { condition, then_expr, else_expr } => contains_placeholder(condition)
            || contains_placeholder(then_expr) || contains_placeholder(else_expr),
        Expr::Table(fields) => {
            let mut i: usize = 0;
            while i < fields.len()
                invariant
                    i <= fields@.len(),
                    expr == Expr::Table(*fields),
                    decreases_to!(*expr => fields@),
                    !fields_have_placeholder(fields@.subrange(0, i as int)),
                decreases fields.len() - i,
            {
                assert(fields@.subrange(0, i + 1).drop_last() =~= fields@.subrange(0, i as int));
                let hit = match &fields[i] {
                    TableField::Named(_, value) => contains_placeholder(value),
                    TableField::Value(value) => contains_placeholder(value),
                    TableField::Indexed(key, value) => contains_placeholder(key)
                        || contains_placeholder(value),
                };
                if hit {
                    proof {
                        lemma_any_prefix_fields(fields@, i as int + 1);
                    }
                    return true;
                }
                i = i + 1;
            }
            assert(fields@.subrange(0, fields@.len() as int) =~= fields@);
            false
        },
        Expr::IfElse { branches, else_expr } => {
            let mut i: usize = 0;
            while i < branches.len()
                invariant
                    i <= branches@.len(),
                    expr == (Expr::IfElse { branches: *branches, else_expr: *else_expr }),
                    decreases_to!(*expr => branches@),
                    !branches_have_placeholder(branches@.subrange(0, i as int)),
                decreases branches.len() - i,
            {
                assert(branches@.subrange(0, i + 1).drop_last() =~= branches@.subrange(
                    0,
                    i as int,
                ));
                if contains_placeholder(&branches[i].0) || contains_placeholder(&branches[i].1) {
                    proof {
                        lemma_any_prefix_branches(branches@, i as int + 1);
                    }
                    return true;
                }
                i = i + 1;
            }
            assert(branches@.subrange(0, branches@.len() as int) =~= branches@);
            contains_placeholder(else_expr)
        },
        Expr::DoExpr { result, .. } => contains_placeholder(result),
        Expr::SwitchExpr { value, cases, default } => {
            if contains_placeholder(value) {
                return true;
            }
            let mut i: usize = 0;
            while i < cases.len()
                invariant
                    i <= cases@.len(),
                    expr == (Expr::SwitchExpr { value: *value, cases: *cases, default: *default }),
                    decreases_to!(*expr => cases@),
                    !cases_have_placeholder(cases@.subrange(0, i as int)),
                decreases cases.len() - i,
            {
                assert(cases@.subrange(0, i + 1).drop_last() =~= cases@.subrange(0, i as int));
                if contains_placeholder(&cases[i].value) || contains_placeholder(&cases[i].result) {
                    proof {
                        lemma_any_prefix_cases(cases@, i as int + 1);
                    }
                    return true;
                }
                i = i + 1;
            }
            assert(cases@.subrange(0, cases@.len() as int) =~= cases@);
            contains_placeholder(default)
        },
        Expr::Chain { base, segments } => {
            if contains_placeholder(base) {
                return true;
            }
            let mut i: usize = 0;
            while i < segments.len()
                invariant
                    i <= segments@.len(),
                    expr == (Expr::Chain { base: *base, segments: *segments }),
                    decreases_to!(*expr => segments@),
                    !segments_have_placeholder(segments@.subrange(0, i as int)),
                decreases segments.len() - i,
            {
                assert(segments@.subrange(0, i + 1).drop_last() =~= segments@.subrange(
                    0,
                    i as int,
                ));
                let hit = match &segments[i] {
                    ChainSegment::Field { .. } => false,
                    ChainSegment::Index { expr, .. } => contains_placeholder(expr),
                    ChainSegment::Call { args } => exprs_contain_placeholder(args),
                    ChainSegment::MethodCall { args, .. } => exprs_contain_placeholder(args),
                };
                if hit {
                    proof {
                        lemma_any_prefix_segments(segments@, i as int + 1);
                    }
                    return true;
                }
                i = i + 1;
            }
            assert(segments@.subrange(0, segments@.len() as int) =~= segments@);
            false
        },
        Expr::Pipe { left, stages } => {
            if contains_placeholder(left) {
                return true;
            }
            let mut i: usize = 0;
            while i < stages.len()
                invariant
                    i <= stages@.len(),
                    expr == (Expr::Pipe { left: *left, stages: *stages }),
                    decreases_to!(*expr => stages@),
                    !stages_have_placeholder(stages@.subrange(0, i as int)),
                decreases stages.len() - i,
            {
                assert(stages@.subrange(0, i + 1).drop_last() =~= stages@.subrange(0, i as int));
                let hit = match &stages[i] {
                    PipeStage::Method { args, .. } => exprs_contain_placeholder(args),
                    PipeStage::Call { args, .. } => exprs_contain_placeholder(args),
                    PipeStage::Expr { callee } => contains_placeholder(callee),
                };
                if hit {
                    proof {
                        lemma_any_prefix_stages(stages@, i as int + 1);
                    }
                    return true;
                }
                i = i + 1;
            }
            assert(stages@.subrange(0, stages@.len() as int) =~= stages@);
            false
        },
        Expr::Comprehension(comprehension) => {
            let kind_hit = match &comprehension.kind {
                TableComprehensionKind::Array { value } => contains_placeholder(value),
                TableComprehensionKind::KeyValue { key, value } => contains_placeholder(key)
                    || contains_placeholder(value),
            };
            if kind_hit {
                return true;
            }
            let clauses = &comprehension.clauses;
            let mut i: usize = 0;
            while i < clauses.len()
                invariant
                    i <= clauses@.len(),
                    expr == Expr::Comprehension(*comprehension),
                    clauses == comprehension.clauses,
                    decreases_to!(*expr => clauses@),
                    !clauses_have_placeholder(clauses@.subrange(0, i as int)),
                decreases clauses.len() - i,
            {
                assert(clauses@.subrange(0, i + 1).drop_last() =~= clauses@.subrange(0, i as int));
                let hit = match &clauses[i] {
                    ComprehensionClause::GenericFor { iterables, .. } => exprs_contain_placeholder(
                        iterables,
                    ),
                    ComprehensionClause::NumericFor { start, end, step, .. } => {
                        contains_placeholder(start) || contains_placeholder(end) || match step {
                            Some(step) => contains_placeholder(step),
                            None => false,
                        }
                    },
                    ComprehensionClause::Filter(e) => contains_placeholder(e),
                };
                if hit {
                    proof {
                        lemma_any_prefix_clauses(clauses@, i as int + 1);
                    }
                    return true;
                }
                i = i + 1;
            }
            assert(clauses@.subrange(0, clauses@.len() as int) =~= clauses@);
            false
        },
        Expr::Function(_) | Expr::Nil | Expr::Bool(_) | Expr::Number(_) | Expr::String(_)
        | Expr::VarArg => false,
    }
}

proof fn lemma_any_prefix_fields(fs: Seq<TableField>, n: int)
    requires
        0 < n <= fs.len(),
        fields_have_placeholder(fs.subrange(0, n)),
    ensures
        fields_have_placeholder(fs),
    decreases fs.len(),
{
    if n < fs.len() {
        assert(fs.drop_last().subrange(0, n) =~= fs.subrange(0, n));
        lemma_any_prefix_fields(fs.drop_last(), n);
    } else {
        assert(fs.subrange(0, n) =~= fs);
    }
}

proof fn lemma_any_prefix_branches(bs: Seq<(Expr, Expr)>, n: int)
    requires
        0 < n <= bs.len(),
        branches_have_placeholder(bs.subrange(0, n)),
    ensures
        branches_have_placeholder(bs),
    decreases bs.len(),
{
    if n < bs.len() {
        assert(bs.drop_last().subrange(0, n) =~= bs.subrange(0, n));
        lemma_any_prefix_branches(bs.drop_last(), n);
    } else {
        assert(bs.subrange(0, n) =~= bs);
    }
}

proof fn lemma_any_prefix_cases(cs: Seq<SwitchExprCase>, n: int)
    requires
        0 < n <= cs.len(),
        cases_have_placeholder(cs.subrange(0, n)),
    ensures
        cases_have_placeholder(cs),
    decreases cs.len(),
{
    if n < cs.len() {
        assert(cs.drop_last().subrange(0, n) =~= cs.subrange(0, n));
        lemma_any_prefix_cases(cs.drop_last(), n);
    } else {
        assert(cs.subrange(0, n) =~= cs);
    }
}

proof fn lemma_any_prefix_segments(ss: Seq<ChainSegment>, n: int)
    requires
        0 < n <= ss.len(),
        segments_have_placeholder(ss.subrange(0, n)),
    ensures
        segments_have_placeholder(ss),
    decreases ss.len(),
{
    if n < ss.len() {
        assert(ss.drop_last().subrange(0, n) =~= ss.subrange(0, n));
        lemma_any_prefix_segments(ss.drop_last(), n);
    } else {
        assert(ss.subrange(0, n) =~= ss);
    }
}

proof fn lemma_any_prefix_stages(ss: Seq<PipeStage>, n: int)
    requires
        0 < n <= ss.len(),
        stages_have_placeholder(ss.subrange(0, n)),
    ensures
        stages_have_placeholder(ss),
    decreases ss.len(),
{
    if n < ss.len() {
        assert(ss.drop_last().subrange(0, n) =~= ss.subrange(0, n));
        lemma_any_prefix_stages(ss.drop_last(), n);
    } else {
        assert(ss.subrange(0, n) =~= ss);
    }
}

proof fn lemma_any_prefix_clauses(cs: Seq<ComprehensionClause>, n: int)
    requires
        0 < n <= cs.len(),
        clauses_have_placeholder(cs.subrange(0, n)),
    ensures
        clauses_have_placeholder(cs),
    decreases cs.len(),
{
    if n < cs.len() {
        assert(cs.drop_last().subrange(0, n) =~= cs.subrange(0, n));
        lemma_any_prefix_clauses(cs.drop_last(), n);
    } else {
        assert(cs.subrange(0, n) =~= cs);
    }
}

/// The text of a literal key: strings and numbers as written, `true`,
/// `false`, `nil`, through parentheses.
pub open spec fn literal_key_of(e: Expr) -> Option<Seq<char>>
    decreases e,
{
    match e {
        Expr::String(v) => Some(v@),
        Expr::Number(v) => Some(v@),
        Expr::Bool(b) => Some(
            if b {
                "true"@
            } else {
                "false"@
            },
        ),
        Expr::Nil => Some("nil"@),
        Expr::Paren(inner) => literal_key_of(*inner),
        _ => None,
    }
}

/// The key text of a literal expression.
pub fn literal_key(expr: &Expr) -> (r: Option<String>)
    ensures
        r matches Some(k) ==> literal_key_of(*expr) == Some(k@),
        r is None ==> literal_key_of(*expr) is None,
    decreases expr,
{
    match expr {
        Expr::String(value) => Some(value.clone()),
        Expr::Number(value) => Some(value.clone()),
        Expr::Bool(value) => Some(
            if *value {
                string_of("true")
            } else {
                string_of("false")
            },
        ),
        Expr::Nil => Some(string_of("nil")),
        Expr::Paren(inner) => literal_key(inner),
        _ => None,
    }
}

/// The Luau token of a binary operator (`??` stays `??`).
pub open spec fn binary_token_of(op: BinaryOp) -> Seq<char> {
    match op {
        BinaryOp::Or => "or"@,
        BinaryOp::And => "and"@,
        BinaryOp::Less => "<"@,
        BinaryOp::LessEqual => "<="@,
        BinaryOp::Greater => ">"@,
        BinaryOp::GreaterEqual => ">="@,
        BinaryOp::Equal => "=="@,
        BinaryOp::NotEqual => "~="@,
        BinaryOp::Concat => ".."@,
        BinaryOp::Add => "+"@,
        BinaryOp::Subtract => "-"@,
        BinaryOp::Multiply => "*"@,
        BinaryOp::Divide => "/"@,
        BinaryOp::FloorDivide => "//"@,
        BinaryOp::Modulo => "%"@,
        BinaryOp::Power => "^"@,
        BinaryOp::Nullish => "??"@,
    }
}

/// The Luau token of a binary operator.
pub fn binary_token(op: BinaryOp) -> (r: &'static str)
    ensures
        r@ == binary_token_of(op),
{
    match op {
        BinaryOp::Or => "or",
        BinaryOp::And => "and",
        BinaryOp::Less => "<",
        BinaryOp::LessEqual => "<=",
        BinaryOp::Greater => ">",
        BinaryOp::GreaterEqual => ">=",
        BinaryOp::Equal => "==",
        BinaryOp::NotEqual => "~=",
        BinaryOp::Concat => "..",
        BinaryOp::Add => "+",
        BinaryOp::Subtract => "-",
        BinaryOp::Multiply => "*",
        BinaryOp::Divide => "/",
        BinaryOp::FloorDivide => "//",
        BinaryOp::Modulo => "%",
        BinaryOp::Power => "^",
        BinaryOp::Nullish => "??",
    }
}

/// The arithmetic token a compound assignment expands to.
pub open spec fn compound_token_of(op: CompoundOp) -> Seq<char> {
    match op {
        CompoundOp::Add => "+"@,
        CompoundOp::Subtract => "-"@,
        CompoundOp::Multiply => "*"@,
        CompoundOp::Divide => "/"@,
        CompoundOp::FloorDivide => "//"@,
        CompoundOp::Modulo => "%"@,
        CompoundOp::Power => "^"@,
        CompoundOp::Concat => ".."@,
    }
}

/// The arithmetic token a compound assignment expands to.
pub fn compound_token(op: CompoundOp) -> (r: &'static str)
    ensures
        r@ == compound_token_of(op),
{
    match op {
        CompoundOp::Add => "+",
        CompoundOp::Subtract => "-",
        CompoundOp::Multiply => "*",
        CompoundOp::Divide => "/",
        CompoundOp::FloorDivide => "//",
        CompoundOp::Modulo => "%",
        CompoundOp::Power => "^",
        CompoundOp::Concat => "..",
    }
}

} // verus!
