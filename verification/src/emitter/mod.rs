//! Lowering of the XLuau syntax tree to Luau source text.
//!
//! The emitter's state is modelled by `EmitState`: the counter of
//! temporaries, the stack of scopes of `const` names, the stack of scopes of
//! binding type names, the known type shapes and the semantic errors so far.
//! Every lowering function is specified by a spec function over that model.

pub mod assign;
pub mod control;
pub mod expr;
pub mod laws;
pub mod lowering;
pub mod meaning;
pub mod names;
pub mod pattern;
pub mod stmt;
pub mod types;

use vstd::prelude::*;

use crate::ast::Program;
use crate::compiler::CompilerError;
use crate::text::{
    concat2, concat3, indent_string, join, lines, lines_of, push_char, spaces, string_of, views,
};
use self::lowering::lower_block;
use self::types::{clone_strings, ShapeView, TypeShape};

verus! {

/// The abstract state of an emitter.
pub struct EmitState {
    pub temp: usize,
    pub consts: Seq<Seq<(Seq<char>, bool)>>,
    pub types: Seq<Seq<(Seq<char>, Seq<char>)>>,
    pub defs: Seq<(Seq<char>, ShapeView)>,
    pub errors: Seq<Seq<char>>,
}

/// A lowered expression: setup lines to run first, the expression text,
/// and whether the text may be evaluated again without repeating effects.
pub struct LoweredView {
    pub setup: Seq<Seq<char>>,
    pub expr: Seq<char>,
    pub reuse_safe: bool,
}

/// A lowered expression.
pub struct LoweredExpr {
    pub setup: Vec<String>,
    pub expr: String,
    pub reuse_safe: bool,
}

impl View for LoweredExpr {
    type V = LoweredView;

    open spec fn view(&self) -> LoweredView {
        LoweredView { setup: views(self.setup@), expr: self.expr@, reuse_safe: self.reuse_safe }
    }
}

/// The name-to-type pairs of a scope.
pub open spec fn pair_views(v: Seq<(String, String)>) -> Seq<(Seq<char>, Seq<char>)> {
    v.map_values(|p: (String, String)| (p.0@, p.1@))
}

/// The declarations of a scope: each name with whether it is a constant.
pub open spec fn decl_views(v: Seq<(String, bool)>) -> Seq<(Seq<char>, bool)> {
    v.map_values(|p: (String, bool)| (p.0@, p.1))
}

/// Whether the latest declaration of `name` in a scope is a constant;
/// `None` when the scope does not declare it.
pub open spec fn scope_decl(scope: Seq<(Seq<char>, bool)>, name: Seq<char>) -> Option<bool>
    decreases scope.len(),
{
    if scope.len() == 0 {
        None
    } else if scope.last().0 == name {
        Some(scope.last().1)
    } else {
        scope_decl(scope.drop_last(), name)
    }
}

/// Whether the innermost declaration of `name` is a constant; `None` when
/// no open scope declares it.
pub open spec fn visible_decl(scopes: Seq<Seq<(Seq<char>, bool)>>, name: Seq<char>) -> Option<bool>
    decreases scopes.len(),
{
    if scopes.len() == 0 {
        None
    } else {
        match scope_decl(scopes.last(), name) {
            Some(b) => Some(b),
            None => visible_decl(scopes.drop_last(), name),
        }
    }
}

/// The known type shapes.
pub open spec fn def_views(v: Seq<(String, TypeShape)>) -> Seq<(Seq<char>, ShapeView)> {
    v.map_values(|p: (String, TypeShape)| (p.0@, p.1@))
}

/// Lowers a syntax tree to Luau source while tracking constants, binding
/// types, type shapes and semantic errors.
pub struct Emitter {
    pub(crate) temp_counter: usize,
    pub(crate) const_scopes: Vec<Vec<(String, bool)>>,
    pub(crate) type_scopes: Vec<Vec<(String, String)>>,
    pub(crate) type_defs: Vec<(String, TypeShape)>,
    pub(crate) errors: Vec<String>,
}

impl View for Emitter {
    type V = EmitState;

    closed spec fn view(&self) -> EmitState {
        self.model()
    }
}

impl Emitter {
    /// The abstract state of the emitter (its view).
    pub(crate) open spec fn model(&self) -> EmitState {
        EmitState {
            temp: self.temp_counter,
            consts: self.const_scopes@.map_values(|v: Vec<(String, bool)>| decl_views(v@)),
            types: self.type_scopes@.map_values(|v: Vec<(String, String)>| pair_views(v@)),
            defs: def_views(self.type_defs@),
            errors: views(self.errors@),
        }
    }
}

/// The decimal digits of `n`.
pub open spec fn decimal(n: nat) -> Seq<char>
    decreases n,
{
    if n < 10 {
        seq![digit_char(n)]
    } else {
        decimal(n / 10).push(digit_char(n % 10))
    }
}

/// The digit character for `d < 10`.
pub open spec fn digit_char(d: nat) -> char {
    ((d + '0' as nat) as u32) as char
}

/// The name of the temporary number `n` with `prefix`: `_{prefix}{n}`.
pub open spec fn temp_name(prefix: Seq<char>, n: usize) -> Seq<char> {
    seq!['_'] + prefix + decimal(n as nat)
}

/// The counter after one more temporary (wrapping as `usize` does).
pub open spec fn next_count(n: usize) -> usize {
    if n == usize::MAX {
        0
    } else {
        (n + 1) as usize
    }
}

/// An indentation level `k` deeper than `n`, staying at the largest level.
pub open spec fn deeper(n: usize, k: usize) -> usize {
    if n + k > usize::MAX {
        usize::MAX
    } else {
        (n + k) as usize
    }
}

/// `text` indented by `level` levels of four spaces.
pub open spec fn indented(level: usize, text: Seq<char>) -> Seq<char> {
    spaces(4 * level as nat) + text
}

/// The lines of `text`, each indented, empty lines kept empty.
pub open spec fn multiline(level: usize, text: Seq<char>) -> Seq<Seq<char>> {
    lines(text).map_values(
        |l: Seq<char>|
            if l.len() == 0 {
                l
            } else {
                indented(level, l)
            },
    )
}

/// The setup lines, split at newlines, indented, empty lines kept empty.
pub open spec fn setup_block(level: usize, setup: Seq<Seq<char>>) -> Seq<Seq<char>>
    decreases setup.len(),
{
    if setup.len() == 0 {
        seq![]
    } else {
        setup_block(level, setup.drop_last()) + multiline(level, setup.last())
    }
}

/// The lines, split at newlines, every one indented.
pub open spec fn indent_all(level: usize, ls: Seq<Seq<char>>) -> Seq<Seq<char>>
    decreases ls.len(),
{
    if ls.len() == 0 {
        seq![]
    } else {
        indent_all(level, ls.drop_last()) + indent_each(level, lines(ls.last()))
    }
}

/// Every line indented.
pub open spec fn indent_each(level: usize, ls: Seq<Seq<char>>) -> Seq<Seq<char>> {
    ls.map_values(|l: Seq<char>| indented(level, l))
}

/// The state of a new emitter: one open scope, nothing declared, no
/// temporary taken and no error.
pub open spec fn initial_state() -> EmitState {
    EmitState { temp: 0, consts: seq![seq![]], types: seq![seq![]], defs: seq![], errors: seq![] }
}

impl EmitState {
    /// The state after taking a temporary, and the temporary's name.
    pub open spec fn fresh(self, prefix: Seq<char>) -> (EmitState, Seq<char>) {
        (EmitState { temp: next_count(self.temp), ..self }, temp_name(prefix, self.temp))
    }

    /// Whether `name` is a constant: its innermost declaration in the open
    /// scopes is a `const`.
    pub open spec fn is_const(self, name: Seq<char>) -> bool {
        visible_decl(self.consts, name) == Some(true)
    }

    /// The state after declaring `name` in the innermost scope, as a
    /// constant when `is_const`; a later declaration shadows earlier ones.
    pub open spec fn declare(self, name: Seq<char>, is_const: bool) -> EmitState {
        if self.consts.len() > 0 {
            EmitState {
                consts: self.consts.update(
                    self.consts.len() - 1,
                    self.consts.last().push((name, is_const)),
                ),
                ..self
            }
        } else {
            self
        }
    }

    /// The state with one more error.
    pub open spec fn fail(self, message: Seq<char>) -> EmitState {
        EmitState { errors: self.errors.push(message), ..self }
    }

    /// The state with a new innermost scope of constants and of types.
    pub open spec fn open_scopes(self) -> EmitState {
        EmitState { consts: self.consts.push(seq![]), types: self.types.push(seq![]), ..self }
    }

    /// The state with the innermost scopes of constants and types closed
    /// (an empty stack stays empty).
    pub open spec fn close_scopes(self) -> EmitState {
        EmitState {
            consts: if self.consts.len() > 0 {
                self.consts.drop_last()
            } else {
                self.consts
            },
            types: if self.types.len() > 0 {
                self.types.drop_last()
            } else {
                self.types
            },
            ..self
        }
    }

    /// The state with a new innermost scope of constants.
    pub open spec fn open_const_scope(self) -> EmitState {
        EmitState { consts: self.consts.push(seq![]), ..self }
    }

    /// The state with the innermost scope of constants closed.
    pub open spec fn close_const_scope(self) -> EmitState {
        EmitState {
            consts: if self.consts.len() > 0 {
                self.consts.drop_last()
            } else {
                self.consts
            },
            ..self
        }
    }
}

/// The lowering of a name, literal or other text that needs no setup.
pub open spec fn simple(expr: Seq<char>, reuse_safe: bool) -> LoweredView {
    LoweredView { setup: seq![], expr, reuse_safe }
}

/// `lowered`, or its value stored once in a fresh temporary when it may
/// not be evaluated twice.
pub open spec fn capture(st: EmitState, lowered: LoweredView, prefix: Seq<char>) -> (
    EmitState,
    LoweredView,
) {
    if lowered.reuse_safe {
        (st, lowered)
    } else {
        let (st2, temp) = st.fresh(prefix);
        (
            st2,
            LoweredView {
                setup: lowered.setup.push("local "@ + temp + " = "@ + lowered.expr),
                expr: temp,
                reuse_safe: true,
            },
        )
    }
}

/// The decimal text of `n`.
pub fn decimal_string(n: usize) -> (r: String)
    ensures
        r@ == decimal(n as nat),
{
    decimal_wide(n as u128)
}

/// The decimal text of a wide number.
pub fn decimal_wide(n: u128) -> (r: String)
    ensures
        r@ == decimal(n as nat),
    decreases n,
{
    let d = (n % 10) as u32;
    let c = char_from_digit(d);
    if n < 10 {
        let mut r = String::new();
        push_char(&mut r, c);
        assert(r@ =~= seq![c]);
        r
    } else {
        let mut r = decimal_wide(n / 10);
        push_char(&mut r, c);
        r
    }
}

/// The character of the digit `d`.
fn char_from_digit(d: u32) -> (c: char)
    requires
        d < 10,
    ensures
        c == digit_char(d as nat),
{
    if d == 0 {
        '0'
    } else if d == 1 {
        '1'
    } else if d == 2 {
        '2'
    } else if d == 3 {
        '3'
    } else if d == 4 {
        '4'
    } else if d == 5 {
        '5'
    } else if d == 6 {
        '6'
    } else if d == 7 {
        '7'
    } else if d == 8 {
        '8'
    } else {
        '9'
    }
}

/// `n` levels deeper than `level`, staying at the largest level.
pub fn deeper_level(level: usize, k: usize) -> (r: usize)
    ensures
        r == deeper(level, k),
{
    if level > usize::MAX - k {
        usize::MAX
    } else {
        level + k
    }
}

/// `text` indented by `level` levels.
pub fn indent(level: usize, text: &str) -> (r: String)
    ensures
        r@ == indented(level, text@),
{
    let mut r = indent_string(level);
    r.append(text);
    r
}

/// Appends the lines of `text` to `output`, indented, empty ones empty.
pub fn push_multiline(output: &mut Vec<String>, level: usize, text: &str)
    ensures
        views(final(output)@) == views(old(output)@) + multiline(level, text@),
{
    let ls = lines_of(text);
    let ghost start = views(output@);
    let ghost target = multiline(level, text@);
    let mut i: usize = 0;
    while i < ls.len()
        invariant
            i <= ls@.len(),
            views(ls@) == lines(text@),
            target == multiline(level, text@),
            views(output@) == start + target.subrange(0, i as int),
        decreases ls.len() - i,
    {
        assert(views(ls@)[i as int] == ls@[i as int]@);
        let ghost prev = output@;
        let line = if ls[i].as_str().is_empty() {
            let e = String::new();
            assert(e@ =~= ls@[i as int]@);
            e
        } else {
            indent(level, ls[i].as_str())
        };
        assert(line@ == target[i as int]);
        output.push(line);
        assert(views(output@) =~= views(prev).push(line@));
        i = i + 1;
        assert(views(output@) =~= start + target.subrange(0, i as int));
    }
    assert(target.subrange(0, ls@.len() as int) =~= target);
}

/// Appends the setup lines to `output`, indented.
pub fn push_setup(output: &mut Vec<String>, level: usize, setup: Vec<String>)
    ensures
        views(final(output)@) == views(old(output)@) + setup_block(level, views(setup@)),
{
    let ghost start = views(output@);
    let ghost vs = views(setup@);
    let mut i: usize = 0;
    while i < setup.len()
        invariant
            i <= setup@.len(),
            vs == views(setup@),
            views(output@) == start + setup_block(level, vs.subrange(0, i as int)),
        decreases setup.len() - i,
    {
        assert(vs.subrange(0, i + 1).drop_last() =~= vs.subrange(0, i as int));
        assert(vs[i as int] == setup@[i as int]@);
        push_multiline(output, level, setup[i].as_str());
        i = i + 1;
        assert(views(output@) =~= start + setup_block(level, vs.subrange(0, i as int)));
    }
    assert(vs.subrange(0, setup@.len() as int) =~= vs);
}

/// The lines, split at newlines and all indented.
pub fn indent_lines(level: usize, ls: Vec<String>) -> (r: Vec<String>)
    ensures
        views(r@) == indent_all(level, views(ls@)),
{
    let ghost vs = views(ls@);
    let mut result: Vec<String> = Vec::new();
    let mut i: usize = 0;
    while i < ls.len()
        invariant
            i <= ls@.len(),
            vs == views(ls@),
            views(result@) == indent_all(level, vs.subrange(0, i as int)),
        decreases ls.len() - i,
    {
        assert(vs.subrange(0, i + 1).drop_last() =~= vs.subrange(0, i as int));
        assert(vs[i as int] == ls@[i as int]@);
        let inner = lines_of(ls[i].as_str());
        let ghost before = views(result@);
        let ghost piece = indent_each(level, lines(ls@[i as int]@));
        let mut j: usize = 0;
        while j < inner.len()
            invariant
                j <= inner@.len(),
                i < ls@.len(),
                views(inner@) == lines(ls@[i as int]@),
                piece == indent_each(level, lines(ls@[i as int]@)),
                views(result@) == before + piece.subrange(0, j as int),
            decreases inner.len() - j,
        {
            assert(views(inner@)[j as int] == inner@[j as int]@);
            let ghost prev = result@;
            let line = indent(level, inner[j].as_str());
            assert(line@ == piece[j as int]);
            result.push(line);
            assert(views(result@) =~= views(prev).push(line@));
            j = j + 1;
            assert(views(result@) =~= before + piece.subrange(0, j as int));
        }
        assert(piece.subrange(0, inner@.len() as int) =~= piece);
        i = i + 1;
        assert(views(result@) =~= indent_all(level, vs.subrange(0, i as int)));
    }
    assert(vs.subrange(0, ls@.len() as int) =~= vs);
    result
}

impl Emitter {
    /// An emitter with one open scope and nothing declared.
    pub fn new() -> (e: Emitter)
        ensures
            e@ == initial_state(),
    {
        let mut const_scopes: Vec<Vec<(String, bool)>> = Vec::new();
        const_scopes.push(Vec::new());
        let mut type_scopes: Vec<Vec<(String, String)>> = Vec::new();
        type_scopes.push(Vec::new());
        let e = Emitter {
            temp_counter: 0,
            const_scopes,
            type_scopes,
            type_defs: Vec::new(),
            errors: Vec::new(),
        };
        assert(e.model().consts =~~= seq![seq![]]);
        assert(e.model().types =~~= seq![seq![]]);
        assert(e.model().defs =~= seq![]);
        assert(e.model().errors =~= seq![]);
        e
    }

    /// Lowers a whole program at the top level. The output is returned when
    /// lowering recorded no semantic error; otherwise the errors are.
    pub fn emit_program(&mut self, program: &Program) -> (r: Result<String, CompilerError>)
        ensures
            final(self)@ == lower_block(old(self)@, program.block@, 0).0,
            r is Ok <==> final(self)@.errors.len() == 0,
            r matches Ok(s) ==> s@ == lower_block(old(self)@, program.block@, 0).1,
            r matches Err(e) ==> (e matches CompilerError::Semantic { messages } && views(messages@)
                == final(self)@.errors),
    {
        let output = self.emit_block(&program.block, 0);
        if self.errors.len() == 0 {
            Ok(output)
        } else {
            Err(CompilerError::Semantic { messages: clone_strings(&self.errors) })
        }
    }

    /// A fresh temporary name `_{prefix}{n}`.
    pub(crate) fn next_temp(&mut self, prefix: &str) -> (r: String)
        ensures
            (final(self).model(), r@) == old(self).model().fresh(prefix@),
    {
        let mut r = String::new();
        push_char(&mut r, '_');
        r.append(prefix);
        let digits = decimal_string(self.temp_counter);
        r.append(digits.as_str());
        self.temp_counter = if self.temp_counter == usize::MAX {
            0
        } else {
            self.temp_counter + 1
        };
        assert(r@ =~= temp_name(prefix@, old(self).model().temp));
        r
    }

    /// Records a semantic error.
    pub(crate) fn push_error(&mut self, message: String)
        ensures
            final(self).model() == old(self).model().fail(message@),
    {
        self.errors.push(message);
        assert(final(self).model().errors =~= old(self).model().errors.push(message@));
    }

    /// Declares `name`, as a constant when `is_const`.
    pub(crate) fn declare_name(&mut self, name: &str, is_const: bool)
        ensures
            final(self).model() == old(self).model().declare(name@, is_const),
    {
        let n = self.const_scopes.len();
        if n > 0 {
            let mut scope = self.const_scopes.pop().unwrap();
            scope.push((string_of(name), is_const));
            self.const_scopes.push(scope);
            assert(final(self).model().consts =~~= old(self).model().consts.update(
                n - 1,
                old(self).model().consts.last().push((name@, is_const)),
            ));
        }
    }

    /// Whether the innermost declaration of `name` is a constant.
    pub(crate) fn is_const_name(&self, name: &String) -> (b: bool)
        ensures
            b == self.model().is_const(name@),
    {
        let ghost all = self.model().consts;
        let mut i: usize = self.const_scopes.len();
        assert(all.subrange(0, i as int) =~= all);
        while i > 0
            invariant
                i <= self.const_scopes@.len(),
                all == self.model().consts,
                visible_decl(all, name@) == visible_decl(all.subrange(0, i as int), name@),
            decreases i,
        {
            let scope = &self.const_scopes[i - 1];
            let ghost sv = decl_views(scope@);
            assert(all[i - 1] == sv);
            assert(all.subrange(0, i as int).last() == sv);
            assert(all.subrange(0, i as int).drop_last() =~= all.subrange(0, i - 1));
            let mut j: usize = scope.len();
            assert(sv.subrange(0, j as int) =~= sv);
            while j > 0
                invariant
                    j <= scope@.len(),
                    sv == decl_views(scope@),
                    scope_decl(sv, name@) == scope_decl(sv.subrange(0, j as int), name@),
                    0 < i <= all.len(),
                    all == self.model().consts,
                    visible_decl(all, name@) == visible_decl(all.subrange(0, i as int), name@),
                    all.subrange(0, i as int).last() == sv,
                    all.subrange(0, i as int).drop_last() == all.subrange(0, i - 1),
                decreases j,
            {
                let entry = &scope[j - 1];
                assert(sv.subrange(0, j as int).last() == (entry.0@, entry.1));
                assert(sv.subrange(0, j as int).drop_last() =~= sv.subrange(0, j - 1));
                if entry.0 == *name {
                    return entry.1;
                }
                j = j - 1;
            }
            assert(sv.subrange(0, 0) =~= Seq::<(Seq<char>, bool)>::empty());
            i = i - 1;
        }
        false
    }

    /// Opens a scope of constants and of types.
    pub(crate) fn open_scopes(&mut self)
        ensures
            final(self).model() == old(self).model().open_scopes(),
    {
        self.const_scopes.push(Vec::new());
        self.type_scopes.push(Vec::new());
        assert(final(self).model().consts =~~= old(self).model().consts.push(seq![]));
        assert(final(self).model().types =~~= old(self).model().types.push(seq![]));
    }

    /// Closes the innermost scope of constants and of types.
    pub(crate) fn close_scopes(&mut self)
        ensures
            final(self).model() == old(self).model().close_scopes(),
    {
        self.const_scopes.pop();
        self.type_scopes.pop();
        assert(final(self).model().consts =~= old(self).model().close_scopes().consts);
        assert(final(self).model().types =~= old(self).model().close_scopes().types);
    }

    /// Opens a scope of constants.
    pub(crate) fn open_const_scope(&mut self)
        ensures
            final(self).model() == old(self).model().open_const_scope(),
    {
        self.const_scopes.push(Vec::new());
        assert(final(self).model().consts =~~= old(self).model().consts.push(seq![]));
    }

    /// Closes the innermost scope of constants.
    pub(crate) fn close_const_scope(&mut self)
        ensures
            final(self).model() == old(self).model().close_const_scope(),
    {
        self.const_scopes.pop();
        assert(final(self).model().consts =~= old(self).model().close_const_scope().consts);
    }

    /// Stores `lowered` in a fresh temporary unless it may be reused.
    pub(crate) fn capture_if_needed(&mut self, lowered: LoweredExpr, prefix: &str) -> (r: LoweredExpr)
        ensures
            (final(self).model(), r@) == capture(old(self).model(), lowered@, prefix@),
    {
        if lowered.reuse_safe {
            lowered
        } else {
            let temp = self.next_temp(prefix);
            let mut setup = lowered.setup;
            let line = concat_line("local ", temp.as_str(), " = ", lowered.expr.as_str());
            setup.push(line);
            let r = LoweredExpr { setup, expr: temp, reuse_safe: true };
            assert(r@.setup =~= views(lowered.setup@).push(
                "local "@ + temp@ + " = "@ + lowered.expr@,
            ));
            r
        }
    }
}

/// The concatenation of four strings.
pub fn concat_line(a: &str, b: &str, c: &str, d: &str) -> (r: String)
    ensures
        r@ == a@ + b@ + c@ + d@,
{
    let mut r = concat3(a, b, c);
    r.append(d);
    r
}

/// A lowering that needs no setup.
pub fn simple_expr(expr: String, reuse_safe: bool) -> (r: LoweredExpr)
    ensures
        r@ == simple(expr@, reuse_safe),
{
    let r = LoweredExpr { setup: Vec::new(), expr, reuse_safe };
    assert(r@.setup =~= seq![]);
    r
}

} // verus!
