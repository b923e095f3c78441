//! Queries on a document's tokens for the editor server: the token under
//! the cursor, whether a string token names a required module, the range
//! of the editor that a token covers, and the edits that rename a name or
//! a required module; where the `const` keyword of a declaration stands,
//! for the quick fix that turns it into `local`; and the top-level
//! declarations of a document, for symbols, hover, definition and
//! completion.

use vstd::prelude::*;

use crate::ast::{Binding, LocalDecl, Pattern, Program, Stmt};
use crate::emitter::types::chars_eq;
use crate::parser::{anchored, keyword_of, token_view, token_views, Token, TokenKind, TokenView};
use crate::text::{chars_of, concat2};
use crate::tooling::{
    alias_name, decode_string_lexeme, enum_hover, function_signature, local_signature,
    render_enum_hover, render_function_signature, render_local_signature, rewrap_string_literal,
    rewrapped, type_alias_name, unquoted,
};

verus! {

/// Whether the token `t` (not the end of input) covers `offset`, its end
/// included.
pub open spec fn covers(t: TokenView, offset: int) -> bool {
    t.2 <= offset <= t.3 && t.0 != TokenKind::Eof
}

/// The index of the first token from `k` on that covers `offset`.
pub open spec fn first_covering(ts: Seq<TokenView>, offset: int, k: int) -> Option<int>
    decreases ts.len() - k,
{
    if k < 0 || k >= ts.len() {
        None
    } else if covers(ts[k], offset) {
        Some(k)
    } else {
        first_covering(ts, offset, k + 1)
    }
}

/// The index of the token under `offset`: the first one, not the end of
/// input, whose span holds `offset` or ends there.
pub fn token_at_offset(tokens: &Vec<Token>, offset: usize) -> (r: Option<usize>)
    ensures
        r matches Some(k) ==> first_covering(token_views(tokens@), offset as int, 0) == Some(
            k as int,
        ) && k < tokens@.len(),
        r is None ==> first_covering(token_views(tokens@), offset as int, 0) is None,
{
    let ghost ts = token_views(tokens@);
    let mut k: usize = 0;
    while k < tokens.len()
        invariant
            k <= tokens@.len(),
            ts == token_views(tokens@),
            first_covering(ts, offset as int, 0) == first_covering(ts, offset as int, k as int),
        decreases tokens.len() - k,
    {
        let t = &tokens[k];
        assert(ts[k as int] == token_view(*t));
        if t.start <= offset && offset <= t.end && t.kind != TokenKind::Eof {
            return Some(k);
        }
        k = k + 1;
    }
    None
}

/// Whether `t` is the name `require`.
pub open spec fn is_require(t: TokenView) -> bool {
    t.0 == TokenKind::Name && t.1 == "require"@
}

/// Whether the token at `i` is the argument of `require`: it follows
/// `require` directly, or `require(`.
pub open spec fn require_argument(ts: Seq<TokenView>, i: int) -> bool {
    ||| (1 <= i <= ts.len() && is_require(ts[i - 1]))
    ||| (2 <= i <= ts.len() && ts[i - 1].0 == TokenKind::Symbol && ts[i - 1].1 == "("@
        && is_require(ts[i - 2]))
}

/// Whether a token's text is `word`.
fn text_is(t: &Token, word: &str) -> (b: bool)
    ensures
        b == (t.text@ == word@),
{
    let a = chars_of(t.text.as_str());
    let w = chars_of(word);
    if a.len() != w.len() {
        return false;
    }
    let mut i: usize = 0;
    while i < a.len()
        invariant
            a@ == t.text@,
            w@ == word@,
            a@.len() == w@.len(),
            i <= a@.len(),
            forall|j: int| 0 <= j < i ==> a@[j] == w@[j],
        decreases a.len() - i,
    {
        if a[i] != w[i] {
            return false;
        }
        i = i + 1;
    }
    assert(a@ =~= w@);
    true
}

/// Whether the token at `index` is the module string of a `require` call:
/// the token before it is `require`, or the two before it are `require`
/// and `(`.
pub fn is_require_string_token(tokens: &Vec<Token>, index: usize) -> (b: bool)
    ensures
        b == require_argument(token_views(tokens@), index as int),
{
    let ghost ts = token_views(tokens@);
    let n = tokens.len();
    proof {
        reveal_strlit("require");
        reveal_strlit("(");
    }
    let direct = if index >= 1 && index <= n {
        let t = &tokens[index - 1];
        assert(ts[index - 1] == token_view(*t));
        t.kind == TokenKind::Name && text_is(t, "require")
    } else {
        false
    };
    if direct {
        return true;
    }
    if index >= 2 && index <= n {
        let p = &tokens[index - 1];
        let q = &tokens[index - 2];
        assert(ts[index - 1] == token_view(*p));
        assert(ts[index - 2] == token_view(*q));
        p.kind == TokenKind::Symbol && text_is(p, "(") && q.kind == TokenKind::Name && text_is(
            q,
            "require",
        )
    } else {
        false
    }
}

/// A range of the editor: zero-based start and end line and character.
#[derive(Debug, Clone, Copy, PartialEq, Eq, Structural)]
pub struct TextRange {
    pub start_line: usize,
    pub start_character: usize,
    pub end_line: usize,
    pub end_character: usize,
}

/// One less, stopping at zero.
pub open spec fn pred(n: usize) -> usize {
    if n > 0 {
        (n - 1) as usize
    } else {
        0
    }
}

/// The range a token covers: from its line and column, made zero-based,
/// for as many characters as its text has, on the same line.
pub open spec fn token_range_of(t: TokenView) -> TextRange {
    TextRange {
        start_line: pred(t.4 as usize),
        start_character: pred(t.5 as usize),
        end_line: pred(t.4 as usize),
        end_character: (pred(t.5 as usize) + t.1.len()) as usize,
    }
}

/// The range that `token` covers in the editor.
pub fn token_range(token: &Token) -> (r: TextRange)
    requires
        pred(token.column) + token.text@.len() <= usize::MAX,
    ensures
        r == token_range_of(token_view(*token)),
{
    let line = token.line.saturating_sub(1);
    let character = token.column.saturating_sub(1);
    let len = chars_of(token.text.as_str()).len();
    TextRange { start_line: line, start_character: character, end_line: line, end_character: character + len }
}

/// An edit of a document: the range replaced and the text put there.
#[derive(Debug)]
pub struct TextEdit {
    pub range: TextRange,
    pub new_text: String,
}

/// An edit as plain values.
pub open spec fn edit_view(e: TextEdit) -> (TextRange, Seq<char>) {
    (e.range, e.new_text@)
}

/// The views of a list of edits.
pub open spec fn edit_views(es: Seq<TextEdit>) -> Seq<(TextRange, Seq<char>)> {
    es.map_values(|e: TextEdit| edit_view(e))
}

/// Every token's range fits in a `usize`.
pub open spec fn ranges_fit(ts: Seq<Token>) -> bool {
    forall|k: int| 0 <= k < ts.len() ==> pred(#[trigger] ts[k].column) + ts[k].text@.len() <= usize::MAX
}

/// The edits that put `new_name` in place of every name token `name`, in
/// the order of the tokens.
pub open spec fn name_edits(ts: Seq<TokenView>, name: Seq<char>, new_name: Seq<char>) -> Seq<
    (TextRange, Seq<char>),
>
    decreases ts.len(),
{
    if ts.len() == 0 {
        seq![]
    } else {
        let prev = name_edits(ts.drop_last(), name, new_name);
        let t = ts.last();
        if t.0 == TokenKind::Name && t.1 == name {
            prev.push((token_range_of(t), new_name))
        } else {
            prev
        }
    }
}

/// The edits that rename the module `old` to `new_name` in the first `i`
/// tokens: each string token that is the argument of `require` and whose
/// text without quotes is `old` gets `new_name` in the same quotes.
pub open spec fn require_edits(ts: Seq<TokenView>, i: int, old: Seq<char>, new_name: Seq<char>) -> Seq<
    (TextRange, Seq<char>),
>
    decreases i,
{
    if i <= 0 || i > ts.len() {
        seq![]
    } else {
        let prev = require_edits(ts, i - 1, old, new_name);
        let t = ts[i - 1];
        if t.0 == TokenKind::Str && require_argument(ts, i - 1) && unquoted(t.1) == old {
            prev.push((token_range_of(t), rewrapped(t.1, new_name)))
        } else {
            prev
        }
    }
}

/// Appends an edit, keeping the views in step.
fn push_edit(es: &mut Vec<TextEdit>, e: TextEdit)
    ensures
        edit_views(final(es)@) == edit_views(old(es)@).push(edit_view(e)),
{
    let ghost before = old(es)@;
    es.push(e);
    assert(edit_views(es@) =~= edit_views(before).push(edit_view(e)));
}

/// The edits that rename every occurrence of the name `name` to
/// `new_name`.
pub fn identifier_rename_edits(tokens: &Vec<Token>, name: &str, new_name: &str) -> (r: Vec<TextEdit>)
    requires
        ranges_fit(tokens@),
    ensures
        edit_views(r@) == name_edits(token_views(tokens@), name@, new_name@),
{
    let ghost ts = token_views(tokens@);
    let mut r: Vec<TextEdit> = Vec::new();
    let mut k: usize = 0;
    while k < tokens.len()
        invariant
            k <= tokens@.len(),
            ts == token_views(tokens@),
            ranges_fit(tokens@),
            edit_views(r@) == name_edits(ts.subrange(0, k as int), name@, new_name@),
        decreases tokens.len() - k,
    {
        let t = &tokens[k];
        assert(ts.subrange(0, k + 1).drop_last() =~= ts.subrange(0, k as int));
        assert(ts.subrange(0, k + 1).last() == token_view(*t));
        assert(pred(tokens@[k as int].column) + tokens@[k as int].text@.len() <= usize::MAX);
        if t.kind == TokenKind::Name && text_is(t, name) {
            let e = TextEdit { range: token_range(t), new_text: new_name.to_string() };
            push_edit(&mut r, e);
        }
        k = k + 1;
    }
    assert(ts.subrange(0, tokens@.len() as int) =~= ts);
    r
}

/// The edits that rename the required module `old_specifier` to
/// `new_name` in a document's tokens, keeping each string's quotes.
pub fn require_rename_edits(tokens: &Vec<Token>, old_specifier: &str, new_name: &str) -> (r: Vec<
    TextEdit,
>)
    requires
        ranges_fit(tokens@),
    ensures
        edit_views(r@) == require_edits(
            token_views(tokens@),
            tokens@.len() as int,
            old_specifier@,
            new_name@,
        ),
{
    let ghost ts = token_views(tokens@);
    let old_chars = chars_of(old_specifier);
    let mut r: Vec<TextEdit> = Vec::new();
    let mut k: usize = 0;
    while k < tokens.len()
        invariant
            k <= tokens@.len(),
            ts == token_views(tokens@),
            ranges_fit(tokens@),
            old_chars@ == old_specifier@,
            edit_views(r@) == require_edits(ts, k as int, old_specifier@, new_name@),
        decreases tokens.len() - k,
    {
        let t = &tokens[k];
        assert(ts[k as int] == token_view(*t));
        assert(pred(tokens@[k as int].column) + tokens@[k as int].text@.len() <= usize::MAX);
        if t.kind == TokenKind::Str && is_require_string_token(tokens, k) {
            let decoded = decode_string_lexeme(t.text.as_str());
            let dc = chars_of(decoded.as_str());
            if chars_eq(dc.as_slice(), old_chars.as_slice()) {
                let e = TextEdit {
                    range: token_range(t),
                    new_text: rewrap_string_literal(t.text.as_str(), new_name),
                };
                push_edit(&mut r, e);
            }
        }
        k = k + 1;
    }
    r
}

/// Whether `p` is the plain name `name`.
pub open spec fn is_name(p: Pattern, name: Seq<char>) -> bool {
    p matches Pattern::Name(n) && n@ == name
}

/// Whether one of `bs` binds the plain name `name`.
pub open spec fn binds_name(bs: Seq<Binding>, name: Seq<char>) -> bool {
    exists|i: int| 0 <= i < bs.len() && is_name(#[trigger] bs[i].pattern, name)
}

/// Whether `s` is a `const` declaration binding the plain name `name`.
pub open spec fn declares_const(s: Stmt, name: Seq<char>) -> bool {
    s matches Stmt::Local(d) && d.is_const && binds_name(d.bindings@, name)
}

/// The index of the first statement from `k` on that declares the
/// constant `name`.
pub open spec fn first_const_decl(stmts: Seq<Stmt>, name: Seq<char>, k: int) -> Option<int>
    decreases stmts.len() - k,
{
    if k < 0 || k >= stmts.len() {
        None
    } else if declares_const(stmts[k], name) {
        Some(k)
    } else {
        first_const_decl(stmts, name, k + 1)
    }
}

/// Every declaration's keyword range fits in a `usize`.
pub open spec fn keywords_fit(stmts: Seq<Stmt>) -> bool {
    forall|k: int|
        0 <= k < stmts.len() ==> (#[trigger] stmts[k] matches Stmt::Local(d) ==> pred(d.column) + 5
            <= usize::MAX)
}

/// The range of the five characters of the `const` keyword of the
/// declaration `s`.
pub open spec fn const_keyword_range_of(s: Stmt) -> TextRange {
    match s {
        Stmt::Local(d) => TextRange {
            start_line: pred(d.line),
            start_character: pred(d.column),
            end_line: pred(d.line),
            end_character: (pred(d.column) + 5) as usize,
        },
        _ => TextRange { start_line: 0, start_character: 0, end_line: 0, end_character: 0 },
    }
}

/// The first declaration of the constant `name` from `k` on is one.
proof fn lemma_first_const_decl(stmts: Seq<Stmt>, name: Seq<char>, k: int)
    ensures
        first_const_decl(stmts, name, k) matches Some(i) ==> k <= i < stmts.len() && declares_const(
            stmts[i],
            name,
        ),
    decreases stmts.len() - k,
{
    if 0 <= k < stmts.len() && !declares_const(stmts[k], name) {
        lemma_first_const_decl(stmts, name, k + 1);
    }
}

/// The quick fix for an assignment to a constant replaces exactly the
/// `const` keyword token of the declaration: when every statement stands
/// on its keyword among the tokens (as `parse_program` ensures of the
/// tokens it read), the range found is that of a `const` token.
pub proof fn law_const_fix_replaces_const_keyword(ts: Seq<TokenView>, stmts: Seq<Stmt>, name: Seq<char>)
    requires
        forall|i: int| 0 <= i < stmts.len() ==> anchored(ts, #[trigger] stmts[i]),
        first_const_decl(stmts, name, 0) is Some,
    ensures
        exists|j: int|
            0 <= j < ts.len() && ts[j].0 == TokenKind::Name && ts[j].1 == "const"@
                && #[trigger] token_range_of(ts[j]) == const_keyword_range_of(
                stmts[first_const_decl(stmts, name, 0)->0],
            ),
{
    lemma_first_const_decl(stmts, name, 0);
    let i = first_const_decl(stmts, name, 0)->0;
    let s = stmts[i];
    assert(anchored(ts, s));
    let d = s->Local_0;
    let j = choose|j: int| 0 <= j < ts.len() && #[trigger] keyword_of(ts[j], d);
    reveal_strlit("const");
    assert(ts[j].1.len() == 5);
    assert(token_range_of(ts[j]) == const_keyword_range_of(s));
}

/// Whether a binding is the plain name `name`.
fn binding_is(b: &Binding, name: &Vec<char>) -> (r: bool)
    ensures
        r == is_name(b.pattern, name@),
{
    match &b.pattern {
        Pattern::Name(n) => {
            let nc = chars_of(n.as_str());
            chars_eq(nc.as_slice(), name.as_slice())
        },
        _ => false,
    }
}

/// Where the quick fix for an assignment to the constant `name` edits:
/// the `const` keyword of the first top-level declaration of `name`.
pub fn const_keyword_range(program: &Program, name: &str) -> (r: Option<TextRange>)
    requires
        keywords_fit(program.block@),
    ensures
        r matches Some(range) ==> first_const_decl(program.block@, name@, 0) matches Some(k)
            && range == const_keyword_range_of(program.block@[k]),
        r is None ==> first_const_decl(program.block@, name@, 0) is None,
{
    let stmts = &program.block;
    let target = chars_of(name);
    let mut k: usize = 0;
    while k < stmts.len()
        invariant
            k <= stmts@.len(),
            stmts@ == program.block@,
            target@ == name@,
            keywords_fit(stmts@),
            first_const_decl(stmts@, name@, 0) == first_const_decl(stmts@, name@, k as int),
        decreases stmts.len() - k,
    {
        if let Stmt::Local(d) = &stmts[k] {
            if d.is_const {
                let mut found = false;
                let mut i: usize = 0;
                while i < d.bindings.len()
                    invariant
                        i <= d.bindings@.len(),
                        target@ == name@,
                        found <==> exists|j: int|
                            0 <= j < i && is_name(#[trigger] d.bindings@[j].pattern, name@),
                    decreases d.bindings.len() - i,
                {
                    if binding_is(&d.bindings[i], &target) {
                        found = true;
                    }
                    i = i + 1;
                }
                if found {
                    assert(declares_const(stmts@[k as int], name@));
                    assert(pred(d.column) + 5 <= usize::MAX);
                    let start_line = d.line.saturating_sub(1);
                    let start_character = d.column.saturating_sub(1);
                    return Some(
                        TextRange {
                            start_line,
                            start_character,
                            end_line: start_line,
                            end_character: start_character + 5,
                        },
                    );
                }
                assert(!declares_const(stmts@[k as int], name@));
            }
        }
        k = k + 1;
    }
    None
}

/// A top-level declaration: its name, the editor's number for its kind
/// (12 a function, 13 a variable, 10 an enum, 11 a type), the detail and
/// the hover text shown for it, the range of its name, and whether it is a
/// constant.
#[derive(Debug)]
pub struct Declaration {
    pub name: String,
    pub kind: u32,
    pub detail: String,
    pub hover: String,
    pub name_range: TextRange,
    pub is_const: bool,
}

/// A declaration as plain values.
pub type DeclarationView = (Seq<char>, u32, Seq<char>, Seq<char>, TextRange, bool);

/// A declaration's view.
pub open spec fn declaration_view(d: Declaration) -> DeclarationView {
    (d.name@, d.kind, d.detail@, d.hover@, d.name_range, d.is_const)
}

/// The views of a list of declarations.
pub open spec fn declaration_views(ds: Seq<Declaration>) -> Seq<DeclarationView> {
    ds.map_values(|d: Declaration| declaration_view(d))
}

/// The index of the first name token `name` from `k` on that starts at or
/// after the offset `start`.
pub open spec fn name_token_from(ts: Seq<TokenView>, start: int, name: Seq<char>, k: int) -> Option<
    int,
>
    decreases ts.len() - k,
{
    if k < 0 || k >= ts.len() {
        None
    } else if ts[k].0 == TokenKind::Name && ts[k].1 == name && ts[k].2 >= start {
        Some(k)
    } else {
        name_token_from(ts, start, name, k + 1)
    }
}

/// The declaration of `name` made by a statement starting at `start`, when
/// its name token is found there: the range is that token's.
pub open spec fn declared(
    ts: Seq<TokenView>,
    start: int,
    name: Seq<char>,
    kind: u32,
    detail: Seq<char>,
    hover: Seq<char>,
    is_const: bool,
) -> Seq<DeclarationView> {
    match name_token_from(ts, start, name, 0) {
        Some(j) => seq![(name, kind, detail, hover, token_range_of(ts[j]), is_const)],
        None => seq![],
    }
}

/// The text of an optional annotation.
pub open spec fn annotation_view(a: Option<String>) -> Option<Seq<char>> {
    match a {
        Some(t) => Some(t@),
        None => None,
    }
}

/// The declarations of the plain names among the bindings `bs` of `d`.
pub open spec fn local_declarations(ts: Seq<TokenView>, d: LocalDecl, bs: Seq<Binding>) -> Seq<
    DeclarationView,
>
    decreases bs.len(),
{
    if bs.len() == 0 {
        seq![]
    } else {
        let b = bs.last();
        local_declarations(ts, d, bs.drop_last()) + match b.pattern {
            Pattern::Name(n) => {
                let sig = local_signature(n@, annotation_view(b.type_annotation), d.is_const);
                declared(ts, d.start as int, n@, 13, sig, sig, d.is_const)
            },
            _ => seq![],
        }
    }
}

/// The declarations a top-level statement makes.
pub open spec fn statement_declarations(ts: Seq<TokenView>, s: Stmt) -> Seq<DeclarationView> {
    match s {
        Stmt::Function(f) => declared(
            ts,
            f.start as int,
            f.name.root@,
            12,
            function_signature(f),
            function_signature(f),
            false,
        ),
        Stmt::Enum(e) => declared(ts, e.start as int, e.name@, 10, "enum "@ + e.name@, enum_hover(e), false),
        Stmt::TypeAlias { raw, start } => match alias_name(raw@) {
            Some(n) => declared(ts, start as int, n, 11, raw@, raw@, false),
            None => seq![],
        },
        Stmt::Local(d) => local_declarations(ts, d, d.bindings@),
        _ => seq![],
    }
}

/// The declarations of the statements `stmts`, in order.
pub open spec fn declarations_of(ts: Seq<TokenView>, stmts: Seq<Stmt>) -> Seq<DeclarationView>
    decreases stmts.len(),
{
    if stmts.len() == 0 {
        seq![]
    } else {
        declarations_of(ts, stmts.drop_last()) + statement_declarations(ts, stmts.last())
    }
}

/// The first name token `name` at or after `start`.
fn name_token_at_or_after(tokens: &Vec<Token>, start: usize, name: &str) -> (r: Option<usize>)
    ensures
        r matches Some(j) ==> name_token_from(token_views(tokens@), start as int, name@, 0) == Some(
            j as int,
        ) && j < tokens@.len(),
        r is None ==> name_token_from(token_views(tokens@), start as int, name@, 0) is None,
{
    let ghost ts = token_views(tokens@);
    let mut k: usize = 0;
    while k < tokens.len()
        invariant
            k <= tokens@.len(),
            ts == token_views(tokens@),
            name_token_from(ts, start as int, name@, 0) == name_token_from(ts, start as int, name@, k as int),
        decreases tokens.len() - k,
    {
        let t = &tokens[k];
        assert(ts[k as int] == token_view(*t));
        if t.kind == TokenKind::Name && text_is(t, name) && t.start >= start {
            return Some(k);
        }
        k = k + 1;
    }
    None
}

/// Appends a declaration, keeping the views in step.
fn push_declaration(ds: &mut Vec<Declaration>, d: Declaration)
    ensures
        declaration_views(final(ds)@) == declaration_views(old(ds)@).push(declaration_view(d)),
{
    let ghost before = old(ds)@;
    ds.push(d);
    assert(declaration_views(ds@) =~= declaration_views(before).push(declaration_view(d)));
}

/// Adds the declaration of `name` by a statement starting at `start`.
fn add_declared(
    ds: &mut Vec<Declaration>,
    tokens: &Vec<Token>,
    start: usize,
    name: &str,
    kind: u32,
    detail: String,
    hover: String,
    is_const: bool,
)
    requires
        ranges_fit(tokens@),
    ensures
        declaration_views(final(ds)@) == declaration_views(old(ds)@) + declared(
            token_views(tokens@),
            start as int,
            name@,
            kind,
            detail@,
            hover@,
            is_const,
        ),
{
    let ghost ts = token_views(tokens@);
    match name_token_at_or_after(tokens, start, name) {
        Some(j) => {
            let t = &tokens[j];
            assert(ts[j as int] == token_view(*t));
            assert(pred(tokens@[j as int].column) + tokens@[j as int].text@.len() <= usize::MAX);
            let d = Declaration {
                name: name.to_string(),
                kind,
                detail,
                hover,
                name_range: token_range(t),
                is_const,
            };
            let ghost before = declaration_views(ds@);
            push_declaration(ds, d);
            assert(before.push(declaration_view(d)) =~= before + declared(
                ts,
                start as int,
                name@,
                kind,
                detail@,
                hover@,
                is_const,
            ));
        },
        None => {
            assert(declaration_views(ds@) =~= declaration_views(ds@) + declared(
                ts,
                start as int,
                name@,
                kind,
                detail@,
                hover@,
                is_const,
            ));
        },
    }
}

/// The top-level declarations of a document, from its parsed program and
/// its tokens: functions, enums, type aliases, and each plain name that a
/// `local` or `const` binds; each is found by the first name token that
/// spells it at or after the start of its statement (one not found there
/// is left out).
pub fn document_declarations(program: &Program, tokens: &Vec<Token>) -> (r: Vec<Declaration>)
    requires
        ranges_fit(tokens@),
    ensures
        declaration_views(r@) == declarations_of(token_views(tokens@), program.block@),
{
    let ghost ts = token_views(tokens@);
    let stmts = &program.block;
    let mut r: Vec<Declaration> = Vec::new();
    let mut k: usize = 0;
    assert(declaration_views(r@) =~= seq![]);
    while k < stmts.len()
        invariant
            k <= stmts@.len(),
            stmts@ == program.block@,
            ts == token_views(tokens@),
            ranges_fit(tokens@),
            declaration_views(r@) == declarations_of(ts, stmts@.subrange(0, k as int)),
        decreases stmts.len() - k,
    {
        assert(stmts@.subrange(0, k + 1).drop_last() =~= stmts@.subrange(0, k as int));
        let ghost before = declaration_views(r@);
        match &stmts[k] {
            Stmt::Function(f) => {
                let sig = render_function_signature(f);
                let hover = render_function_signature(f);
                add_declared(&mut r, tokens, f.start, f.name.root.as_str(), 12, sig, hover, false);
            },
            Stmt::Enum(e) => {
                let detail = concat2("enum ", e.name.as_str());
                let hover = render_enum_hover(e);
                add_declared(&mut r, tokens, e.start, e.name.as_str(), 10, detail, hover, false);
            },
            Stmt::TypeAlias { raw, start } => {
                match type_alias_name(raw.as_str()) {
                    Some(n) => {
                        add_declared(&mut r, tokens, *start, n.as_str(), 11, raw.clone(), raw.clone(), false);
                    },
                    None => {
                        assert(before + seq![] =~= before);
                    },
                }
            },
            Stmt::Local(d) => {
                add_local_declarations(&mut r, tokens, d);
            },
            _ => {
                assert(before + seq![] =~= before);
            },
        }
        k = k + 1;
    }
    assert(stmts@.subrange(0, stmts@.len() as int) =~= stmts@);
    r
}

/// Adds the declarations of the plain names that `d` binds.
fn add_local_declarations(ds: &mut Vec<Declaration>, tokens: &Vec<Token>, d: &LocalDecl)
    requires
        ranges_fit(tokens@),
    ensures
        declaration_views(final(ds)@) == declaration_views(old(ds)@) + local_declarations(
            token_views(tokens@),
            *d,
            d.bindings@,
        ),
{
    let ghost start_views = declaration_views(ds@);
    let mut i: usize = 0;
    assert(start_views + local_declarations(token_views(tokens@), *d, d.bindings@.subrange(0, 0))
        =~= start_views);
    while i < d.bindings.len()
        invariant
            i <= d.bindings@.len(),
            ranges_fit(tokens@),
            declaration_views(ds@) == start_views + local_declarations(
                token_views(tokens@),
                *d,
                d.bindings@.subrange(0, i as int),
            ),
        decreases d.bindings.len() - i,
    {
        let b = &d.bindings[i];
        assert(d.bindings@.subrange(0, i + 1).drop_last() =~= d.bindings@.subrange(0, i as int));
        assert(d.bindings@.subrange(0, i + 1).last() == *b);
        let ghost before = declaration_views(ds@);
        match &b.pattern {
            Pattern::Name(n) => {
                let sig = match &b.type_annotation {
                    Some(a) => render_local_signature(n.as_str(), Some(a.as_str()), d.is_const),
                    None => render_local_signature(n.as_str(), None, d.is_const),
                };
                let hover = sig.clone();
                assert(hover@ == sig@);
                add_declared(ds, tokens, d.start, n.as_str(), 13, sig, hover, d.is_const);
            },
            _ => {
                assert(before + seq![] =~= before);
            },
        }
        i = i + 1;
    }
    assert(d.bindings@.subrange(0, d.bindings@.len() as int) =~= d.bindings@);
}

/// A member offered after `receiver.`: its label, the editor's number for
/// its kind (20, an enum member) and its detail `Enum.member`.
#[derive(Debug)]
pub struct MemberItem {
    pub label: String,
    pub kind: u32,
    pub detail: String,
}

/// A member item as plain values.
pub open spec fn member_view(m: MemberItem) -> (Seq<char>, u32, Seq<char>) {
    (m.label@, m.kind, m.detail@)
}

/// Whether `s` declares the enum `name` and its name token is found.
pub open spec fn indexes_enum(ts: Seq<TokenView>, s: Stmt, name: Seq<char>) -> bool {
    s matches Stmt::Enum(e) && e.name@ == name && name_token_from(ts, e.start as int, name, 0) is Some
}

/// The last of the first `k` statements that declares the enum `name`
/// (a later declaration replaces an earlier one).
pub open spec fn last_enum(ts: Seq<TokenView>, stmts: Seq<Stmt>, name: Seq<char>, k: int) -> Option<
    int,
>
    decreases k,
{
    if k <= 0 || k > stmts.len() {
        None
    } else if indexes_enum(ts, stmts[k - 1], name) {
        Some(k - 1)
    } else {
        last_enum(ts, stmts, name, k - 1)
    }
}

/// The members of the enum declared by `s`, as completion items.
pub open spec fn enum_member_items(s: Stmt) -> Seq<(Seq<char>, u32, Seq<char>)> {
    match s {
        Stmt::Enum(e) => e.members@.map_values(
            |m: crate::ast::EnumMember| (m.name@, 20u32, e.name@ + "."@ + m.name@),
        ),
        _ => seq![],
    }
}

/// The completions after `receiver.` when `receiver` names a top-level
/// enum of the document: its members, in order; none otherwise.
pub fn member_completion_items(program: &Program, tokens: &Vec<Token>, receiver: &str) -> (r: Vec<
    MemberItem,
>)
    ensures
        r@.map_values(|m: MemberItem| member_view(m)) == match last_enum(
            token_views(tokens@),
            program.block@,
            receiver@,
            program.block@.len() as int,
        ) {
            Some(k) => enum_member_items(program.block@[k]),
            None => seq![],
        },
{
    let ghost ts = token_views(tokens@);
    let stmts = &program.block;
    let target = chars_of(receiver);
    let mut k: usize = stmts.len();
    while k > 0
        invariant
            k <= stmts@.len(),
            stmts@ == program.block@,
            ts == token_views(tokens@),
            target@ == receiver@,
            last_enum(ts, stmts@, receiver@, stmts@.len() as int) == last_enum(
                ts,
                stmts@,
                receiver@,
                k as int,
            ),
        decreases k,
    {
        if let Stmt::Enum(e) = &stmts[k - 1] {
            let nc = chars_of(e.name.as_str());
            if chars_eq(nc.as_slice(), target.as_slice()) && name_token_at_or_after(
                tokens,
                e.start,
                receiver,
            ).is_some() {
                let mut items: Vec<MemberItem> = Vec::new();
                let mut i: usize = 0;
                while i < e.members.len()
                    invariant
                        i <= e.members@.len(),
                        items@.map_values(|m: MemberItem| member_view(m)) == enum_member_items(
                            Stmt::Enum(*e),
                        ).subrange(0, i as int),
                    decreases e.members.len() - i,
                {
                    let m = &e.members[i];
                    let dotted = concat2(e.name.as_str(), ".");
                    let detail = concat2(dotted.as_str(), m.name.as_str());
                    let label = m.name.clone();
                    assert(label@ == m.name@);
                    let item = MemberItem { label, kind: 20, detail };
                    assert(e.members@[i as int] == *m);
                    assert(member_view(item) == enum_member_items(Stmt::Enum(*e))[i as int]);
                    let ghost before = items@;
                    items.push(item);
                    proof {
                        assert(items@.map_values(|m: MemberItem| member_view(m)) =~= before.map_values(
                            |m: MemberItem| member_view(m),
                        ).push(member_view(item)));
                        assert(items@.map_values(|m: MemberItem| member_view(m)) =~= enum_member_items(
                            Stmt::Enum(*e),
                        ).subrange(0, i + 1));
                    }
                    i = i + 1;
                }
                assert(enum_member_items(Stmt::Enum(*e)).subrange(0, e.members@.len() as int)
                    =~= enum_member_items(Stmt::Enum(*e)));
                assert(indexes_enum(ts, stmts@[k - 1], receiver@));
                return items;
            }
        }
        k = k - 1;
    }
    let empty: Vec<MemberItem> = Vec::new();
    assert(empty@.map_values(|m: MemberItem| member_view(m)) =~= seq![]);
    empty
}

} // verus!
