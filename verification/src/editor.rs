//! The editor server's answers to requests about a document: the quick
//! fixes for its diagnostics, what a rename changes, where a rename may
//! start, the declaration under the cursor (for hover and definition) and
//! the completions offered. Each is decided from the document's tokens, its
//! parsed program and its declarations (see `document.rs`).

use vstd::prelude::*;

use crate::ast::Program;
use crate::compiler::contains_text;
use crate::document::{
    const_keyword_range, const_keyword_range_of, declaration_views, first_const_decl,
    first_covering, is_require_string_token, keywords_fit, name_edits, ranges_fit,
    require_argument, require_edits, require_rename_edits, identifier_rename_edits, edit_views,
    token_at_offset, token_range, token_range_of, Declaration, DeclarationView, MemberItem,
    member_view, TextEdit, TextRange,
};
use crate::parser::{token_view, token_views, Token, TokenKind, TokenView};
use crate::text::{chars_of, concat3, find_chars, lines, lines_of, views};
use crate::tooling::{
    const_name_in, decode_string_lexeme, extract_const_name, match_fallback_edit,
    match_fallback_insert, switch_default_edit, switch_default_insert, unquoted,
};

verus! {

/// A quick fix: its title, the index of the diagnostic it answers, and its
/// edit.
#[derive(Debug)]
pub struct QuickFix {
    pub title: String,
    pub diagnostic: usize,
    pub edit: TextEdit,
}

/// A quick fix as plain values: title, diagnostic, range, new text.
pub type QuickFixView = (Seq<char>, int, TextRange, Seq<char>);

/// A quick fix's view.
pub open spec fn quick_fix_view(f: QuickFix) -> QuickFixView {
    (f.title@, f.diagnostic as int, f.edit.range, f.edit.new_text@)
}

/// The views of a list of quick fixes.
pub open spec fn quick_fix_views(fs: Seq<QuickFix>) -> Seq<QuickFixView> {
    fs.map_values(|f: QuickFix| quick_fix_view(f))
}

/// The empty range at the start of line `e`, where a fix inserts lines.
pub open spec fn insertion_at(e: int) -> TextRange {
    TextRange { start_line: e as usize, start_character: 0, end_line: e as usize, end_character: 0 }
}

/// The fix for the diagnostic `i` with message `m` when it reports an
/// assignment to a constant declared at the top of `program`: its `const`
/// becomes `local`.
pub open spec fn const_fix(program: Option<Program>, i: int, m: Seq<char>) -> Seq<QuickFixView> {
    match (const_name_in(m), program) {
        (Some(n), Some(p)) => match first_const_decl(p.block@, n, 0) {
            Some(k) => seq![
                ("Convert const `"@ + n + "` to local"@, i, const_keyword_range_of(p.block@[k]), "local"@),
            ],
            None => seq![],
        },
        _ => seq![],
    }
}

/// The fix for the diagnostic `i` with message `m` when it reports a
/// `switch` that misses cases: a `default` branch for the `switch` around
/// `line`.
pub open spec fn switch_fix(source: Seq<char>, line: int, i: int, m: Seq<char>) -> Seq<QuickFixView> {
    if contains_text(m, "non-exhaustive switch"@) && lines(source).len() > 0 {
        match switch_default_insert(source, line) {
            Some((e, t)) => seq![("Add switch default branch"@, i, insertion_at(e), t)],
            None => seq![],
        }
    } else {
        seq![]
    }
}

/// The fix for the diagnostic `i` with message `m` when it reports a
/// `match` that misses cases: a catch-all branch for the `match` around
/// `line`.
pub open spec fn match_fix(source: Seq<char>, line: int, i: int, m: Seq<char>) -> Seq<QuickFixView> {
    if contains_text(m, "non-exhaustive match"@) && lines(source).len() > 0 {
        match match_fallback_insert(source, line) {
            Some((e, t)) => seq![("Add match fallback branch"@, i, insertion_at(e), t)],
            None => seq![],
        }
    } else {
        seq![]
    }
}

/// The quick fixes for the diagnostics with messages `ms` on a document
/// with text `source` and program `program`, at `line`: for each message
/// in turn, the `const` fix, then the `switch` fix, then the `match` fix,
/// each where it applies.
pub open spec fn quick_fixes_for(source: Seq<char>, program: Option<Program>, line: int, ms: Seq<
    Seq<char>,
>) -> Seq<QuickFixView>
    decreases ms.len(),
{
    if ms.len() == 0 {
        seq![]
    } else {
        let i = ms.len() - 1;
        quick_fixes_for(source, program, line, ms.drop_last()) + const_fix(program, i, ms[i])
            + switch_fix(source, line, i, ms[i]) + match_fix(source, line, i, ms[i])
    }
}

/// The program a reference may point to, as a value.
pub open spec fn program_of(program: Option<&Program>) -> Option<Program> {
    match program {
        Some(p) => Some(*p),
        None => None,
    }
}

/// Whether `m` contains `p`.
fn contains(m: &str, p: &str) -> (b: bool)
    ensures
        b == contains_text(m@, p@),
{
    let mc = chars_of(m);
    let pc = chars_of(p);
    find_chars(mc.as_slice(), pc.as_slice()).is_some()
}

/// Appends a quick fix, keeping the views in step.
fn push_fix(fs: &mut Vec<QuickFix>, f: QuickFix)
    ensures
        quick_fix_views(final(fs)@) == quick_fix_views(old(fs)@).push(quick_fix_view(f)),
{
    let ghost before = old(fs)@;
    fs.push(f);
    assert(quick_fix_views(fs@) =~= quick_fix_views(before).push(quick_fix_view(f)));
}

/// The quick fixes for the diagnostics with messages `messages` on the
/// document `source`, whose program is `program` when it parses, for a
/// request at `line`.
pub fn quick_fixes(source: &str, program: Option<&Program>, line: usize, messages: &Vec<String>) -> (r:
    Vec<QuickFix>)
    requires
        program matches Some(p) ==> keywords_fit(p.block@),
    ensures
        quick_fix_views(r@) == quick_fixes_for(source@, program_of(program), line as int, views(
            messages@,
        )),
{
    let ghost ms = views(messages@);
    let has_lines = lines_of(source).len() > 0;
    let mut r: Vec<QuickFix> = Vec::new();
    let mut i: usize = 0;
    assert(ms.subrange(0, 0) =~= seq![]);
    while i < messages.len()
        invariant
            i <= messages@.len(),
            ms == views(messages@),
            has_lines == (lines(source@).len() > 0),
            program matches Some(p) ==> keywords_fit(p.block@),
            quick_fix_views(r@) == quick_fixes_for(source@, program_of(program), line as int, ms.subrange(
                0,
                i as int,
            )),
        decreases messages.len() - i,
    {
        let m = messages[i].as_str();
        let ghost prefix = ms.subrange(0, i + 1);
        assert(prefix.drop_last() =~= ms.subrange(0, i as int));
        assert(prefix[i as int] == m@);
        let ghost before = quick_fix_views(r@);
        match (extract_const_name(m), program) {
            (Some(n), Some(p)) => match const_keyword_range(p, n.as_str()) {
                Some(range) => {
                    let edit = TextEdit { range, new_text: "local".to_string() };
                    let title = concat3("Convert const `", n.as_str(), "` to local");
                    push_fix(&mut r, QuickFix { title, diagnostic: i, edit });
                },
                None => {},
            },
            _ => {},
        }
        assert(quick_fix_views(r@) == before + const_fix(program_of(program), i as int, m@));
        let ghost after_const = quick_fix_views(r@);
        if has_lines && contains(m, "non-exhaustive switch") {
            match switch_default_edit(source, line) {
                Some((e, text)) => {
                    let range = TextRange { start_line: e, start_character: 0, end_line: e, end_character: 0 };
                    let title = "Add switch default branch".to_string();
                    push_fix(&mut r, QuickFix { title, diagnostic: i, edit: TextEdit { range, new_text: text } });
                },
                None => {},
            }
        }
        assert(quick_fix_views(r@) == after_const + switch_fix(source@, line as int, i as int, m@));
        let ghost after_switch = quick_fix_views(r@);
        if has_lines && contains(m, "non-exhaustive match") {
            match match_fallback_edit(source, line) {
                Some((e, text)) => {
                    let range = TextRange { start_line: e, start_character: 0, end_line: e, end_character: 0 };
                    let title = "Add match fallback branch".to_string();
                    push_fix(&mut r, QuickFix { title, diagnostic: i, edit: TextEdit { range, new_text: text } });
                },
                None => {},
            }
        }
        assert(quick_fix_views(r@) == after_switch + match_fix(source@, line as int, i as int, m@));
        i = i + 1;
    }
    assert(ms.subrange(0, messages@.len() as int) =~= ms);
    r
}

/// The index of the first declaration from `i` on named `name`.
pub open spec fn first_declared(decls: Seq<DeclarationView>, name: Seq<char>, i: int) -> Option<int>
    decreases decls.len() - i,
{
    if i < 0 || i >= decls.len() {
        None
    } else if decls[i].0 == name {
        Some(i)
    } else {
        first_declared(decls, name, i + 1)
    }
}

/// The declaration named by the token under `offset`, if that token is a
/// name and a declaration has it.
pub open spec fn declaration_under(ts: Seq<TokenView>, decls: Seq<DeclarationView>, offset: int) -> Option<
    int,
> {
    match first_covering(ts, offset, 0) {
        Some(k) => if ts[k].0 == TokenKind::Name {
            first_declared(decls, ts[k].1, 0)
        } else {
            None
        },
        None => None,
    }
}

/// The first declaration named `name`.
fn find_declared(decls: &Vec<Declaration>, name: &str) -> (r: Option<usize>)
    ensures
        r matches Some(i) ==> first_declared(declaration_views(decls@), name@, 0) == Some(i as int)
            && i < decls@.len(),
        r is None ==> first_declared(declaration_views(decls@), name@, 0) is None,
{
    let ghost dv = declaration_views(decls@);
    let target = chars_of(name);
    let mut i: usize = 0;
    while i < decls.len()
        invariant
            i <= decls@.len(),
            dv == declaration_views(decls@),
            target@ == name@,
            first_declared(dv, name@, 0) == first_declared(dv, name@, i as int),
        decreases decls.len() - i,
    {
        let nc = chars_of(decls[i].name.as_str());
        assert(dv[i as int].0 == decls@[i as int].name@);
        if crate::emitter::types::chars_eq(nc.as_slice(), target.as_slice()) {
            return Some(i);
        }
        i = i + 1;
    }
    None
}

/// The declaration under `offset` (for hover and definition): the first
/// declaration named by the name token there.
pub fn declaration_at(tokens: &Vec<Token>, decls: &Vec<Declaration>, offset: usize) -> (r: Option<
    usize,
>)
    ensures
        r matches Some(i) ==> declaration_under(
            token_views(tokens@),
            declaration_views(decls@),
            offset as int,
        ) == Some(i as int) && i < decls@.len(),
        r is None ==> declaration_under(token_views(tokens@), declaration_views(decls@), offset as int)
            is None,
{
    let ghost ts = token_views(tokens@);
    match token_at_offset(tokens, offset) {
        Some(k) => {
            assert(ts[k as int] == token_view(tokens@[k as int]));
            if tokens[k].kind == TokenKind::Name {
                find_declared(decls, tokens[k].text.as_str())
            } else {
                None
            }
        },
        None => None,
    }
}

/// Where a rename at `offset` may start: the token there, when it is a
/// declared name or the module string of a `require`.
pub open spec fn rename_range_for(ts: Seq<TokenView>, decls: Seq<DeclarationView>, offset: int) -> Option<
    TextRange,
> {
    match first_covering(ts, offset, 0) {
        Some(k) => if (ts[k].0 == TokenKind::Name && first_declared(decls, ts[k].1, 0) is Some) || (
        ts[k].0 == TokenKind::Str && require_argument(ts, k)) {
            Some(token_range_of(ts[k]))
        } else {
            None
        },
        None => None,
    }
}

/// The range that a rename at `offset` replaces, if one may start there.
pub fn rename_range(tokens: &Vec<Token>, decls: &Vec<Declaration>, offset: usize) -> (r: Option<
    TextRange,
>)
    requires
        ranges_fit(tokens@),
    ensures
        r == rename_range_for(token_views(tokens@), declaration_views(decls@), offset as int),
{
    let ghost ts = token_views(tokens@);
    match token_at_offset(tokens, offset) {
        Some(k) => {
            let t = &tokens[k];
            assert(ts[k as int] == token_view(*t));
            assert(crate::document::pred(tokens@[k as int].column) + tokens@[k as int].text@.len()
                <= usize::MAX);
            let declared = t.kind == TokenKind::Name && find_declared(decls, t.text.as_str()).is_some();
            if declared || (t.kind == TokenKind::Str && is_require_string_token(tokens, k)) {
                Some(token_range(t))
            } else {
                None
            }
        },
        None => None,
    }
}

/// The edits of one document, as plain values.
pub type ChangeView = (Seq<char>, Seq<(TextRange, Seq<char>)>);

/// The documents among `docs` whose `require` strings name the module
/// `old`, each with the edits that rename it to `new_name`.
pub open spec fn module_changes(docs: Seq<(Seq<char>, Seq<TokenView>)>, old: Seq<char>, new_name: Seq<
    char,
>) -> Seq<ChangeView>
    decreases docs.len(),
{
    if docs.len() == 0 {
        seq![]
    } else {
        let d = docs.last();
        let edits = require_edits(d.1, d.1.len() as int, old, new_name);
        module_changes(docs.drop_last(), old, new_name) + if edits.len() > 0 {
            seq![(d.0, edits)]
        } else {
            seq![]
        }
    }
}

/// What renaming at `offset` of the document `uri` to `new_name` changes:
/// a declared name is renamed at each of its name tokens in this document;
/// the module of a `require` string is renamed in every document of `docs`
/// that requires it; anywhere else nothing may be renamed.
pub open spec fn rename_for(
    uri: Seq<char>,
    ts: Seq<TokenView>,
    decls: Seq<DeclarationView>,
    offset: int,
    new_name: Seq<char>,
    docs: Seq<(Seq<char>, Seq<TokenView>)>,
) -> Option<Seq<ChangeView>> {
    match first_covering(ts, offset, 0) {
        Some(k) => if ts[k].0 == TokenKind::Name && first_declared(decls, ts[k].1, 0) is Some {
            Some(seq![(uri, name_edits(ts, ts[k].1, new_name))])
        } else if ts[k].0 == TokenKind::Str && require_argument(ts, k) {
            Some(module_changes(docs, unquoted(ts[k].1), new_name))
        } else {
            None
        },
        None => None,
    }
}

/// The documents as plain values.
pub open spec fn document_views(docs: Seq<(String, Vec<Token>)>) -> Seq<(Seq<char>, Seq<TokenView>)> {
    docs.map_values(|d: (String, Vec<Token>)| (d.0@, token_views(d.1@)))
}

/// The changes of several documents as plain values.
pub open spec fn change_views(cs: Seq<(String, Vec<TextEdit>)>) -> Seq<ChangeView> {
    cs.map_values(|c: (String, Vec<TextEdit>)| (c.0@, edit_views(c.1@)))
}

/// Every document's token ranges fit in a `usize`.
pub open spec fn documents_fit(docs: Seq<(String, Vec<Token>)>) -> bool {
    forall|i: int| 0 <= i < docs.len() ==> ranges_fit(#[trigger] docs[i].1@)
}

/// Appends a document's changes, keeping the views in step.
fn push_change(cs: &mut Vec<(String, Vec<TextEdit>)>, c: (String, Vec<TextEdit>))
    ensures
        change_views(final(cs)@) == change_views(old(cs)@).push((c.0@, edit_views(c.1@))),
{
    let ghost before = old(cs)@;
    cs.push(c);
    assert(change_views(cs@) =~= change_views(before).push((c.0@, edit_views(c.1@))));
}

/// What renaming at `offset` of the document `uri` (with tokens `tokens`
/// and declarations `decls`) to `new_name` changes, in `docs` for a module
/// rename; `None` when nothing may be renamed there.
pub fn rename_changes(
    uri: &str,
    tokens: &Vec<Token>,
    decls: &Vec<Declaration>,
    offset: usize,
    new_name: &str,
    docs: &Vec<(String, Vec<Token>)>,
) -> (r: Option<Vec<(String, Vec<TextEdit>)>>)
    requires
        ranges_fit(tokens@),
        documents_fit(docs@),
    ensures
        match r {
            Some(cs) => rename_for(
                uri@,
                token_views(tokens@),
                declaration_views(decls@),
                offset as int,
                new_name@,
                document_views(docs@),
            ) == Some(change_views(cs@)),
            None => rename_for(
                uri@,
                token_views(tokens@),
                declaration_views(decls@),
                offset as int,
                new_name@,
                document_views(docs@),
            ) is None,
        },
{
    let ghost ts = token_views(tokens@);
    let ghost dv = document_views(docs@);
    let k = match token_at_offset(tokens, offset) {
        Some(k) => k,
        None => {
            return None;
        },
    };
    let t = &tokens[k];
    assert(ts[k as int] == token_view(*t));
    if t.kind == TokenKind::Name && find_declared(decls, t.text.as_str()).is_some() {
        let edits = identifier_rename_edits(tokens, t.text.as_str(), new_name);
        let mut cs: Vec<(String, Vec<TextEdit>)> = Vec::new();
        push_change(&mut cs, (uri.to_string(), edits));
        assert(change_views(cs@) =~= seq![(uri@, name_edits(ts, t.text@, new_name@))]);
        return Some(cs);
    }
    if !(t.kind == TokenKind::Str && is_require_string_token(tokens, k)) {
        return None;
    }
    let old_name = decode_string_lexeme(t.text.as_str());
    let mut cs: Vec<(String, Vec<TextEdit>)> = Vec::new();
    let mut i: usize = 0;
    assert(change_views(cs@) =~= module_changes(dv.subrange(0, 0), old_name@, new_name@));
    while i < docs.len()
        invariant
            i <= docs@.len(),
            dv == document_views(docs@),
            documents_fit(docs@),
            change_views(cs@) == module_changes(dv.subrange(0, i as int), old_name@, new_name@),
        decreases docs.len() - i,
    {
        let d = &docs[i];
        assert(dv.subrange(0, i + 1).drop_last() =~= dv.subrange(0, i as int));
        assert(dv.subrange(0, i + 1).last() == (d.0@, token_views(d.1@)));
        assert(ranges_fit(docs@[i as int].1@));
        let edits = require_rename_edits(&d.1, old_name.as_str(), new_name);
        if edits.len() > 0 {
            push_change(&mut cs, (d.0.clone(), edits));
        } else {
            assert(change_views(cs@) =~= change_views(cs@) + seq![]);
        }
        i = i + 1;
    }
    assert(dv.subrange(0, docs@.len() as int) =~= dv);
    Some(cs)
}

/// An item offered for completion: its label, the editor's number for its
/// kind, and its detail.
#[derive(Debug)]
pub struct CompletionItem {
    pub label: String,
    pub kind: u32,
    pub detail: String,
}

/// A completion item as plain values.
pub type CompletionView = (Seq<char>, u32, Seq<char>);

/// A completion item's view.
pub open spec fn completion_view(c: CompletionItem) -> CompletionView {
    (c.label@, c.kind, c.detail@)
}

/// The views of a list of completion items.
pub open spec fn completion_views(cs: Seq<CompletionItem>) -> Seq<CompletionView> {
    cs.map_values(|c: CompletionItem| completion_view(c))
}

/// The words offered when nothing more specific completes.
pub open spec fn completion_keywords() -> Seq<Seq<char>> {
    seq![
        "local"@,
        "const"@,
        "function"@,
        "task function"@,
        "object"@,
        "enum"@,
        "signal"@,
        "state"@,
        "watch"@,
        "if"@,
        "switch"@,
        "match"@,
        "for"@,
        "while"@,
        "do"@,
        "return"@,
        "spawn"@,
        "yield"@,
    ]
}

/// The keywords as completion items (kind 14).
pub open spec fn keyword_items(ks: Seq<Seq<char>>) -> Seq<CompletionView> {
    ks.map_values(|k: Seq<char>| (k, 14u32, "keyword"@))
}

/// The declarations as completion items.
pub open spec fn declaration_items(ds: Seq<DeclarationView>) -> Seq<CompletionView> {
    ds.map_values(|d: DeclarationView| (d.0, d.1, d.2))
}

/// The items of `items` whose label no earlier item has, in order.
pub open spec fn first_labels(items: Seq<CompletionView>) -> Seq<CompletionView>
    decreases items.len(),
{
    if items.len() == 0 {
        seq![]
    } else {
        let prev = first_labels(items.drop_last());
        if exists|j: int| 0 <= j < items.len() - 1 && #[trigger] items[j].0 == items.last().0 {
            prev
        } else {
            prev.push(items.last())
        }
    }
}

/// The completions offered: the members of the receiver before the
/// cursor, when there are any; otherwise the keywords and then the
/// declarations, each label once.
pub open spec fn completions_for(members: Seq<CompletionView>, decls: Seq<DeclarationView>) -> Seq<
    CompletionView,
> {
    if members.len() > 0 {
        members
    } else {
        first_labels(keyword_items(completion_keywords()) + declaration_items(decls))
    }
}

/// The keywords offered for completion.
fn keywords() -> (ks: Vec<String>)
    ensures
        views(ks@) == completion_keywords(),
{
    let mut ks: Vec<String> = Vec::new();
    ks.push("local".to_string());
    ks.push("const".to_string());
    ks.push("function".to_string());
    ks.push("task function".to_string());
    ks.push("object".to_string());
    ks.push("enum".to_string());
    ks.push("signal".to_string());
    ks.push("state".to_string());
    ks.push("watch".to_string());
    ks.push("if".to_string());
    ks.push("switch".to_string());
    ks.push("match".to_string());
    ks.push("for".to_string());
    ks.push("while".to_string());
    ks.push("do".to_string());
    ks.push("return".to_string());
    ks.push("spawn".to_string());
    ks.push("yield".to_string());
    assert(views(ks@) =~= completion_keywords());
    ks
}

/// The completions for a document with declarations `decls`, when the
/// receiver before the cursor has the members `members` (none when there
/// is no receiver).
pub fn completion_items(decls: &Vec<Declaration>, members: &Vec<MemberItem>) -> (r: Vec<
    CompletionItem,
>)
    ensures
        completion_views(r@) == completions_for(
            members@.map_values(|m: MemberItem| member_view(m)),
            declaration_views(decls@),
        ),
{
    let ghost mv = members@.map_values(|m: MemberItem| member_view(m));
    if members.len() > 0 {
        let mut r: Vec<CompletionItem> = Vec::new();
        let mut i: usize = 0;
        while i < members.len()
            invariant
                i <= members@.len(),
                mv == members@.map_values(|m: MemberItem| member_view(m)),
                completion_views(r@) == mv.subrange(0, i as int),
            decreases members.len() - i,
        {
            let m = &members[i];
            let item = CompletionItem { label: m.label.clone(), kind: m.kind, detail: m.detail.clone() };
            let ghost before = r@;
            r.push(item);
            assert(completion_views(r@) =~= completion_views(before).push(completion_view(item)));
            assert(mv.subrange(0, i + 1) =~= mv.subrange(0, i as int).push(mv[i as int]));
            i = i + 1;
        }
        assert(mv.subrange(0, members@.len() as int) =~= mv);
        return r;
    }
    let ks = keywords();
    let mut all: Vec<CompletionItem> = Vec::new();
    let mut i: usize = 0;
    while i < ks.len()
        invariant
            i <= ks@.len(),
            views(ks@) == completion_keywords(),
            completion_views(all@) == keyword_items(completion_keywords()).subrange(0, i as int),
        decreases ks.len() - i,
    {
        let item = CompletionItem { label: ks[i].clone(), kind: 14, detail: "keyword".to_string() };
        let ghost before = all@;
        all.push(item);
        assert(completion_views(all@) =~= completion_views(before).push(completion_view(item)));
        assert(keyword_items(completion_keywords()).subrange(0, i + 1) =~= keyword_items(
            completion_keywords(),
        ).subrange(0, i as int).push(completion_view(item)));
        i = i + 1;
    }
    let ghost kv = keyword_items(completion_keywords());
    assert(kv.subrange(0, ks@.len() as int) =~= kv);
    let ghost dv = declaration_items(declaration_views(decls@));
    let mut j: usize = 0;
    while j < decls.len()
        invariant
            j <= decls@.len(),
            dv == declaration_items(declaration_views(decls@)),
            completion_views(all@) == kv + dv.subrange(0, j as int),
        decreases decls.len() - j,
    {
        let d = &decls[j];
        let item = CompletionItem { label: d.name.clone(), kind: d.kind, detail: d.detail.clone() };
        let ghost before = all@;
        all.push(item);
        assert(completion_views(all@) =~= completion_views(before).push(completion_view(item)));
        assert(kv + dv.subrange(0, j + 1) =~= (kv + dv.subrange(0, j as int)).push(completion_view(item)));
        j = j + 1;
    }
    assert(dv.subrange(0, decls@.len() as int) =~= dv);
    let ghost av = completion_views(all@);
    let mut r: Vec<CompletionItem> = Vec::new();
    let mut k: usize = 0;
    assert(av.subrange(0, 0) =~= seq![]);
    while k < all.len()
        invariant
            k <= all@.len(),
            av == completion_views(all@),
            completion_views(r@) == first_labels(av.subrange(0, k as int)),
        decreases all.len() - k,
    {
        let label = chars_of(all[k].label.as_str());
        let mut seen = false;
        let mut m: usize = 0;
        while m < k
            invariant
                m <= k < all@.len(),
                av == completion_views(all@),
                label@ == av[k as int].0,
                seen <==> exists|j: int| 0 <= j < m && #[trigger] av[j].0 == av[k as int].0,
            decreases k - m,
        {
            let other = chars_of(all[m].label.as_str());
            assert(av[m as int].0 == all@[m as int].label@);
            if crate::emitter::types::chars_eq(other.as_slice(), label.as_slice()) {
                seen = true;
            }
            m = m + 1;
        }
        let ghost pre = av.subrange(0, k + 1);
        assert(pre.drop_last() =~= av.subrange(0, k as int));
        assert(pre.last() == av[k as int]);
        assert(seen <==> exists|j: int| 0 <= j < pre.len() - 1 && #[trigger] pre[j].0 == pre.last().0) by {
            if seen {
                let j = choose|j: int| 0 <= j < k && #[trigger] av[j].0 == av[k as int].0;
                assert(pre[j] == av[j]);
            }
            if exists|j: int| 0 <= j < pre.len() - 1 && #[trigger] pre[j].0 == pre.last().0 {
                let j = choose|j: int| 0 <= j < pre.len() - 1 && #[trigger] pre[j].0 == pre.last().0;
                assert(pre[j] == av[j]);
            }
        }
        if !seen {
            let a = &all[k];
            let item = CompletionItem { label: a.label.clone(), kind: a.kind, detail: a.detail.clone() };
            let ghost before = r@;
            r.push(item);
            assert(completion_views(r@) =~= completion_views(before).push(completion_view(item)));
        }
        k = k + 1;
    }
    assert(av.subrange(0, all@.len() as int) =~= av);
    r
}

} // verus!
