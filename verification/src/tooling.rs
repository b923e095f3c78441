//! Editor tooling helpers: positions in compiler messages, type alias
//! names, hover signatures, completion receivers and block-based quick
//! fixes.

use vstd::prelude::*;

use crate::ast::{EnumDecl, EnumMember, FunctionDecl, Param, Pattern};
use crate::compiler::{error_text, CompilerError};
use crate::text::{
    find_from, occurs_at,
    join, join_strings, push_line,
    chars_have_prefix, chars_of, concat2, concat3, digits_value, find, find_chars, has_prefix,
    has_suffix, is_digit, lines, lines_of, parse_usize, parse_usize_chars, rfind, rfind_chars,
    string_from_chars, sub_chars, trim, trim_chars, trim_end, trim_end_chars, trim_start,
    trim_start_chars, trim_str, views, utf8_len, utf8_width, char_utf8_width, leading_ws_len,
};

verus! {

/// The `line:column` that a front-end message ends with, after its last
/// ` at `: both numbers as `usize::from_str` reads them.
pub open spec fn one_based_position(message: Seq<char>) -> Option<(usize, usize)> {
    match rfind(message, " at "@) {
        None => None,
        Some(k) => {
            let rest = message.subrange(k + " at "@.len(), message.len() as int);
            match find(rest, seq![':']) {
                None => None,
                Some(c) => match (
                    parse_usize(rest.subrange(0, c)),
                    parse_usize(rest.subrange(c + 1, rest.len() as int)),
                ) {
                    (Some(line), Some(col)) => Some((line, col)),
                    _ => None,
                },
            }
        },
    }
}

/// Reads the `line:column` at the end of a lexer or parser message.
pub fn extract_one_based_position(message: &str) -> (r: Option<(usize, usize)>)
    ensures
        r == one_based_position(message@),
{
    let m = chars_of(message);
    let marker = chars_of(" at ");
    let k = match rfind_chars(m.as_slice(), marker.as_slice()) {
        None => return None,
        Some(k) => k,
    };
    let ml = m.len();
    let mkl = marker.len();
    assert(k + mkl <= ml);
    let rest = sub_chars(m.as_slice(), k + marker.len(), m.len());
    let colon = chars_of(":");
    proof {
        reveal_strlit(":");
        assert(colon@ =~= seq![':']);
    }
    let c = match find_chars(rest.as_slice(), colon.as_slice()) {
        None => return None,
        Some(c) => c,
    };
    let line_text = sub_chars(rest.as_slice(), 0, c);
    let col_text = sub_chars(rest.as_slice(), c + 1, rest.len());
    let line = match parse_usize_chars(line_text.as_slice()) {
        None => return None,
        Some(v) => v,
    };
    let col = match parse_usize_chars(col_text.as_slice()) {
        None => return None,
        Some(v) => v,
    };
    Some((line, col))
}

/// The longest run of decimal digits that `s` begins with.
pub open spec fn digit_run(s: Seq<char>) -> Seq<char>
    decreases s.len(),
{
    if s.len() > 0 && is_digit(s[0]) {
        seq![s[0]] + digit_run(s.drop_first())
    } else {
        seq![]
    }
}

/// The number written by the digits right after the first `marker`.
pub open spec fn number_after(message: Seq<char>, marker: Seq<char>) -> Option<usize> {
    match find(message, marker) {
        None => None,
        Some(k) => parse_usize(digit_run(message.subrange(k + marker.len(), message.len() as int))),
    }
}

/// The zero-based `line: N` and `character: M` of a Luau validation error.
pub open spec fn zero_based_validation_position(message: Seq<char>) -> Option<(usize, usize)> {
    match number_after(message, "line: "@) {
        None => None,
        Some(line) => match number_after(message, "character: "@) {
            None => None,
            Some(col) => Some((line, col)),
        },
    }
}

/// The digits that `s[from..]` begins with.
fn digit_run_chars(s: &[char], from: usize) -> (r: Vec<char>)
    requires
        from <= s@.len(),
    ensures
        r@ == digit_run(s@.subrange(from as int, s@.len() as int)),
{
    let mut r: Vec<char> = Vec::new();
    let mut i: usize = from;
    while i < s.len() && '0' <= s[i] && s[i] <= '9'
        invariant
            from <= i <= s@.len(),
            digit_run(s@.subrange(from as int, s@.len() as int)) == r@ + digit_run(
                s@.subrange(i as int, s@.len() as int),
            ),
        decreases s.len() - i,
    {
        let ghost t = s@.subrange(i as int, s@.len() as int);
        assert(t.drop_first() =~= s@.subrange(i + 1, s@.len() as int));
        r.push(s[i]);
        i = i + 1;
        assert(digit_run(s@.subrange(from as int, s@.len() as int)) =~= r@ + digit_run(
            s@.subrange(i as int, s@.len() as int),
        ));
    }
    let ghost t = s@.subrange(i as int, s@.len() as int);
    assert(digit_run(t) =~= seq![]);
    assert(r@ + seq![] =~= r@);
    r
}

/// The number right after the first `marker` in `message`.
fn read_number_after(message: &[char], marker: &str) -> (r: Option<usize>)
    ensures
        r == number_after(message@, marker@),
{
    let mk = chars_of(marker);
    match find_chars(message, mk.as_slice()) {
        None => None,
        Some(k) => {
            let ml = message.len();
            let mkl = mk.len();
            assert(k + mkl <= ml);
            let digits = digit_run_chars(message, k + mk.len());
            parse_usize_chars(digits.as_slice())
        },
    }
}

/// Reads `line: N` and `character: M` from a Luau validation error.
pub fn extract_zero_based_validation_position(message: &str) -> (r: Option<(usize, usize)>)
    ensures
        r == zero_based_validation_position(message@),
{
    let m = chars_of(message);
    let line = match read_number_after(m.as_slice(), "line: ") {
        None => return None,
        Some(v) => v,
    };
    let col = match read_number_after(m.as_slice(), "character: ") {
        None => return None,
        Some(v) => v,
    };
    Some((line, col))
}

/// `s` cut at the first occurrence of `c`, or all of `s`.
pub open spec fn before_char(s: Seq<char>, c: char) -> Seq<char> {
    match find(s, seq![c]) {
        Some(k) => s.subrange(0, k),
        None => s,
    }
}

/// The name a `type` or `export type` alias declares: the text between the
/// keyword and `=`, cut at `<`, trimmed.
pub open spec fn alias_name(raw: Seq<char>) -> Option<Seq<char>> {
    let t = trim(raw);
    let decl = if has_prefix(t, "export "@) {
        t.subrange("export "@.len() as int, t.len() as int)
    } else {
        t
    };
    if !has_prefix(decl, "type "@) {
        None
    } else {
        let rest = decl.subrange("type "@.len() as int, decl.len() as int);
        match find(rest, seq!['=']) {
            None => None,
            Some(eq) => Some(trim(before_char(trim(rest.subrange(0, eq)), '<'))),
        }
    }
}

/// `s` cut at the first `c`.
fn chars_before(s: &[char], c: char) -> (r: Vec<char>)
    ensures
        r@ == before_char(s@, c),
{
    let p = vec![c];
    assert(p@ =~= seq![c]);
    match find_chars(s, p.as_slice()) {
        Some(k) => sub_chars(s, 0, k),
        None => sub_chars(s, 0, s.len()),
    }
}

/// Strips `prefix` from the start of `s` when it is there.
fn strip_prefix_chars(s: &[char], prefix: &str) -> (r: Option<Vec<char>>)
    ensures
        r matches Some(v) ==> has_prefix(s@, prefix@) && v@ == s@.subrange(
            prefix@.len() as int,
            s@.len() as int,
        ),
        r is None ==> !has_prefix(s@, prefix@),
{
    let p = chars_of(prefix);
    if chars_have_prefix(s, p.as_slice()) {
        Some(sub_chars(s, p.len(), s.len()))
    } else {
        None
    }
}

/// The name declared by a type alias statement.
pub fn type_alias_name(raw: &str) -> (r: Option<String>)
    ensures
        r matches Some(n) ==> alias_name(raw@) == Some(n@),
        r is None ==> alias_name(raw@) is None,
{
    let rc = chars_of(raw);
    let t = trim_chars(rc.as_slice());
    let decl = match strip_prefix_chars(t.as_slice(), "export ") {
        Some(d) => d,
        None => t,
    };
    let rest = match strip_prefix_chars(decl.as_slice(), "type ") {
        Some(r) => r,
        None => return None,
    };
    let eq_mark = vec!['='];
    assert(eq_mark@ =~= seq!['=']);
    let eq = match find_chars(rest.as_slice(), eq_mark.as_slice()) {
        Some(e) => e,
        None => return None,
    };
    let head = sub_chars(rest.as_slice(), 0, eq);
    let head_trimmed = trim_chars(head.as_slice());
    let name_part = chars_before(head_trimmed.as_slice(), '<');
    let name = trim_chars(name_part.as_slice());
    Some(string_from_chars(name.as_slice()))
}


/// `state NAME` or `state NAME: TYPE`.
pub open spec fn state_signature(name: Seq<char>, annotation: Option<Seq<char>>) -> Seq<char> {
    match annotation {
        Some(a) => "state "@ + name + ": "@ + a,
        None => "state "@ + name,
    }
}

/// The hover text of a `state` declaration.
pub fn render_state_signature(name: &str, annotation: Option<&str>) -> (r: String)
    ensures
        r@ == state_signature(name@, match annotation {
            Some(a) => Some(a@),
            None => None,
        }),
{
    match annotation {
        Some(annotation) => {
            let mut r = concat3("state ", name, ": ");
            r.append(annotation);
            r
        },
        None => concat2("state ", name),
    }
}

/// `local NAME[: TYPE]`, or `const NAME[: TYPE]` for a constant.
pub open spec fn local_signature(
    name: Seq<char>,
    annotation: Option<Seq<char>>,
    is_const: bool,
) -> Seq<char> {
    let prefix = if is_const {
        "const"@
    } else {
        "local"@
    };
    match annotation {
        Some(a) => prefix + " "@ + name + ": "@ + a,
        None => prefix + " "@ + name,
    }
}

/// The hover text of a local or constant binding.
pub fn render_local_signature(name: &str, annotation: Option<&str>, is_const: bool) -> (r: String)
    ensures
        r@ == local_signature(name@, match annotation {
            Some(a) => Some(a@),
            None => None,
        }, is_const),
{
    let prefix = if is_const {
        "const"
    } else {
        "local"
    };
    match annotation {
        Some(annotation) => {
            let mut r = concat3(prefix, " ", name);
            r.append(": ");
            r.append(annotation);
            r
        },
        None => concat3(prefix, " ", name),
    }
}

/// A character of a Luau identifier: ASCII letter, digit or `_`.
pub open spec fn is_ident_char(c: char) -> bool {
    ('a' <= c && c <= 'z') || ('A' <= c && c <= 'Z') || ('0' <= c && c <= '9') || c == '_'
}

fn ident_char(c: char) -> (b: bool)
    ensures
        b == is_ident_char(c),
{
    ('a' <= c && c <= 'z') || ('A' <= c && c <= 'Z') || ('0' <= c && c <= '9') || c == '_'
}

/// The identifier characters that `s` ends with.
pub open spec fn trailing_ident(s: Seq<char>) -> Seq<char>
    decreases s.len(),
{
    if s.len() > 0 && is_ident_char(s.last()) {
        trailing_ident(s.drop_last()).push(s.last())
    } else {
        seq![]
    }
}

/// The number of characters of `s` that take up `b` bytes in UTF-8, when
/// `b` falls on a character boundary.
pub open spec fn chars_in_bytes(s: Seq<char>, b: int) -> Option<int>
    decreases s.len(),
{
    if b == 0 {
        Some(0)
    } else if s.len() == 0 || b < 0 {
        None
    } else {
        match chars_in_bytes(s.drop_first(), b - utf8_width(s[0])) {
            Some(k) => Some(k + 1),
            None => None,
        }
    }
}

/// The receiver name before a `.`, `?.` or `:` that ends the text before
/// the byte offset `offset`.
pub open spec fn completion_receiver(source: Seq<char>, offset: int) -> Option<Seq<char>> {
    match chars_in_bytes(source, offset) {
        None => None,
        Some(k) => {
            let t = trim_end(source.subrange(0, k));
            let stripped = if has_suffix(t, seq!['.']) {
                Some(t.drop_last())
            } else if has_suffix(t, "?."@) {
                Some(t.subrange(0, t.len() - 2))
            } else if has_suffix(t, seq![':']) {
                Some(t.drop_last())
            } else {
                None
            };
            match stripped {
                None => None,
                Some(st) => if trailing_ident(st).len() == 0 {
                    None
                } else {
                    Some(trailing_ident(st))
                },
            }
        },
    }
}

/// The number of leading characters of `s` that take `b` bytes.
fn chars_for_bytes(s: &[char], b: usize) -> (r: Option<usize>)
    ensures
        r matches Some(k) ==> chars_in_bytes(s@, b as int) == Some(k as int) && k <= s@.len(),
        r is None ==> chars_in_bytes(s@, b as int) is None,
{
    let mut i: usize = 0;
    let mut remaining: usize = b;
    assert(s@.subrange(0, s@.len() as int) =~= s@);
    while remaining > 0 && i < s.len()
        invariant
            i <= s@.len(),
            chars_in_bytes(s@, b as int) == match chars_in_bytes(
                s@.subrange(i as int, s@.len() as int),
                remaining as int,
            ) {
                Some(k) => Some(k + i),
                None => None,
            },
        decreases s.len() - i,
    {
        let ghost t = s@.subrange(i as int, s@.len() as int);
        assert(t.drop_first() =~= s@.subrange(i + 1, s@.len() as int));
        let w = char_utf8_width(s[i]);
        if w > remaining {
            assert(chars_in_bytes(t.drop_first(), remaining - w) is None) by {
                let u = t.drop_first();
                if u.len() > 0 {
                    assert(chars_in_bytes(u, remaining - w) is None);
                }
            }
            return None;
        }
        remaining = remaining - w;
        i = i + 1;
    }
    if remaining == 0 {
        Some(i)
    } else {
        None
    }
}

/// The identifier characters at the end of `s`.
fn trailing_ident_chars(s: &[char]) -> (r: Vec<char>)
    ensures
        r@ == trailing_ident(s@),
{
    let mut start: usize = s.len();
    assert(s@.subrange(0, s@.len() as int) =~= s@);
    assert(s@ + s@.subrange(s@.len() as int, s@.len() as int) =~= s@);
    while start > 0 && ident_char(s[start - 1])
        invariant
            start <= s@.len(),
            trailing_ident(s@) == trailing_ident(s@.subrange(0, start as int)) + s@.subrange(
                start as int,
                s@.len() as int,
            ),
        decreases start,
    {
        let ghost t = s@.subrange(0, start as int);
        assert(t.drop_last() =~= s@.subrange(0, start - 1));
        assert(s@.subrange(start - 1, s@.len() as int) =~= seq![t.last()] + s@.subrange(
            start as int,
            s@.len() as int,
        ));
        start = start - 1;
        assert(trailing_ident(s@) =~= trailing_ident(s@.subrange(0, start as int)) + s@.subrange(
            start as int,
            s@.len() as int,
        ));
    }
    assert(trailing_ident(s@.subrange(0, start as int)) =~= seq![]);
    assert(s@.subrange(0, s@.len() as int) =~= s@);
    sub_chars(s, start, s.len())
}

/// The receiver that a member completion at byte `offset` applies to.
pub fn member_completion_receiver(source: &str, offset: usize) -> (r: Option<String>)
    ensures
        r matches Some(n) ==> completion_receiver(source@, offset as int) == Some(n@),
        r is None ==> completion_receiver(source@, offset as int) is None,
{
    let sc = chars_of(source);
    let k = match chars_for_bytes(sc.as_slice(), offset) {
        None => return None,
        Some(k) => k,
    };
    let before = sub_chars(sc.as_slice(), 0, k);
    let t = trim_end_chars(before.as_slice());
    let n = t.len();
    let stripped = if n >= 1 && t[n - 1] == '.' {
        assert(t@.subrange(n - 1, n as int) =~= seq!['.']);
        sub_chars(t.as_slice(), 0, n - 1)
    } else if n >= 1 && t[n - 1] == ':' {
        assert(t@.subrange(n - 1, n as int) =~= seq![':']);
        proof {
            reveal_strlit("?.");
            if has_suffix(t@, "?."@) {
                assert(t@.subrange(n - 2, n as int)[1] == t@[n - 1]);
            }
        }
        sub_chars(t.as_slice(), 0, n - 1)
    } else {
        proof {
            reveal_strlit("?.");
            if has_suffix(t@, seq!['.']) {
                assert(t@.subrange(n - 1, n as int)[0] == t@[n - 1]);
            }
            if has_suffix(t@, "?."@) {
                assert(t@.subrange(n - 2, n as int)[1] == t@[n - 1]);
            }
            if has_suffix(t@, seq![':']) {
                assert(t@.subrange(n - 1, n as int)[0] == t@[n - 1]);
            }
        }
        return None;
    };
    let name = trailing_ident_chars(stripped.as_slice());
    if name.len() == 0 {
        None
    } else {
        Some(string_from_chars(name.as_slice()))
    }
}

/// `s` from its first identifier-start character (ASCII letter or `_`).
pub open spec fn from_ident_start(s: Seq<char>) -> Option<Seq<char>>
    decreases s.len(),
{
    if s.len() == 0 {
        None
    } else if ('a' <= s[0] && s[0] <= 'z') || ('A' <= s[0] && s[0] <= 'Z') || s[0] == '_' {
        Some(s)
    } else {
        from_ident_start(s.drop_first())
    }
}

/// The identifier characters that `s` begins with.
pub open spec fn leading_ident(s: Seq<char>) -> Seq<char>
    decreases s.len(),
{
    if s.len() > 0 && is_ident_char(s[0]) {
        seq![s[0]] + leading_ident(s.drop_first())
    } else {
        seq![]
    }
}

/// The first type name in an annotation such as `Point?` or `{ Point }`.
pub open spec fn annotation_type_name(annotation: Seq<char>) -> Option<Seq<char>> {
    match from_ident_start(trim(annotation)) {
        None => None,
        Some(head) => Some(leading_ident(head)),
    }
}

/// The first type name that an annotation mentions.
pub fn simple_type_name(annotation: &str) -> (r: Option<String>)
    ensures
        r matches Some(n) ==> annotation_type_name(annotation@) == Some(n@),
        r is None ==> annotation_type_name(annotation@) is None,
{
    let ac = chars_of(annotation);
    let t = trim_chars(ac.as_slice());
    let mut start: usize = 0;
    assert(t@.subrange(0, t@.len() as int) =~= t@);
    while start < t.len() && !(('a' <= t[start] && t[start] <= 'z') || ('A' <= t[start] && t[start]
        <= 'Z') || t[start] == '_')
        invariant
            start <= t@.len(),
            from_ident_start(t@) == from_ident_start(t@.subrange(start as int, t@.len() as int)),
        decreases t.len() - start,
    {
        assert(t@.subrange(start as int, t@.len() as int).drop_first() =~= t@.subrange(
            start + 1,
            t@.len() as int,
        ));
        start = start + 1;
    }
    if start == t.len() {
        assert(t@.subrange(start as int, t@.len() as int).len() == 0);
        return None;
    }
    let mut end: usize = start;
    while end < t.len() && ident_char(t[end])
        invariant
            start <= end <= t@.len(),
            leading_ident(t@.subrange(start as int, t@.len() as int)) == t@.subrange(
                start as int,
                end as int,
            ) + leading_ident(t@.subrange(end as int, t@.len() as int)),
        decreases t.len() - end,
    {
        assert(t@.subrange(end as int, t@.len() as int).drop_first() =~= t@.subrange(
            end + 1,
            t@.len() as int,
        ));
        end = end + 1;
        assert(leading_ident(t@.subrange(start as int, t@.len() as int)) =~= t@.subrange(
            start as int,
            end as int,
        ) + leading_ident(t@.subrange(end as int, t@.len() as int)));
    }
    assert(leading_ident(t@.subrange(end as int, t@.len() as int)) =~= seq![]);
    assert(t@.subrange(start as int, end as int) + seq![] =~= t@.subrange(start as int, end as int));
    let name = sub_chars(t.as_slice(), start, end);
    Some(string_from_chars(name.as_slice()))
}

/// `replacement` between two of the quote characters that `original`
/// begins with (`"` when it is empty).
pub open spec fn rewrapped(original: Seq<char>, replacement: Seq<char>) -> Seq<char> {
    let q = if original.len() > 0 {
        original[0]
    } else {
        '"'
    };
    seq![q] + replacement + seq![q]
}

/// Replaces the contents of a string literal, keeping its quote style.
pub fn rewrap_string_literal(original: &str, replacement_inner: &str) -> (r: String)
    ensures
        r@ == rewrapped(original@, replacement_inner@),
{
    let oc = chars_of(original);
    let quote = if oc.len() > 0 {
        oc[0]
    } else {
        '"'
    };
    let mut r = String::new();
    crate::text::push_char(&mut r, quote);
    r.append(replacement_inner);
    crate::text::push_char(&mut r, quote);
    assert(r@ =~= rewrapped(original@, replacement_inner@));
    r
}

/// A path alias as completion label: `@name/*` shows as `@name/`.
pub open spec fn alias_label(alias: Seq<char>) -> Seq<char> {
    if has_suffix(alias, "/*"@) {
        alias.subrange(0, alias.len() - 2).push('/')
    } else {
        alias
    }
}

/// The completion label of a path alias.
pub fn alias_completion_label(alias: &str) -> (r: String)
    ensures
        r@ == alias_label(alias@),
{
    let ac = chars_of(alias);
    let n = ac.len();
    proof {
        reveal_strlit("/*");
    }
    if n >= 2 && ac[n - 2] == '/' && ac[n - 1] == '*' {
        assert(ac@.subrange(n - 2, n as int) =~= "/*"@);
        let mut r = string_from_chars(sub_chars(ac.as_slice(), 0, n - 2).as_slice());
        crate::text::push_char(&mut r, '/');
        r
    } else {
        proof {
            if has_suffix(alias@, "/*"@) {
                assert(ac@.subrange(n - 2, n as int)[0] == ac@[n - 2]);
                assert(ac@.subrange(n - 2, n as int)[1] == ac@[n - 1]);
            }
        }
        crate::text::string_of(alias)
    }
}

/// The name between backticks after `const ` in an error message.
pub open spec fn const_name_in(message: Seq<char>) -> Option<Seq<char>> {
    match find(message, "const `"@) {
        None => None,
        Some(k) => {
            let rest = message.subrange(k + "const `"@.len(), message.len() as int);
            match find(rest, seq!['`']) {
                None => None,
                Some(e) => Some(rest.subrange(0, e)),
            }
        },
    }
}

/// The constant named by a "cannot assign to const" message.
pub fn extract_const_name(message: &str) -> (r: Option<String>)
    ensures
        r matches Some(n) ==> const_name_in(message@) == Some(n@),
        r is None ==> const_name_in(message@) is None,
{
    let m = chars_of(message);
    let marker = chars_of("const `");
    let k = match find_chars(m.as_slice(), marker.as_slice()) {
        None => return None,
        Some(k) => k,
    };
    let ml = m.len();
    let mkl = marker.len();
    assert(k + mkl <= ml);
    let rest = sub_chars(m.as_slice(), k + mkl, ml);
    let tick = vec!['`'];
    assert(tick@ =~= seq!['`']);
    let e = match find_chars(rest.as_slice(), tick.as_slice()) {
        None => return None,
        Some(e) => e,
    };
    let name = sub_chars(rest.as_slice(), 0, e);
    Some(string_from_chars(name.as_slice()))
}


/// Lines that open a block closed by `end`.
pub open spec fn opens_end_block(trimmed: Seq<char>) -> bool {
    ||| has_prefix(trimmed, "if "@)
    ||| has_prefix(trimmed, "switch "@)
    ||| has_prefix(trimmed, "match "@)
    ||| has_prefix(trimmed, "while "@)
    ||| has_prefix(trimmed, "for "@)
    ||| has_prefix(trimmed, "do"@)
    ||| has_prefix(trimmed, "function "@)
    ||| has_prefix(trimmed, "task function "@)
    ||| has_prefix(trimmed, "object "@)
    ||| has_prefix(trimmed, "enum "@)
    ||| has_prefix(trimmed, "on "@)
    ||| has_prefix(trimmed, "once "@)
    ||| has_prefix(trimmed, "watch "@)
    ||| has_prefix(trimmed, "spawn "@)
}

/// Whether a trimmed line opens a block that an `end` closes.
pub fn starts_end_scoped_block(trimmed: &str) -> (b: bool)
    ensures
        b == opens_end_block(trimmed@),
{
    let t = chars_of(trimmed);
    let prefixes: [&str; 14] = [
        "if ",
        "switch ",
        "match ",
        "while ",
        "for ",
        "do",
        "function ",
        "task function ",
        "object ",
        "enum ",
        "on ",
        "once ",
        "watch ",
        "spawn ",
    ];
    let mut i: usize = 0;
    while i < 14
        invariant
            i <= 14,
            prefixes@ == seq![
                "if ",
                "switch ",
                "match ",
                "while ",
                "for ",
                "do",
                "function ",
                "task function ",
                "object ",
                "enum ",
                "on ",
                "once ",
                "watch ",
                "spawn ",
            ],
            t@ == trimmed@,
            forall|j: int| 0 <= j < i ==> !has_prefix(t@, (#[trigger] prefixes@[j])@),
        decreases 14 - i,
    {
        let p = chars_of(prefixes[i]);
        if chars_have_prefix(t.as_slice(), p.as_slice()) {
            return true;
        }
        i = i + 1;
    }
    assert(!has_prefix(t@, prefixes@[0]@));
    assert(!has_prefix(t@, prefixes@[1]@));
    assert(!has_prefix(t@, prefixes@[2]@));
    assert(!has_prefix(t@, prefixes@[3]@));
    assert(!has_prefix(t@, prefixes@[4]@));
    assert(!has_prefix(t@, prefixes@[5]@));
    assert(!has_prefix(t@, prefixes@[6]@));
    assert(!has_prefix(t@, prefixes@[7]@));
    assert(!has_prefix(t@, prefixes@[8]@));
    assert(!has_prefix(t@, prefixes@[9]@));
    assert(!has_prefix(t@, prefixes@[10]@));
    assert(!has_prefix(t@, prefixes@[11]@));
    assert(!has_prefix(t@, prefixes@[12]@));
    assert(!has_prefix(t@, prefixes@[13]@));
    false
}

/// The whitespace that `line` begins with.
pub open spec fn leading_ws(line: Seq<char>) -> Seq<char> {
    line.subrange(0, line.len() - trim_start(line).len())
}

/// The indentation of `line`.
pub fn leading_whitespace(line: &str) -> (r: String)
    ensures
        r@ == leading_ws(line@),
{
    let lc = chars_of(line);
    let n = leading_ws_len(lc.as_slice());
    string_from_chars(sub_chars(lc.as_slice(), 0, n).as_slice())
}

/// The last line at or before `l` whose trimmed text starts with `keyword`.
pub open spec fn head_line_upto(ls: Seq<Seq<char>>, keyword: Seq<char>, l: int) -> Option<int>
    decreases l + 1,
{
    if l < 0 {
        None
    } else if has_prefix(trim_start(ls[l]), keyword) {
        Some(l)
    } else {
        head_line_upto(ls, keyword, l - 1)
    }
}

/// The line of the `end` that closes a block, scanning from line `i` with
/// `depth` nested blocks open.
pub open spec fn block_end_from(ls: Seq<Seq<char>>, i: int, depth: nat) -> Option<int>
    decreases ls.len() - i,
{
    if i < 0 || i >= ls.len() {
        None
    } else {
        let t = trim_start(ls[i]);
        let d = if opens_end_block(t) {
            depth + 1
        } else {
            depth
        };
        if t == "end"@ {
            if d == 0 {
                Some(i)
            } else {
                block_end_from(ls, i + 1, (d - 1) as nat)
            }
        } else {
            block_end_from(ls, i + 1, d)
        }
    }
}

/// The block around line `requested`: the line of its `keyword`, the line
/// of its closing `end`, and the indentation of its body.
pub open spec fn block_bounds_of(ls: Seq<Seq<char>>, requested: int, keyword: Seq<char>) -> Option<
    (int, int, Seq<char>),
> {
    let top = if requested < ls.len() - 1 {
        requested
    } else {
        ls.len() - 1
    };
    match head_line_upto(ls, keyword, top) {
        None => None,
        Some(head) => match block_end_from(ls, head + 1, 0) {
            None => None,
            Some(end) => Some((head, end, leading_ws(ls[head]) + "    "@)),
        },
    }
}

/// Finds the block that contains `requested_line` and starts with
/// `head_keyword`.
pub fn block_bounds(lines: &Vec<String>, requested_line: usize, head_keyword: &str) -> (r: Option<
    (usize, usize, String),
>)
    requires
        lines@.len() > 0,
    ensures
        r matches Some((h, e, ind)) ==> block_bounds_of(
            views(lines@),
            requested_line as int,
            head_keyword@,
        ) == Some((h as int, e as int, ind@)),
        r is None ==> block_bounds_of(views(lines@), requested_line as int, head_keyword@) is None,
        r matches Some((h, e, _)) ==> h < e < lines@.len(),
{
    let ghost ls = views(lines@);
    assert(ls.len() == lines@.len());
    let kw = chars_of(head_keyword);
    let top = if requested_line < lines.len() - 1 {
        requested_line
    } else {
        lines.len() - 1
    };
    let mut l: usize = top;
    loop
        invariant
            l <= top < lines@.len(),
            top as int == (if requested_line < lines@.len() - 1 {
                requested_line as int
            } else {
                lines@.len() - 1
            }),
            ls == views(lines@),
            kw@ == head_keyword@,
            head_line_upto(ls, kw@, top as int) == head_line_upto(ls, kw@, l as int),
        ensures
            l <= top,
            head_line_upto(ls, kw@, top as int) == Some(l as int),
        decreases l,
    {
        let lc = chars_of(lines[l].as_str());
        assert(ls[l as int] == lc@);
        let t = trim_start_chars(lc.as_slice());
        if chars_have_prefix(t.as_slice(), kw.as_slice()) {
            break;
        }
        if l == 0 {
            assert(head_line_upto(ls, kw@, -1) is None);
            assert(head_line_upto(ls, kw@, 0) is None);
            assert(head_line_upto(ls, head_keyword@, top as int) is None);
            assert(block_bounds_of(ls, requested_line as int, head_keyword@) is None);
            return None;
        }
        l = l - 1;
    }
    let head = l;
    assert(head_line_upto(ls, kw@, top as int) == Some(head as int));
    let ws = leading_whitespace(lines[head].as_str());
    let indent = concat2(ws.as_str(), "    ");
    assert(ls[head as int] == lines@[head as int]@);
    let mut depth: usize = 0;
    let mut i: usize = head + 1;
    while i < lines.len()
        invariant
            head < i <= lines@.len(),
            depth <= i,
            ls == views(lines@),
            indent@ == leading_ws(ls[head as int]) + "    "@,
            head_line_upto(ls, head_keyword@, if requested_line < lines@.len() - 1 {
                requested_line as int
            } else {
                lines@.len() - 1
            }) == Some(head as int),
            block_end_from(ls, head + 1, 0) == block_end_from(ls, i as int, depth as nat),
        decreases lines.len() - i,
    {
        let lc = chars_of(lines[i].as_str());
        assert(ls[i as int] == lc@);
        let tc = trim_start_chars(lc.as_slice());
        let trimmed = string_from_chars(tc.as_slice());
        if starts_end_scoped_block(trimmed.as_str()) {
            depth = depth + 1;
        }
        let end_word = chars_of("end");
        let is_end = tc.len() == end_word.len() && chars_have_prefix(tc.as_slice(), end_word.as_slice());
        proof {
            if is_end {
                assert(tc@ =~= end_word@);
            } else if tc@ == end_word@ {
                assert(tc@.subrange(0, end_word@.len() as int) =~= tc@);
            }
        }
        if is_end {
            if depth == 0 {
                assert(block_end_from(ls, head + 1, 0) == Some(i as int));
                assert(indent@ == leading_ws(ls[head as int]) + "    "@);
                return Some((head, i, indent));
            }
            depth = depth - 1;
        }
        i = i + 1;
    }
    None
}

/// The quick fix that adds a `default` branch to a `switch`: the line to
/// insert at and the text to insert.
pub open spec fn switch_default_insert(source: Seq<char>, line: int) -> Option<(int, Seq<char>)> {
    let ls = lines(source);
    match block_bounds_of(ls, line, "switch"@) {
        None => None,
        Some((head, end, indent)) => {
            let is_expression = exists|j: int|
                head <= j < end && has_prefix(trim_start(#[trigger] ls[j]), "case "@)
                    && find(ls[j], " then "@) is Some;
            Some(
                (
                    end,
                    if is_expression {
                        indent + "default then nil\n"@
                    } else {
                        indent + "default\n"@ + indent + "    -- TODO\n"@
                    },
                ),
            )
        },
    }
}

/// The `default` branch quick fix for the `switch` around `line`.
pub fn switch_default_edit(source: &str, line: usize) -> (r: Option<(usize, String)>)
    requires
        lines(source@).len() > 0,
    ensures
        r matches Some((e, text)) ==> switch_default_insert(source@, line as int) == Some(
            (e as int, text@),
        ),
        r is None ==> switch_default_insert(source@, line as int) is None,
{
    let ls = lines_of(source);
    let (switch_line, end_line, indent) = match block_bounds(&ls, line, "switch") {
        None => return None,
        Some(b) => b,
    };
    let case_mark = chars_of("case ");
    let then_mark = chars_of(" then ");
    let mut is_expression = false;
    let mut j: usize = switch_line;
    let ghost vs = views(ls@);
    while j < end_line
        invariant
            switch_line <= j <= end_line,
            end_line < ls@.len(),
            vs == views(ls@),
            case_mark@ == "case "@,
            then_mark@ == " then "@,
            is_expression == exists|k: int|
                switch_line <= k < j && has_prefix(trim_start(#[trigger] vs[k]), "case "@) && find(
                    vs[k],
                    " then "@,
                ) is Some,
        decreases end_line - j,
    {
        let lc = chars_of(ls[j].as_str());
        assert(vs[j as int] == lc@);
        let t = trim_start_chars(lc.as_slice());
        let hit = chars_have_prefix(t.as_slice(), case_mark.as_slice()) && find_chars(
            lc.as_slice(),
            then_mark.as_slice(),
        ).is_some();
        proof {
            if !hit {
                assert(!(has_prefix(trim_start(vs[j as int]), "case "@) && find(
                    vs[j as int],
                    " then "@,
                ) is Some));
            }
        }
        if hit {
            is_expression = true;
        }
        j = j + 1;
    }
    let text = if is_expression {
        concat2(indent.as_str(), "default then nil\n")
    } else {
        let mut t = concat2(indent.as_str(), "default\n");
        t.append(indent.as_str());
        t.append("    -- TODO\n");
        t
    };
    Some((end_line, text))
}

/// The quick fix that adds a catch-all `_` case to a `match`: the line to
/// insert at and the text to insert.
pub open spec fn match_fallback_insert(source: Seq<char>, line: int) -> Option<(int, Seq<char>)> {
    match block_bounds_of(lines(source), line, "match"@) {
        None => None,
        Some((_head, end, indent)) => Some((end, indent + "_\n"@ + indent + "    -- TODO\n"@)),
    }
}

/// The catch-all case quick fix for the `match` around `line`.
pub fn match_fallback_edit(source: &str, line: usize) -> (r: Option<(usize, String)>)
    requires
        lines(source@).len() > 0,
    ensures
        r matches Some((e, text)) ==> match_fallback_insert(source@, line as int) == Some(
            (e as int, text@),
        ),
        r is None ==> match_fallback_insert(source@, line as int) is None,
{
    let ls = lines_of(source);
    let (_match_line, end_line, indent) = match block_bounds(&ls, line, "match") {
        None => return None,
        Some(b) => b,
    };
    let mut t = concat2(indent.as_str(), "_\n");
    t.append(indent.as_str());
    t.append("    -- TODO\n");
    Some((end_line, t))
}


/// The byte offset of the zero-based `line` and `character` in `source`,
/// scanning from character `k` at byte `offset`, on line `cur_line` and
/// character `cur_char`: a character past the end of its line gives the
/// offset of that line's newline, a position past the text its length.
pub open spec fn offset_scan(
    s: Seq<char>,
    line: int,
    character: int,
    k: int,
    cur_line: int,
    cur_char: int,
    offset: int,
) -> int
    decreases s.len() - k,
{
    if k < 0 || k >= s.len() {
        utf8_len(s) as int
    } else if cur_line == line && cur_char == character {
        offset
    } else if s[k] == '\n' {
        if cur_line + 1 > line {
            offset
        } else {
            offset_scan(s, line, character, k + 1, cur_line + 1, 0, offset + 1)
        }
    } else {
        offset_scan(s, line, character, k + 1, cur_line, cur_char + 1, offset + utf8_width(s[k]))
    }
}

/// The byte offset of a zero-based editor position.
pub open spec fn position_offset(s: Seq<char>, line: int, character: int) -> int {
    offset_scan(s, line, character, 0, 0, 0, 0)
}

/// Converts a zero-based line and character to a byte offset in `source`.
pub fn position_to_offset(source: &str, line: usize, character: usize) -> (r: usize)
    ensures
        r as int == position_offset(source@, line as int, character as int),
{
    let sc = chars_of(source);
    let total = crate::text::str_byte_len(source);
    let mut current_line: usize = 0;
    let mut current_char: usize = 0;
    let mut offset: usize = 0;
    let mut k: usize = 0;
    while k < sc.len()
        invariant
            k <= sc@.len(),
            sc@ == source@,
            total == utf8_len(source@),
            current_line <= k,
            current_char <= k,
            offset as int == utf8_len(sc@.subrange(0, k as int)),
            position_offset(source@, line as int, character as int) == offset_scan(
                source@,
                line as int,
                character as int,
                k as int,
                current_line as int,
                current_char as int,
                offset as int,
            ),
        decreases sc.len() - k,
    {
        if current_line == line && current_char == character {
            return offset;
        }
        let ch = sc[k];
        proof {
            assert(sc@.subrange(0, k + 1).drop_last() =~= sc@.subrange(0, k as int));
            crate::text::lemma_utf8_len_prefix(sc@, k + 1);
        }
        if ch == '\n' {
            current_line = current_line + 1;
            current_char = 0;
            if current_line > line {
                return offset;
            }
            offset = offset + 1;
        } else {
            current_char = current_char + 1;
            offset = offset + char_utf8_width(ch);
        }
        k = k + 1;
    }
    assert(sc@.subrange(0, sc@.len() as int) =~= sc@);
    offset
}

/// The end of the last line of `source`: its zero-based line and its
/// length in characters (`(0, 0)` for text without lines).
pub open spec fn document_end(source: Seq<char>) -> (int, int) {
    let ls = lines(source);
    if ls.len() == 0 {
        (0, 0)
    } else {
        (ls.len() - 1, ls.last().len() as int)
    }
}

/// The position where a document ends.
pub fn full_document_range(source: &str) -> (r: (usize, usize))
    ensures
        (r.0 as int, r.1 as int) == document_end(source@),
{
    let ls = lines_of(source);
    let n = ls.len();
    if n == 0 {
        (0, 0)
    } else {
        let last = chars_of(ls[n - 1].as_str());
        assert(views(ls@)[n - 1] == ls@[n - 1]@);
        (n - 1, last.len())
    }
}

/// Where a front-end message points, zero-based: its one-based
/// `line:column` moved back by one each, or the start of the document.
pub open spec fn message_position(message: Seq<char>) -> (usize, usize) {
    match one_based_position(message) {
        Some((l, c)) => (
            if l > 0 {
                (l - 1) as usize
            } else {
                0
            },
            if c > 0 {
                (c - 1) as usize
            } else {
                0
            },
        ),
        None => (0, 0),
    }
}

/// The zero-based position that a diagnostic for a front-end message has.
pub fn diagnostic_position_from_message(message: &str) -> (r: (usize, usize))
    ensures
        r == message_position(message@),
{
    match extract_one_based_position(message) {
        Some((line, col)) => (line.saturating_sub(1), col.saturating_sub(1)),
        None => (0, 0),
    }
}

/// Where a Luau validation error points, or the start of the document.
pub open spec fn validation_position(message: Seq<char>) -> (usize, usize) {
    match zero_based_validation_position(message) {
        Some(p) => p,
        None => (0, 0),
    }
}

/// The zero-based position that a diagnostic for a validation error has.
pub fn diagnostic_position_from_validation(message: &str) -> (r: (usize, usize))
    ensures
        r == validation_position(message@),
{
    match extract_zero_based_validation_position(message) {
        Some(p) => p,
        None => (0, 0),
    }
}

/// The hover text of one parameter: `name`, `name: type`, `...`,
/// `...: type`, or `_` for a destructuring pattern.
pub open spec fn param_text(p: Param) -> Seq<char> {
    match p {
        Param::Binding(b) => match b.pattern {
            Pattern::Name(n) => match b.type_annotation {
                Some(a) => n@ + ": "@ + a@,
                None => n@,
            },
            _ => "_"@,
        },
        Param::VarArg(Some(a)) => "...: "@ + a@,
        Param::VarArg(None) => "..."@,
    }
}

/// The hover text of a parameter list, joined with `, `.
pub open spec fn params_text(ps: Seq<Param>) -> Seq<char> {
    join(ps.map_values(|p: Param| param_text(p)), ", "@)
}

/// Renders a parameter list for hovers and signatures.
pub fn render_params(params: &Vec<Param>) -> (r: String)
    ensures
        r@ == params_text(params@),
{
    let mut pieces: Vec<String> = Vec::new();
    let mut i: usize = 0;
    while i < params.len()
        invariant
            i <= params@.len(),
            views(pieces@) == params@.subrange(0, i as int).map_values(|p: Param| param_text(p)),
        decreases params.len() - i,
    {
        let piece = match &params[i] {
            Param::Binding(b) => match &b.pattern {
                Pattern::Name(n) => match &b.type_annotation {
                    Some(a) => concat3(n.as_str(), ": ", a.as_str()),
                    None => n.clone(),
                },
                _ => String::from_str("_"),
            },
            Param::VarArg(Some(a)) => concat2("...: ", a.as_str()),
            Param::VarArg(None) => String::from_str("..."),
        };
        push_line(&mut pieces, piece);
        i = i + 1;
        assert(views(pieces@) =~= params@.subrange(0, i as int).map_values(
            |p: Param| param_text(p),
        ));
    }
    assert(params@.subrange(0, params@.len() as int) =~= params@);
    join_strings(&pieces, ", ")
}

/// The hover text of an enum: its name, then each member on an indented
/// line.
pub open spec fn enum_hover(decl: EnumDecl) -> Seq<char> {
    join(
        seq!["enum "@ + decl.name@] + decl.members@.map_values(|m: EnumMember| "  "@ + m.name@),
        seq!['\n'],
    )
}

/// Renders the hover text of an enum declaration.
pub fn render_enum_hover(decl: &EnumDecl) -> (r: String)
    ensures
        r@ == enum_hover(*decl),
{
    let mut lines: Vec<String> = Vec::new();
    push_line(&mut lines, concat2("enum ", decl.name.as_str()));
    let mut i: usize = 0;
    while i < decl.members.len()
        invariant
            i <= decl.members@.len(),
            views(lines@) == seq!["enum "@ + decl.name@] + decl.members@.subrange(0, i as int).map_values(
                |m: EnumMember| "  "@ + m.name@,
            ),
        decreases decl.members.len() - i,
    {
        push_line(&mut lines, concat2("  ", decl.members[i].name.as_str()));
        i = i + 1;
        assert(views(lines@) =~= seq!["enum "@ + decl.name@] + decl.members@.subrange(
            0,
            i as int,
        ).map_values(|m: EnumMember| "  "@ + m.name@));
    }
    assert(decl.members@.subrange(0, decl.members@.len() as int) =~= decl.members@);
    let r = join_strings(&lines, "\n");
    proof {
        reveal_strlit("\n");
        assert("\n"@ =~= seq!['\n']);
    }
    r
}

/// Whether `c` opens or closes a string literal.
pub open spec fn is_quote(c: char) -> bool {
    c == '"' || c == '\'' || c == '`'
}

/// The text of a string literal without its quotes: the lexeme with one
/// quote character removed from each end, or the whole lexeme when it does
/// not both start and end with one.
pub open spec fn unquoted(lexeme: Seq<char>) -> Seq<char> {
    if lexeme.len() > 0 && is_quote(lexeme[0]) && lexeme.len() > 1 && is_quote(lexeme.last()) {
        lexeme.subrange(1, lexeme.len() - 1)
    } else {
        lexeme
    }
}

/// The text of a string literal token without its quotes.
pub fn decode_string_lexeme(lexeme: &str) -> (r: String)
    ensures
        r@ == unquoted(lexeme@),
{
    let chars = chars_of(lexeme);
    let n = chars.len();
    let quote = |c: char| -> (b: bool)
        ensures
            b == is_quote(c),
        { c == '"' || c == '\'' || c == '`' };
    if n > 1 && quote(chars[0]) && quote(chars[n - 1]) {
        string_from_chars(sub_chars(chars.as_slice(), 1, n - 1).as_slice())
    } else {
        String::from_str(lexeme)
    }
}

/// The hover text of a function declaration:
/// `function name<generics>(params): return type`, the generics and the
/// return type only where the declaration has them.
pub open spec fn function_signature(f: FunctionDecl) -> Seq<char> {
    "function "@ + f.name.root@ + match f.generics {
        Some(g) => g@,
        None => seq![],
    } + "("@ + params_text(f.params@) + ")"@ + match f.return_type {
        Some(t) => ": "@ + t@,
        None => seq![],
    }
}

/// Renders the signature of a function declaration for hovers.
pub fn render_function_signature(function: &FunctionDecl) -> (r: String)
    ensures
        r@ == function_signature(*function),
{
    let mut text = String::new();
    text.append("function ");
    text.append(function.name.root.as_str());
    match &function.generics {
        Some(generics) => text.append(generics.as_str()),
        None => {},
    }
    text.append("(");
    text.append(render_params(&function.params).as_str());
    text.append(")");
    match &function.return_type {
        Some(return_type) => {
            text.append(": ");
            text.append(return_type.as_str());
        },
        None => {},
    }
    assert(text@ =~= function_signature(*function));
    text
}

/// An error diagnostic: the line and character where it starts and the
/// character where it ends (one past the start, on the same line), all
/// zero-based; its severity (1, an error); and its message.
#[derive(Debug)]
pub struct Diagnostic {
    pub line: usize,
    pub character: usize,
    pub end_character: usize,
    pub severity: u8,
    pub message: String,
}

/// A diagnostic as plain values: line, start and end character, severity,
/// message.
pub type DiagnosticView = (usize, usize, usize, u8, Seq<char>);

/// A diagnostic as plain values.
pub open spec fn diagnostic_view(d: Diagnostic) -> DiagnosticView {
    (d.line, d.character, d.end_character, d.severity, d.message@)
}

/// The error diagnostic at `line`, `character` with `message`: it spans one
/// character (none at the largest `usize`).
pub open spec fn error_at(line: usize, character: usize, message: Seq<char>) -> DiagnosticView {
    (line, character, if character < usize::MAX {
        (character + 1) as usize
    } else {
        character
    }, 1u8, message)
}

/// The diagnostic for a front-end message, placed where it points.
pub open spec fn message_diagnostic(message: Seq<char>) -> DiagnosticView {
    error_at(message_position(message).0, message_position(message).1, message)
}

/// The diagnostic for one line of a Luau validation error, trimmed.
pub open spec fn validation_diagnostic(line: Seq<char>) -> DiagnosticView {
    error_at(validation_position(trim(line)).0, validation_position(trim(line)).1, trim(line))
}

/// The error diagnostic at `line`, `character` with `message`.
pub fn error_diagnostic(line: usize, character: usize, message: String) -> (d: Diagnostic)
    ensures
        diagnostic_view(d) == error_at(line, character, message@),
{
    Diagnostic { line, character, end_character: character.saturating_add(1), severity: 1, message }
}

/// The diagnostics that a compile error is reported as: one per lexer or
/// parser message and per semantic error; one per line of a validation
/// error; otherwise one at the start of the document with the error's text.
pub open spec fn error_diagnostics(e: CompilerError) -> Seq<DiagnosticView> {
    match e {
        CompilerError::Lex { message } => seq![message_diagnostic(message@)],
        CompilerError::Parse { message } => seq![message_diagnostic(message@)],
        CompilerError::Semantic { messages } => views(messages@).map_values(
            |m: Seq<char>| message_diagnostic(m),
        ),
        CompilerError::Validation { message } => lines(message@).map_values(
            |l: Seq<char>| validation_diagnostic(l),
        ),
        _ => seq![error_at(0, 0, error_text(e))],
    }
}

/// The diagnostic for a front-end message.
pub fn diagnostic_from_message(message: &str) -> (d: Diagnostic)
    ensures
        diagnostic_view(d) == message_diagnostic(message@),
{
    let (line, character) = diagnostic_position_from_message(message);
    error_diagnostic(line, character, message.to_string())
}

/// The diagnostic for one (trimmed) line of a validation error.
pub fn diagnostic_from_validation(message: &str) -> (d: Diagnostic)
    ensures
        diagnostic_view(d) == error_at(
            validation_position(message@).0,
            validation_position(message@).1,
            message@,
        ),
{
    let (line, character) = diagnostic_position_from_validation(message);
    error_diagnostic(line, character, message.to_string())
}

/// The diagnostics that an editor shows for a compile error.
pub fn error_to_diagnostics(error: &CompilerError) -> (r: Vec<Diagnostic>)
    ensures
        r@.map_values(|d: Diagnostic| diagnostic_view(d)) == error_diagnostics(*error),
{
    let mut r: Vec<Diagnostic> = Vec::new();
    match error {
        CompilerError::Lex { message } => {
            r.push(diagnostic_from_message(message.as_str()));
        },
        CompilerError::Parse { message } => {
            r.push(diagnostic_from_message(message.as_str()));
        },
        CompilerError::Semantic { messages } => {
            let ghost ms = views(messages@);
            let mut i: usize = 0;
            while i < messages.len()
                invariant
                    i <= messages@.len(),
                    ms == views(messages@),
                    r@.map_values(|d: Diagnostic| diagnostic_view(d)) == ms.subrange(
                        0,
                        i as int,
                    ).map_values(|m: Seq<char>| message_diagnostic(m)),
                decreases messages.len() - i,
            {
                let ghost before = r@;
                assert(before.map_values(|d: Diagnostic| diagnostic_view(d)).len() == i);
                let d = diagnostic_from_message(messages[i].as_str());
                assert(ms[i as int] == messages@[i as int]@);
                r.push(d);
                proof {
                    let sub = ms.subrange(0, i + 1).map_values(|m: Seq<char>| message_diagnostic(m));
                    let old_sub = ms.subrange(0, i as int).map_values(
                        |m: Seq<char>| message_diagnostic(m),
                    );
                    let now = r@.map_values(|d: Diagnostic| diagnostic_view(d));
                    assert forall|j: int| 0 <= j < i implies now[j] == sub[j] by {
                        assert(r@[j] == before[j]);
                        assert(before.map_values(|d: Diagnostic| diagnostic_view(d))[j] == old_sub[j]);
                    }
                    assert(now =~= sub);
                }
                i = i + 1;
            }
            assert(ms.subrange(0, messages@.len() as int) =~= ms);
        },
        CompilerError::Validation { message } => {
            let ls = lines_of(message.as_str());
            let ghost vs = views(ls@);
            let mut i: usize = 0;
            while i < ls.len()
                invariant
                    i <= ls@.len(),
                    vs == views(ls@),
                    r@.map_values(|d: Diagnostic| diagnostic_view(d)) == vs.subrange(
                        0,
                        i as int,
                    ).map_values(|l: Seq<char>| validation_diagnostic(l)),
                decreases ls.len() - i,
            {
                let ghost before = r@;
                assert(before.map_values(|d: Diagnostic| diagnostic_view(d)).len() == i);
                let trimmed = trim_str(ls[i].as_str());
                let d = diagnostic_from_validation(trimmed.as_str());
                assert(vs[i as int] == ls@[i as int]@);
                r.push(d);
                proof {
                    let sub = vs.subrange(0, i + 1).map_values(
                        |l: Seq<char>| validation_diagnostic(l),
                    );
                    let old_sub = vs.subrange(0, i as int).map_values(
                        |l: Seq<char>| validation_diagnostic(l),
                    );
                    let now = r@.map_values(|d: Diagnostic| diagnostic_view(d));
                    assert forall|j: int| 0 <= j < i implies now[j] == sub[j] by {
                        assert(r@[j] == before[j]);
                        assert(before.map_values(|d: Diagnostic| diagnostic_view(d))[j] == old_sub[j]);
                    }
                    assert(now =~= sub);
                }
                i = i + 1;
            }
            assert(vs.subrange(0, ls@.len() as int) =~= vs);
        },
        _ => {
            let text = error.message();
            r.push(error_diagnostic(0, 0, text));
        },
    }
    assert(r@.map_values(|d: Diagnostic| diagnostic_view(d)) =~= error_diagnostics(*error));
    r
}

/// `find_from` skips the places where `p` does not occur.
proof fn lemma_find_from_at(s: Seq<char>, p: Seq<char>, k: int, j: int)
    requires
        0 <= k <= j,
        occurs_at(s, p, j),
        forall|i: int| k <= i < j ==> !occurs_at(s, p, i),
    ensures
        find_from(s, p, k) == Some(j),
    decreases j - k,
{
    if k < j {
        lemma_find_from_at(s, p, k + 1, j);
    }
}

/// The name that an assignment-to-constant error names is read back from
/// the message by the editor's quick fix, for any name without a backtick.
pub proof fn law_const_message_names_its_constant(name: Seq<char>)
    requires
        forall|i: int| 0 <= i < name.len() ==> name[i] != '`',
    ensures
        const_name_in(crate::emitter::laws::const_message(name)) == Some(name),
{
    reveal_strlit("cannot assign to const `");
    reveal_strlit("`");
    reveal_strlit("const `");
    let m = crate::emitter::laws::const_message(name);
    let head = "cannot assign to const `"@;
    let marker = "const `"@;
    assert(m == head + name + "`"@);
    assert(m.subrange(17, 24) =~= marker);
    assert forall|i: int| 0 <= i < 17 implies !occurs_at(m, marker, i) by {
        if occurs_at(m, marker, i) {
            assert(m.subrange(i, i + 7)[0] == marker[0]);
            assert(m.subrange(i, i + 7)[1] == marker[1]);
            assert(m[i] == head[i]);
            assert(m[i + 1] == head[i + 1]);
        }
    }
    lemma_find_from_at(m, marker, 0, 17);
    let rest = m.subrange(24, m.len() as int);
    assert(rest =~= name + "`"@);
    let tick = seq!['`'];
    assert(rest.subrange(name.len() as int, name.len() as int + 1) =~= tick);
    assert forall|i: int| 0 <= i < name.len() implies !occurs_at(rest, tick, i) by {
        if occurs_at(rest, tick, i) {
            assert(rest.subrange(i, i + 1)[0] == tick[0]);
            assert(rest[i] == name[i]);
        }
    }
    lemma_find_from_at(rest, tick, 0, name.len() as int);
    assert(rest.subrange(0, name.len() as int) =~= name);
}

} // verus!
