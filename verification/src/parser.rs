//! The XLuau front end: source text to tokens, tokens to the syntax tree.
//!
//! The lexer splits the text into names, numbers, strings and symbols,
//! skipping whitespace and comments; every token remembers where it starts.
//! The parser is a recursive descent over the tokens; type annotations are
//! kept as the source text they span. Nesting deeper than a fixed limit is
//! reported as a parse error rather than exhausting the stack.

use vstd::prelude::*;

use crate::ast::{
    ArrayPatternItem, AssignTarget, Assignment, BinaryOp, Binding, Block, ChainSegment, CompoundOp,
    EnumDecl, EnumMember, Expr, ForGeneric, ForNumeric, FunctionDecl, FunctionExpr, FunctionName,
    IfStmt, LocalDecl, MatchCase, MatchFieldPattern, MatchPattern, MatchStmt, Param, Pattern,
    PatternBinding, PipeStage, Program, Stmt, SwitchCase, SwitchExprCase, SwitchStmt, TableField,
    TablePatternEntry, UnaryOp,
};
use crate::compiler::CompilerError;
use crate::emitter::{decimal, decimal_string};
use crate::emitter::lowering::{op_prec, right_assoc};
use crate::emitter::types::chars_eq;
use crate::text::{chars_of, is_whitespace, is_ws, rfind_chars, string_from_chars, sub_chars};

verus! {

/// A token's kind: a name (keywords included), a number, a string, a
/// symbol, or the end of the input.
#[derive(Clone, Copy, Debug, PartialEq, Eq, Structural)]
pub enum TokenKind {
    Name,
    Number,
    Str,
    Symbol,
    Eof,
}

/// A token: its kind, its text, the characters it spans, and its
/// one-based line and column.
#[derive(Debug)]
pub struct Token {
    pub kind: TokenKind,
    pub text: String,
    pub start: usize,
    pub end: usize,
    pub line: usize,
    pub column: usize,
}

/// How deep expressions and blocks may nest.
pub const MAX_DEPTH: usize = 1000;

/// The message of a front-end error: `message at line:column`.
pub open spec fn positioned(message: Seq<char>, line: int, column: int) -> Seq<char> {
    message + " at "@ + decimal(line as nat) + ":"@ + decimal(column as nat)
}

/// `message at line:column`.
fn at_position(message: &str, line: usize, column: usize) -> (r: String)
    ensures
        r@ == positioned(message@, line as int, column as int),
{
    let mut m = String::from_str(message);
    m.append(" at ");
    m.append(decimal_string(line).as_str());
    m.append(":");
    m.append(decimal_string(column).as_str());
    m
}

/// An ASCII letter or `_`.
pub open spec fn alpha(c: char) -> bool {
    ('a' <= c && c <= 'z') || ('A' <= c && c <= 'Z') || c == '_'
}

/// An ASCII digit.
pub open spec fn digit(c: char) -> bool {
    '0' <= c && c <= '9'
}

fn is_alpha(c: char) -> (b: bool)
    ensures
        b == alpha(c),
{
    ('a' <= c && c <= 'z') || ('A' <= c && c <= 'Z') || c == '_'
}

fn is_digit_char(c: char) -> (b: bool)
    ensures
        b == digit(c),
{
    '0' <= c && c <= '9'
}

/// The character at `i`, or a NUL past the end.
pub open spec fn char_at(s: Seq<char>, i: int) -> char {
    if 0 <= i < s.len() {
        s[i]
    } else {
        '\0'
    }
}

fn char_at_exec(s: &Vec<char>, i: usize) -> (c: char)
    ensures
        c == char_at(s@, i as int),
{
    if i < s.len() {
        s[i]
    } else {
        '\0'
    }
}

/// The characters that are symbols on their own.
pub open spec fn single_symbol(c: char) -> bool {
    c == '+' || c == '-' || c == '*' || c == '/' || c == '%' || c == '^' || c == '#' || c == '&'
        || c == '~' || c == '|' || c == '<' || c == '>' || c == '=' || c == '(' || c == ')' || c
        == '{' || c == '}' || c == '[' || c == ']' || c == ';' || c == ':' || c == ',' || c == '.'
        || c == '?'
}

/// Whether `a b c` is a three-character symbol: `...`, `..=`, `//=`, `??=`.
pub open spec fn triple_symbol(a: char, b: char, c: char) -> bool {
    (a == '.' && b == '.' && (c == '.' || c == '=')) || (a == '/' && b == '/' && c == '=') || (a
        == '?' && b == '?' && c == '=')
}

/// Whether `a b` is a two-character symbol: `..`, `==`, `~=`, `<=`, `>=`,
/// `//`, `::`, `->`, `|>`, `??`, `?.`, or an operator followed by `=`.
pub open spec fn pair_symbol(a: char, b: char) -> bool {
    (a == '.' && b == '.') || (b == '=' && (a == '=' || a == '~' || a == '<' || a == '>' || a == '+'
        || a == '-' || a == '*' || a == '/' || a == '%' || a == '^')) || (a == '/' && b == '/') || (
    a == ':' && b == ':') || (a == '-' && b == '>') || (a == '|' && b == '>') || (a == '?' && (b
        == '?' || b == '.'))
}

/// How many characters the symbol at `i` takes, longest first; 0 when no
/// symbol starts there.
pub open spec fn symbol_len(s: Seq<char>, i: int) -> int {
    if i < 0 || i >= s.len() {
        0
    } else if i + 3 <= s.len() && triple_symbol(s[i], s[i + 1], s[i + 2]) {
        3
    } else if i + 2 <= s.len() && pair_symbol(s[i], s[i + 1]) {
        2
    } else if single_symbol(s[i]) {
        1
    } else {
        0
    }
}

fn symbol_len_exec(s: &Vec<char>, i: usize) -> (r: usize)
    ensures
        r as int == symbol_len(s@, i as int),
{
    if i >= s.len() {
        return 0;
    }
    let c = s[i];
    if s.len() - i >= 3 && triple_symbol_exec(c, s[i + 1], s[i + 2]) {
        3
    } else if s.len() - i >= 2 && pair_symbol_exec(c, s[i + 1]) {
        2
    } else if single_symbol_exec(c) {
        1
    } else {
        0
    }
}

fn single_symbol_exec(c: char) -> (b: bool)
    ensures
        b == single_symbol(c),
{
    c == '+' || c == '-' || c == '*' || c == '/' || c == '%' || c == '^' || c == '#' || c == '&'
        || c == '~' || c == '|' || c == '<' || c == '>' || c == '=' || c == '(' || c == ')' || c
        == '{' || c == '}' || c == '[' || c == ']' || c == ';' || c == ':' || c == ',' || c == '.'
        || c == '?'
}

fn triple_symbol_exec(a: char, b: char, c: char) -> (r: bool)
    ensures
        r == triple_symbol(a, b, c),
{
    (a == '.' && b == '.' && (c == '.' || c == '=')) || (a == '/' && b == '/' && c == '=') || (a
        == '?' && b == '?' && c == '=')
}

fn pair_symbol_exec(a: char, b: char) -> (r: bool)
    ensures
        r == pair_symbol(a, b),
{
    (a == '.' && b == '.') || (b == '=' && (a == '=' || a == '~' || a == '<' || a == '>' || a == '+'
        || a == '-' || a == '*' || a == '/' || a == '%' || a == '^')) || (a == '/' && b == '/') || (
    a == ':' && b == ':') || (a == '-' && b == '>') || (a == '|' && b == '>') || (a == '?' && (b
        == '?' || b == '.'))
}

/// The index after the run of `=` starting at `j`.
pub open spec fn eq_run_end(s: Seq<char>, j: int) -> int
    decreases s.len() - j,
{
    if 0 <= j < s.len() && s[j] == '=' {
        eq_run_end(s, j + 1)
    } else {
        j
    }
}

/// The length and level of a long bracket `[[`, `[=[`, ... at `i`.
pub open spec fn long_open(s: Seq<char>, i: int) -> Option<(int, int)> {
    if 0 <= i < s.len() && s[i] == '[' {
        let j = eq_run_end(s, i + 1);
        if 0 <= j < s.len() && s[j] == '[' {
            Some((j + 1 - i, j - i - 1))
        } else {
            None
        }
    } else {
        None
    }
}

/// Where the first closing long bracket of `level` at or after `j` ends.
pub open spec fn long_close(s: Seq<char>, j: int, level: int) -> Option<int>
    decreases s.len() - j,
{
    if j < 0 || j >= s.len() {
        None
    } else if s[j] == ']' && 0 <= eq_run_end(s, j + 1) < s.len() && s[eq_run_end(s, j + 1)]
        == ']' && eq_run_end(s, j + 1) - j - 1 == level {
        Some(eq_run_end(s, j + 1) + 1)
    } else {
        long_close(s, j + 1, level)
    }
}

/// Where a string opened by the quote `q` ends, scanning from `j`: after
/// its closing quote; `None` when the text or (for `"` and `'`) the line
/// ends first. A backslash escapes the next character.
pub open spec fn string_end(s: Seq<char>, j: int, q: char) -> Option<int>
    decreases s.len() - j,
{
    if j < 0 || j >= s.len() {
        None
    } else if s[j] == '\\' && j + 1 < s.len() {
        string_end(s, j + 2, q)
    } else if s[j] == q {
        Some(j + 1)
    } else if s[j] == '\n' && q != '`' {
        None
    } else {
        string_end(s, j + 1, q)
    }
}

/// Whether the character at `j` continues a number.
pub open spec fn number_char(s: Seq<char>, j: int) -> bool {
    alpha(s[j]) || digit(s[j]) || s[j] == '.' || ((s[j] == '+' || s[j] == '-') && j > 0 && (s[j
        - 1] == 'e' || s[j - 1] == 'E'))
}

/// The end of a number continuing at `j`.
pub open spec fn number_end(s: Seq<char>, j: int) -> int
    decreases s.len() - j,
{
    if 0 <= j < s.len() && number_char(s, j) {
        number_end(s, j + 1)
    } else {
        j
    }
}

/// The end of a name continuing at `j`.
pub open spec fn name_end(s: Seq<char>, j: int) -> int
    decreases s.len() - j,
{
    if 0 <= j < s.len() && (alpha(s[j]) || digit(s[j])) {
        name_end(s, j + 1)
    } else {
        j
    }
}

/// The end of the line containing `j`.
pub open spec fn line_end(s: Seq<char>, j: int) -> int
    decreases s.len() - j,
{
    if 0 <= j < s.len() && s[j] != '\n' {
        line_end(s, j + 1)
    } else {
        j
    }
}

/// One more, unless already the largest `usize`.
pub open spec fn bump(n: int) -> int {
    if n < usize::MAX {
        n + 1
    } else {
        n
    }
}

/// The line number after the characters `a..b`, starting at `line`.
pub open spec fn lines_after(s: Seq<char>, a: int, b: int, line: int) -> int
    decreases b - a,
{
    if a >= b || a < 0 || a >= s.len() {
        line
    } else {
        lines_after(s, a + 1, b, if s[a] == '\n' {
            bump(line)
        } else {
            line
        })
    }
}

/// Where the line that holds position `b` starts, given that the line
/// holding `a` starts at `ls`.
pub open spec fn start_after(s: Seq<char>, a: int, b: int, ls: int) -> int
    decreases b - a,
{
    if a >= b || a < 0 || a >= s.len() {
        ls
    } else {
        start_after(s, a + 1, b, if s[a] == '\n' {
            a + 1
        } else {
            ls
        })
    }
}

/// A token as plain values: kind, text, start, end, line and column.
pub type TokenView = (TokenKind, Seq<char>, int, int, int, int);

/// A token's view.
pub open spec fn token_view(t: Token) -> TokenView {
    (t.kind, t.text@, t.start as int, t.end as int, t.line as int, t.column as int)
}

/// The views of a list of tokens.
pub open spec fn token_views(ts: Seq<Token>) -> Seq<TokenView> {
    ts.map_values(|t: Token| token_view(t))
}

/// The tokens of `s` from `i` on, after `acc`, on line `line` whose first
/// character is at `ls`; the message of the first lex error otherwise.
pub open spec fn lex_from(s: Seq<char>, i: int, line: int, ls: int, acc: Seq<TokenView>) -> Result<
    Seq<TokenView>,
    Seq<char>,
>
    decreases s.len() - i,
{
    if i < 0 || i >= s.len() {
        let n = s.len() as int;
        Ok(
            acc.push(
                (TokenKind::Eof, seq![], n, n, line, if ls <= n {
                    bump(n - ls)
                } else {
                    1
                }),
            ),
        )
    } else {
        let c = s[i];
        let column = bump(i - ls);
        if c == '\n' {
            lex_from(s, i + 1, bump(line), i + 1, acc)
        } else if is_ws(c) {
            lex_from(s, i + 1, line, ls, acc)
        } else if c == '-' && char_at(s, i + 1) == '-' {
            match long_open(s, i + 2) {
                Some((len, level)) => match long_close(s, i + 2 + len, level) {
                    Some(e) => if e > i && e <= s.len() {
                        lex_from(s, e, lines_after(s, i, e, line), start_after(s, i, e, ls), acc)
                    } else {
                        Err(seq![])
                    },
                    None => Err(positioned("unterminated comment"@, line, column)),
                },
                None => {
                    let e = line_end(s, i + 2);
                    if e > i && e <= s.len() {
                        lex_from(s, e, line, ls, acc)
                    } else {
                        Err(seq![])
                    }
                },
            }
        } else if c == '"' || c == '\'' || c == '`' {
            match string_end(s, i + 1, c) {
                Some(j) => if j > i && j <= s.len() {
                    lex_from(s, j, line, ls, acc.push((TokenKind::Str, s.subrange(i, j), i, j, line, column)))
                } else {
                    Err(seq![])
                },
                None => Err(positioned("unterminated string"@, line, column)),
            }
        } else if c == '[' && long_open(s, i) is Some {
            let (len, level) = long_open(s, i)->0;
            match long_close(s, i + len, level) {
                Some(e) => if e > i && e <= s.len() {
                    lex_from(
                        s,
                        e,
                        lines_after(s, i, e, line),
                        start_after(s, i, e, ls),
                        acc.push((TokenKind::Str, s.subrange(i, e), i, e, line, column)),
                    )
                } else {
                    Err(seq![])
                },
                None => Err(positioned("unterminated string"@, line, column)),
            }
        } else if digit(c) || (c == '.' && digit(char_at(s, i + 1))) {
            let j = number_end(s, i + 1);
            if j > i && j <= s.len() {
                lex_from(s, j, line, ls, acc.push((TokenKind::Number, s.subrange(i, j), i, j, line, column)))
            } else {
                Err(seq![])
            }
        } else if alpha(c) {
            let j = name_end(s, i + 1);
            if j > i && j <= s.len() {
                lex_from(s, j, line, ls, acc.push((TokenKind::Name, s.subrange(i, j), i, j, line, column)))
            } else {
                Err(seq![])
            }
        } else {
            let l = symbol_len(s, i);
            if l == 0 {
                Err(positioned("unexpected character"@, line, column))
            } else {
                lex_from(
                    s,
                    i + l,
                    line,
                    ls,
                    acc.push((TokenKind::Symbol, s.subrange(i, i + l), i, i + l, line, column)),
                )
            }
        }
    }
}

/// The tokens of a source, ending with an end-of-input token, or the
/// message of its first lex error: an unterminated string or comment, or a
/// character that starts no token.
pub open spec fn lex(s: Seq<char>) -> Result<Seq<TokenView>, Seq<char>> {
    lex_from(s, 0, 1, 0, seq![])
}

/// The tokens end with the end of input and hold it nowhere else.
pub open spec fn ends_once(ts: Seq<TokenView>) -> bool {
    &&& ts.len() > 0
    &&& ts.last().0 == TokenKind::Eof
    &&& forall|k: int| 0 <= k < ts.len() - 1 ==> #[trigger] ts[k].0 != TokenKind::Eof
}

/// Lexing adds the end of input once, after every other token.
proof fn lemma_lex_from_ends_once(s: Seq<char>, i: int, line: int, ls: int, acc: Seq<TokenView>)
    requires
        forall|k: int| 0 <= k < acc.len() ==> #[trigger] acc[k].0 != TokenKind::Eof,
    ensures
        lex_from(s, i, line, ls, acc) matches Ok(ts) ==> ends_once(ts),
    decreases s.len() - i,
{
    if i < 0 || i >= s.len() {
        let n = s.len() as int;
        let ts = acc.push(
            (TokenKind::Eof, seq![], n, n, line, if ls <= n {
                bump(n - ls)
            } else {
                1
            }),
        );
        assert forall|k: int| 0 <= k < ts.len() - 1 implies #[trigger] ts[k].0 != TokenKind::Eof by {
            assert(ts[k] == acc[k]);
        }
    } else {
        let c = s[i];
        let column = bump(i - ls);
        if c == '\n' {
            lemma_lex_from_ends_once(s, i + 1, bump(line), i + 1, acc);
        } else if is_ws(c) {
            lemma_lex_from_ends_once(s, i + 1, line, ls, acc);
        } else if c == '-' && char_at(s, i + 1) == '-' {
            match long_open(s, i + 2) {
                Some((len, level)) => match long_close(s, i + 2 + len, level) {
                    Some(e) => if e > i && e <= s.len() {
                        lemma_lex_from_ends_once(
                            s,
                            e,
                            lines_after(s, i, e, line),
                            start_after(s, i, e, ls),
                            acc,
                        );
                    },
                    None => {},
                },
                None => {
                    let e = line_end(s, i + 2);
                    if e > i && e <= s.len() {
                        lemma_lex_from_ends_once(s, e, line, ls, acc);
                    }
                },
            }
        } else if c == '"' || c == '\'' || c == '`' {
            match string_end(s, i + 1, c) {
                Some(j) => if j > i && j <= s.len() {
                    lemma_push_not_eof(acc, (TokenKind::Str, s.subrange(i, j), i, j, line, column));
                    lemma_lex_from_ends_once(
                        s,
                        j,
                        line,
                        ls,
                        acc.push((TokenKind::Str, s.subrange(i, j), i, j, line, column)),
                    );
                },
                None => {},
            }
        } else if c == '[' && long_open(s, i) is Some {
            let (len, level) = long_open(s, i)->0;
            match long_close(s, i + len, level) {
                Some(e) => if e > i && e <= s.len() {
                    let t = (TokenKind::Str, s.subrange(i, e), i, e, line, column);
                    lemma_push_not_eof(acc, t);
                    lemma_lex_from_ends_once(
                        s,
                        e,
                        lines_after(s, i, e, line),
                        start_after(s, i, e, ls),
                        acc.push(t),
                    );
                },
                None => {},
            }
        } else if digit(c) || (c == '.' && digit(char_at(s, i + 1))) {
            let j = number_end(s, i + 1);
            if j > i && j <= s.len() {
                let t = (TokenKind::Number, s.subrange(i, j), i, j, line, column);
                lemma_push_not_eof(acc, t);
                lemma_lex_from_ends_once(s, j, line, ls, acc.push(t));
            }
        } else if alpha(c) {
            let j = name_end(s, i + 1);
            if j > i && j <= s.len() {
                let t = (TokenKind::Name, s.subrange(i, j), i, j, line, column);
                lemma_push_not_eof(acc, t);
                lemma_lex_from_ends_once(s, j, line, ls, acc.push(t));
            }
        } else {
            let l = symbol_len(s, i);
            if l != 0 {
                let t = (TokenKind::Symbol, s.subrange(i, i + l), i, i + l, line, column);
                lemma_push_not_eof(acc, t);
                lemma_lex_from_ends_once(s, i + l, line, ls, acc.push(t));
            }
        }
    }
}

/// Adding a token other than the end of input keeps the end of input out.
proof fn lemma_push_not_eof(acc: Seq<TokenView>, t: TokenView)
    requires
        forall|k: int| 0 <= k < acc.len() ==> #[trigger] acc[k].0 != TokenKind::Eof,
        t.0 != TokenKind::Eof,
    ensures
        forall|k: int| 0 <= k < acc.push(t).len() ==> #[trigger] acc.push(t)[k].0 != TokenKind::Eof,
{
    assert forall|k: int| 0 <= k < acc.push(t).len() implies #[trigger] acc.push(t)[k].0
        != TokenKind::Eof by {
        if k < acc.len() {
            assert(acc.push(t)[k] == acc[k]);
        }
    }
}

proof fn lemma_eq_run_end(s: Seq<char>, j: int)
    requires
        0 <= j <= s.len(),
    ensures
        j <= eq_run_end(s, j) <= s.len(),
    decreases s.len() - j,
{
    if j < s.len() && s[j] == '=' {
        lemma_eq_run_end(s, j + 1);
    }
}

proof fn lemma_long_close(s: Seq<char>, j: int, level: int)
    requires
        0 <= j,
    ensures
        long_close(s, j, level) matches Some(e) ==> j < e <= s.len(),
    decreases s.len() - j,
{
    if j < s.len() {
        lemma_eq_run_end(s, j + 1);
        lemma_long_close(s, j + 1, level);
    }
}

proof fn lemma_string_end(s: Seq<char>, j: int, q: char)
    requires
        0 <= j,
    ensures
        string_end(s, j, q) matches Some(e) ==> j < e <= s.len(),
    decreases s.len() - j,
{
    if j < s.len() {
        lemma_string_end(s, j + 1, q);
        if j + 1 < s.len() {
            lemma_string_end(s, j + 2, q);
        }
    }
}

fn eq_run_end_exec(s: &Vec<char>, j: usize) -> (r: usize)
    requires
        j <= s@.len(),
    ensures
        r as int == eq_run_end(s@, j as int),
        j <= r <= s@.len(),
{
    let mut k = j;
    while k < s.len() && s[k] == '='
        invariant
            j <= k <= s@.len(),
            eq_run_end(s@, j as int) == eq_run_end(s@, k as int),
        decreases s.len() - k,
    {
        k = k + 1;
    }
    k
}

/// The opening long bracket at `i`, if there is one.
fn long_open_exec(s: &Vec<char>, i: usize) -> (r: Option<(usize, usize)>)
    ensures
        long_open(s@, i as int) == (match r {
            Some((a, b)) => Some((a as int, b as int)),
            None => None,
        }),
        r matches Some((len, level)) ==> i < s@.len() && len <= s@.len() - i && len == level + 2,
{
    if i >= s.len() || s[i] != '[' {
        return None;
    }
    let j = eq_run_end_exec(s, i + 1);
    if j < s.len() && s[j] == '[' {
        Some((j + 1 - i, j - i - 1))
    } else {
        None
    }
}

/// The end of the first closing long bracket of `level` at or after `j`.
fn long_close_exec(s: &Vec<char>, j: usize, level: usize) -> (r: Option<usize>)
    ensures
        long_close(s@, j as int, level as int) == (match r {
            Some(e) => Some(e as int),
            None => None,
        }),
        r matches Some(e) ==> j < e <= s@.len(),
{
    if j > s.len() {
        return None;
    }
    let mut k = j;
    while k < s.len()
        invariant
            j <= k <= s@.len(),
            long_close(s@, j as int, level as int) == long_close(s@, k as int, level as int),
        decreases s.len() - k,
    {
        if s[k] == ']' {
            let e = eq_run_end_exec(s, k + 1);
            if e < s.len() && s[e] == ']' && e - k - 1 == level {
                return Some(e + 1);
            }
        }
        k = k + 1;
    }
    None
}

/// Where a string opened by `q` ends, scanning from `j`.
fn string_end_exec(s: &Vec<char>, j: usize, q: char) -> (r: Option<usize>)
    requires
        j <= s@.len(),
    ensures
        string_end(s@, j as int, q) == (match r {
            Some(e) => Some(e as int),
            None => None,
        }),
        r matches Some(e) ==> j < e <= s@.len(),
{
    let mut k = j;
    while k < s.len()
        invariant
            j <= k <= s@.len() + 1,
            string_end(s@, j as int, q) == string_end(s@, k as int, q),
        decreases s.len() + 1 - k,
    {
        if s[k] == '\\' && k + 1 < s.len() {
            k = k + 2;
        } else if s[k] == q {
            return Some(k + 1);
        } else if s[k] == '\n' && q != '`' {
            return None;
        } else {
            k = k + 1;
        }
    }
    None
}

fn number_char_exec(s: &Vec<char>, j: usize) -> (b: bool)
    requires
        j < s@.len(),
    ensures
        b == number_char(s@, j as int),
{
    let c = s[j];
    is_alpha(c) || is_digit_char(c) || c == '.' || ((c == '+' || c == '-') && j > 0 && (s[j - 1]
        == 'e' || s[j - 1] == 'E'))
}

fn number_end_exec(s: &Vec<char>, j: usize) -> (r: usize)
    requires
        j <= s@.len(),
    ensures
        r as int == number_end(s@, j as int),
        j <= r <= s@.len(),
{
    let mut k = j;
    while k < s.len() && number_char_exec(s, k)
        invariant
            j <= k <= s@.len(),
            number_end(s@, j as int) == number_end(s@, k as int),
        decreases s.len() - k,
    {
        k = k + 1;
    }
    k
}

fn name_end_exec(s: &Vec<char>, j: usize) -> (r: usize)
    requires
        j <= s@.len(),
    ensures
        r as int == name_end(s@, j as int),
        j <= r <= s@.len(),
{
    let mut k = j;
    while k < s.len() && (is_alpha(s[k]) || is_digit_char(s[k]))
        invariant
            j <= k <= s@.len(),
            name_end(s@, j as int) == name_end(s@, k as int),
        decreases s.len() - k,
    {
        k = k + 1;
    }
    k
}

fn line_end_exec(s: &Vec<char>, j: usize) -> (r: usize)
    requires
        j <= s@.len(),
    ensures
        r as int == line_end(s@, j as int),
        j <= r <= s@.len(),
{
    let mut k = j;
    while k < s.len() && s[k] != '\n'
        invariant
            j <= k <= s@.len(),
            line_end(s@, j as int) == line_end(s@, k as int),
        decreases s.len() - k,
    {
        k = k + 1;
    }
    k
}

fn bump_exec(n: usize) -> (r: usize)
    ensures
        r as int == bump(n as int),
{
    n.saturating_add(1)
}

fn lines_after_exec(s: &Vec<char>, a: usize, b: usize, line: usize) -> (r: usize)
    requires
        a <= b <= s@.len(),
    ensures
        r as int == lines_after(s@, a as int, b as int, line as int),
{
    let mut k = a;
    let mut l = line;
    while k < b
        invariant
            a <= k <= b <= s@.len(),
            lines_after(s@, a as int, b as int, line as int) == lines_after(
                s@,
                k as int,
                b as int,
                l as int,
            ),
        decreases b - k,
    {
        if s[k] == '\n' {
            l = bump_exec(l);
        }
        k = k + 1;
    }
    l
}

fn start_after_exec(s: &Vec<char>, a: usize, b: usize, ls: usize) -> (r: usize)
    requires
        a <= b <= s@.len(),
        ls <= a,
    ensures
        r as int == start_after(s@, a as int, b as int, ls as int),
        ls <= r <= b,
{
    let mut k = a;
    let mut st = ls;
    while k < b
        invariant
            a <= k <= b <= s@.len(),
            ls <= st <= k,
            start_after(s@, a as int, b as int, ls as int) == start_after(
                s@,
                k as int,
                b as int,
                st as int,
            ),
        decreases b - k,
    {
        if s[k] == '\n' {
            st = k + 1;
        }
        k = k + 1;
    }
    st
}

/// A token of the source `s` spanning `i..j`.
fn make_token(s: &Vec<char>, kind: TokenKind, i: usize, j: usize, line: usize, column: usize) -> (t:
    Token)
    requires
        i <= j <= s@.len(),
    ensures
        token_view(t) == (kind, s@.subrange(i as int, j as int), i as int, j as int, line as int, column as int),
{
    let text = string_from_chars(sub_chars(s.as_slice(), i, j).as_slice());
    Token { kind, text, start: i, end: j, line, column }
}

/// Appends a token, keeping the views in step.
fn push_token(toks: &mut Vec<Token>, t: Token)
    ensures
        token_views(final(toks)@) == token_views(old(toks)@).push(token_view(t)),
        final(toks)@.len() == old(toks)@.len() + 1,
{
    let ghost before = old(toks)@;
    toks.push(t);
    assert(token_views(toks@) =~= token_views(before).push(token_view(t)));
}

/// Splits `source` into tokens, ending with an end-of-input token; an
/// unterminated string or comment, or a character no token starts with, is
/// a lex error (see `lex`).
pub fn tokenize(source: &str) -> (r: Result<Vec<Token>, CompilerError>)
    ensures
        r matches Ok(toks) ==> toks@.len() > 0 && lex(source@) == Ok::<Seq<TokenView>, Seq<char>>(
            token_views(toks@),
        ),
        r matches Err(e) ==> e matches CompilerError::Lex { message } && lex(source@) == Err::<
            Seq<TokenView>,
            Seq<char>,
        >(message@),
        r is Ok <==> lex(source@) is Ok,
{
    let s = chars_of(source);
    let n = s.len();
    let mut toks: Vec<Token> = Vec::new();
    let mut i: usize = 0;
    let mut line: usize = 1;
    let mut line_start: usize = 0;
    assert(token_views(toks@) =~= seq![]);
    while i < n
        invariant
            n == s@.len(),
            s@ == source@,
            i <= n,
            line_start <= i,
            lex(source@) == lex_from(s@, i as int, line as int, line_start as int, token_views(toks@)),
        decreases n - i,
    {
        let c = s[i];
        let column = bump_exec(i - line_start);
        if c == '\n' {
            i = i + 1;
            line = bump_exec(line);
            line_start = i;
        } else if is_whitespace(c) {
            i = i + 1;
        } else if c == '-' && char_at_exec(&s, i + 1) == '-' {
            match long_open_exec(&s, i + 2) {
                Some((len, level)) => match long_close_exec(&s, i + 2 + len, level) {
                    Some(e) => {
                        line = lines_after_exec(&s, i, e, line);
                        line_start = start_after_exec(&s, i, e, line_start);
                        i = e;
                    },
                    None => {
                        return Err(
                            CompilerError::Lex {
                                message: at_position("unterminated comment", line, column),
                            },
                        );
                    },
                },
                None => {
                    i = line_end_exec(&s, i + 2);
                },
            }
        } else if c == '"' || c == '\'' || c == '`' {
            match string_end_exec(&s, i + 1, c) {
                Some(j) => {
                    let t = make_token(&s, TokenKind::Str, i, j, line, column);
                    push_token(&mut toks, t);
                    i = j;
                },
                None => {
                    return Err(
                        CompilerError::Lex { message: at_position("unterminated string", line, column) },
                    );
                },
            }
        } else if c == '[' && long_open_exec(&s, i).is_some() {
            let (len, level) = match long_open_exec(&s, i) {
                Some(p) => p,
                None => (2, 0),
            };
            match long_close_exec(&s, i + len, level) {
                Some(e) => {
                    let t = make_token(&s, TokenKind::Str, i, e, line, column);
                    push_token(&mut toks, t);
                    line = lines_after_exec(&s, i, e, line);
                    line_start = start_after_exec(&s, i, e, line_start);
                    i = e;
                },
                None => {
                    return Err(
                        CompilerError::Lex { message: at_position("unterminated string", line, column) },
                    );
                },
            }
        } else if is_digit_char(c) || (c == '.' && is_digit_char(char_at_exec(&s, i + 1))) {
            let j = number_end_exec(&s, i + 1);
            let t = make_token(&s, TokenKind::Number, i, j, line, column);
            push_token(&mut toks, t);
            i = j;
        } else if is_alpha(c) {
            let j = name_end_exec(&s, i + 1);
            let t = make_token(&s, TokenKind::Name, i, j, line, column);
            push_token(&mut toks, t);
            i = j;
        } else {
            let len = symbol_len_exec(&s, i);
            if len == 0 {
                return Err(
                    CompilerError::Lex { message: at_position("unexpected character", line, column) },
                );
            }
            let t = make_token(&s, TokenKind::Symbol, i, i + len, line, column);
            push_token(&mut toks, t);
            i = i + len;
        }
    }
    let column = if line_start <= n {
        bump_exec(n - line_start)
    } else {
        1
    };
    let t = Token { kind: TokenKind::Eof, text: String::new(), start: n, end: n, line, column };
    assert(t.text@ =~= seq![]);
    let ghost before = token_views(toks@);
    assert(lex(source@) == Ok::<Seq<TokenView>, Seq<char>>(before.push(token_view(t))));
    push_token(&mut toks, t);
    Ok(toks)
}

/// The words that cannot name a variable.
pub open spec fn keyword(t: Seq<char>) -> bool {
    ||| t == "and"@
    ||| t == "break"@
    ||| t == "do"@
    ||| t == "else"@
    ||| t == "elseif"@
    ||| t == "end"@
    ||| t == "false"@
    ||| t == "for"@
    ||| t == "function"@
    ||| t == "if"@
    ||| t == "in"@
    ||| t == "local"@
    ||| t == "nil"@
    ||| t == "not"@
    ||| t == "or"@
    ||| t == "repeat"@
    ||| t == "return"@
    ||| t == "then"@
    ||| t == "true"@
    ||| t == "until"@
    ||| t == "while"@
    ||| t == "const"@
    ||| t == "switch"@
    ||| t == "case"@
    ||| t == "default"@
    ||| t == "match"@
    ||| t == "enum"@
    ||| t == "fallthrough"@
    ||| t == "continue"@
}

/// Whether `t` is a word that cannot name a variable.
fn is_keyword(t: &str) -> (b: bool)
    ensures
        b == keyword(t@),
{
    same_text(t, "and") || same_text(t, "break") || same_text(t, "do") || same_text(t, "else") || same_text(t, "elseif") || same_text(t, "end") || same_text(t, "false") || same_text(t, "for") || same_text(t, "function") || same_text(t, "if") || same_text(t, "in") || same_text(t, "local") || same_text(t, "nil") || same_text(t, "not") || same_text(t, "or") || same_text(t, "repeat") || same_text(t, "return") || same_text(t, "then") || same_text(t, "true") || same_text(t, "until") || same_text(t, "while") || same_text(t, "const") || same_text(t, "switch") || same_text(t, "case") || same_text(t, "default") || same_text(t, "match") || same_text(t, "enum") || same_text(t, "fallthrough") || same_text(t, "continue")
}

/// Whether `a` is the text `b`.
fn same_text(a: &str, b: &str) -> (r: bool)
    ensures
        r == (a@ == b@),
{
    let ac = chars_of(a);
    let bc = chars_of(b);
    chars_eq(ac.as_slice(), bc.as_slice())
}

/// The tokens of a source and its characters, read by the parser.
pub struct Parser {
    toks: Vec<Token>,
    src: Vec<char>,
}

/// The message of a parse error: what was expected, what was found there
/// (the token's text, or the end of input) and the token's position.
pub open spec fn parse_message(what: Seq<char>, t: TokenView) -> Seq<char> {
    positioned(
        "expected "@ + what + if t.0 == TokenKind::Eof {
            " but found end of input"@
        } else {
            " but found '"@ + t.1 + "'"@
        },
        t.4,
        t.5,
    )
}

/// The keyword of a declaration: `const` or `local`.
pub open spec fn declaration_keyword(is_const: bool) -> Seq<char> {
    if is_const {
        "const"@
    } else {
        "local"@
    }
}

/// Whether `t` is the keyword token of the declaration `d`: where it
/// starts, on its line and column, spelled `const` or `local` as it is.
pub open spec fn keyword_of(t: TokenView, d: LocalDecl) -> bool {
    &&& t.0 == TokenKind::Name
    &&& t.1 == declaration_keyword(d.is_const)
    &&& t.2 == d.start
    &&& t.4 == d.line
    &&& t.5 == d.column
}

/// Whether a token starts at the offset `start`.
pub open spec fn starts_at(t: TokenView, start: usize) -> bool {
    t.2 == start
}

/// Whether a declaration stands where it says among the tokens `ts`: a
/// `local` or `const` on its keyword, a function, an enum or a type alias
/// at the start of one of the tokens; other statements always do.
pub open spec fn anchored(ts: Seq<TokenView>, s: Stmt) -> bool {
    &&& s is Local ==> exists|k: int| 0 <= k < ts.len() && #[trigger] keyword_of(ts[k], s->Local_0)
    &&& s is Function ==> exists|k: int|
        0 <= k < ts.len() && #[trigger] starts_at(ts[k], s->Function_0.start)
    &&& s is Enum ==> exists|k: int| 0 <= k < ts.len() && #[trigger] starts_at(ts[k], s->Enum_0.start)
    &&& s is TypeAlias ==> exists|k: int|
        0 <= k < ts.len() && #[trigger] starts_at(ts[k], s->TypeAlias_start)
}

/// Whether `s` is `local name` with no type and no value.
pub open spec fn simple_local(s: Stmt, name: Seq<char>) -> bool {
    &&& s is Local
    &&& !s->Local_0.is_const
    &&& s->Local_0.bindings@.len() == 1
    &&& s->Local_0.bindings@[0].pattern is Name
    &&& s->Local_0.bindings@[0].pattern->Name_0@ == name
    &&& s->Local_0.bindings@[0].type_annotation is None
    &&& s->Local_0.values@.len() == 0
}

/// The names declared by the tokens from `i` on when they are nothing but
/// `local name` declarations (each name not a keyword) and `;`, up to the
/// end of input: `None` when they are anything else.
pub open spec fn simple_locals(ts: Seq<TokenView>, i: int) -> Option<Seq<Seq<char>>>
    decreases ts.len() - i,
{
    if i < 0 || i >= ts.len() {
        None
    } else if ts[i].0 == TokenKind::Eof {
        if i == ts.len() - 1 {
            Some(seq![])
        } else {
            None
        }
    } else if ts[i].0 == TokenKind::Symbol && ts[i].1 == ";"@ {
        simple_locals(ts, i + 1)
    } else if ts[i].0 == TokenKind::Name && ts[i].1 == "local"@ && i + 1 < ts.len() && ts[i
        + 1].0 == TokenKind::Name && !keyword(ts[i + 1].1) {
        match simple_locals(ts, i + 2) {
            Some(ns) => Some(seq![ts[i + 1].1] + ns),
            None => None,
        }
    } else {
        None
    }
}

/// Whether the statements `b` are `local n` for the names `ns`, in order.
pub open spec fn locals_named(b: Seq<Stmt>, ns: Seq<Seq<char>>) -> bool {
    b.len() == ns.len() && forall|j: int| 0 <= j < b.len() ==> simple_local(#[trigger] b[j], ns[j])
}

/// Whether `t` is the symbol `;`.
pub open spec fn is_semicolon(t: Token) -> bool {
    t.kind == TokenKind::Symbol && t.text@ == ";"@
}

/// Whether `r` may stand as the right operand of `op`: a binary operation
/// there binds more tightly than `op`, or as tightly where `op` groups to
/// the right.
pub open spec fn fits_right_of(op: BinaryOp, r: Expr) -> bool {
    match r {
        Expr::Binary { op: inner, .. } => op_prec(inner) > op_prec(op) || (right_assoc(op)
            && op_prec(inner) == op_prec(op)),
        _ => true,
    }
}

/// Whether `l` may stand as the left operand of `op`: a binary operation
/// there binds more tightly than `op`, or as tightly where `op` groups to
/// the left.
pub open spec fn fits_left_of(op: BinaryOp, l: Expr) -> bool {
    match l {
        Expr::Binary { op: inner, .. } => op_prec(inner) > op_prec(op) || (!right_assoc(op)
            && op_prec(inner) == op_prec(op)),
        _ => true,
    }
}

/// Whether every binary operation reached from `e` through binary
/// operations groups its operands as Luau does: by precedence first, and a
/// chain of operators of one precedence that groups to the left nests on
/// the left (`a - b - c` is `(a - b) - c`, `a + b * c` is `a + (b * c)`).
pub open spec fn grouped(e: Expr) -> bool
    decreases e,
{
    match e {
        Expr::Binary { left, op, right } => fits_left_of(op, *left) && fits_right_of(op, *right)
            && grouped(*left) && grouped(*right),
        _ => true,
    }
}

/// Whether `e`, where it is a binary operation, binds at least as tightly
/// as `min`.
pub open spec fn binds_within(e: Expr, min: int) -> bool {
    match e {
        Expr::Binary { op, .. } => op_prec(op) >= min,
        _ => true,
    }
}

impl Parser {
    /// The parser has at least the end-of-input token.
    pub closed spec fn wf(&self) -> bool {
        self.toks@.len() > 0
    }

    /// `e` is a parse error about one of the parser's tokens.
    pub closed spec fn located(&self, e: CompilerError) -> bool {
        e matches CompilerError::Parse { message } && exists|k: int, w: Seq<char>|
            0 <= k < self.toks@.len() && #[trigger] parse_message(w, token_view(self.toks@[k]))
                == message@
    }

    /// The token read at `pos` is a name that is not a keyword.
    pub closed spec fn ident_at(&self, pos: usize) -> bool {
        self.toks@[self.at(pos)].kind == TokenKind::Name && !keyword(self.toks@[self.at(pos)].text@)
    }

    /// The token read at `pos` is the symbol `s`.
    pub closed spec fn sym_at(&self, pos: usize, s: Seq<char>) -> bool {
        self.toks@[self.at(pos)].kind == TokenKind::Symbol && self.toks@[self.at(pos)].text@ == s
    }

    /// The token read at `pos` is the word `w`.
    pub closed spec fn word_at(&self, pos: usize, w: Seq<char>) -> bool {
        self.toks@[self.at(pos)].kind == TokenKind::Name && self.toks@[self.at(pos)].text@ == w
    }

    /// The binary operator read at `pos`, if any.
    pub closed spec fn binop_at(&self, pos: usize) -> Option<BinaryOp> {
        if self.word_at(pos, "or"@) {
            Some(BinaryOp::Or)
        } else if self.word_at(pos, "and"@) {
            Some(BinaryOp::And)
        } else if self.sym_at(pos, "??"@) {
            Some(BinaryOp::Nullish)
        } else if self.sym_at(pos, "<"@) {
            Some(BinaryOp::Less)
        } else if self.sym_at(pos, "<="@) {
            Some(BinaryOp::LessEqual)
        } else if self.sym_at(pos, ">"@) {
            Some(BinaryOp::Greater)
        } else if self.sym_at(pos, ">="@) {
            Some(BinaryOp::GreaterEqual)
        } else if self.sym_at(pos, "=="@) {
            Some(BinaryOp::Equal)
        } else if self.sym_at(pos, "~="@) {
            Some(BinaryOp::NotEqual)
        } else if self.sym_at(pos, ".."@) {
            Some(BinaryOp::Concat)
        } else if self.sym_at(pos, "+"@) {
            Some(BinaryOp::Add)
        } else if self.sym_at(pos, "-"@) {
            Some(BinaryOp::Subtract)
        } else if self.sym_at(pos, "*"@) {
            Some(BinaryOp::Multiply)
        } else if self.sym_at(pos, "/"@) {
            Some(BinaryOp::Divide)
        } else if self.sym_at(pos, "//"@) {
            Some(BinaryOp::FloorDivide)
        } else if self.sym_at(pos, "%"@) {
            Some(BinaryOp::Modulo)
        } else if self.sym_at(pos, "^"@) {
            Some(BinaryOp::Power)
        } else {
            None
        }
    }

    /// Where `advance` moves from `pos`.
    pub closed spec fn next(&self, pos: usize) -> usize {
        if pos + 1 < self.toks@.len() {
            (pos + 1) as usize
        } else {
            pos
        }
    }

    /// Every token from `from` up to `to` is `;`.
    pub closed spec fn only_semicolons(&self, from: int, to: int) -> bool {
        forall|k: int| from <= k < to ==> is_semicolon(#[trigger] self.toks@[k])
    }

    /// The index of the token read at `pos`: the last one past the end.
    pub closed spec fn at(&self, pos: usize) -> int {
        if pos < self.toks@.len() {
            pos as int
        } else {
            self.toks@.len() - 1
        }
    }

    fn tok(&self, pos: usize) -> (t: &Token)
        requires
            self.wf(),
        ensures
            *t == self.toks@[self.at(pos)],
    {
        let i = if pos < self.toks.len() {
            pos
        } else {
            self.toks.len() - 1
        };
        &self.toks[i]
    }

    fn kind(&self, pos: usize) -> (k: TokenKind)
        requires
            self.wf(),
        ensures
            k == self.toks@[self.at(pos)].kind,
    {
        self.tok(pos).kind
    }

    fn is_sym(&self, pos: usize, s: &str) -> (b: bool)
        requires
            self.wf(),
        ensures
            b == (self.toks@[self.at(pos)].kind == TokenKind::Symbol && self.toks@[self.at(
                pos,
            )].text@ == s@),
    {
        let t = self.tok(pos);
        t.kind == TokenKind::Symbol && same_text(t.text.as_str(), s)
    }

    fn is_word(&self, pos: usize, s: &str) -> (b: bool)
        requires
            self.wf(),
        ensures
            b == (self.toks@[self.at(pos)].kind == TokenKind::Name && self.toks@[self.at(
                pos,
            )].text@ == s@),
    {
        let t = self.tok(pos);
        t.kind == TokenKind::Name && same_text(t.text.as_str(), s)
    }

    /// A name that is not a keyword.
    fn is_ident(&self, pos: usize) -> (b: bool)
        requires
            self.wf(),
        ensures
            b == self.ident_at(pos),
    {
        let t = self.tok(pos);
        t.kind == TokenKind::Name && !is_keyword(t.text.as_str())
    }

    fn advance(&self, pos: &mut usize)
        requires
            self.wf(),
        ensures
            *final(pos) == if *old(pos) + 1 < self.toks@.len() {
                *old(pos) + 1
            } else {
                *old(pos) as int
            },
    {
        if (*pos).saturating_add(1) < self.toks.len() {
            *pos = (*pos).saturating_add(1);
        }
    }

    /// A parse error at the token at `pos`.
    fn error(&self, pos: usize, what: &str) -> (e: CompilerError)
        requires
            self.wf(),
        ensures
            e matches CompilerError::Parse { message } && message@ == parse_message(
                what@,
                token_view(self.toks@[self.at(pos)]),
            ),
            self.located(e),
    {
        let t = self.tok(pos);
        let mut m = String::from_str("expected ");
        m.append(what);
        if t.kind == TokenKind::Eof {
            m.append(" but found end of input");
        } else {
            m.append(" but found '");
            m.append(t.text.as_str());
            m.append("'");
        }
        proof {
            reveal_strlit("expected ");
            reveal_strlit(" but found end of input");
            reveal_strlit(" but found '");
            reveal_strlit("'");
        }
        let message = at_position(m.as_str(), t.line, t.column);
        assert(parse_message(what@, token_view(self.toks@[self.at(pos)])) == message@);
        CompilerError::Parse { message }
    }

    fn expect_sym(&self, pos: &mut usize, s: &str) -> (r: Result<(), CompilerError>)
        requires
            self.wf(),
        ensures
            r matches Err(e) ==> self.located(e),
    {
        if self.is_sym(*pos, s) {
            self.advance(pos);
            Ok(())
        } else {
            let mut what = String::from_str("'");
            what.append(s);
            what.append("'");
            Err(self.error(*pos, what.as_str()))
        }
    }

    fn expect_word(&self, pos: &mut usize, s: &str) -> (r: Result<(), CompilerError>)
        requires
            self.wf(),
        ensures
            r matches Err(e) ==> self.located(e),
    {
        if self.is_word(*pos, s) {
            self.advance(pos);
            Ok(())
        } else {
            let mut what = String::from_str("'");
            what.append(s);
            what.append("'");
            Err(self.error(*pos, what.as_str()))
        }
    }

    fn expect_ident(&self, pos: &mut usize) -> (r: Result<String, CompilerError>)
        requires
            self.wf(),
        ensures
            r matches Err(e) ==> self.located(e),
            self.ident_at(*old(pos)) ==> (r matches Ok(n) && n@ == self.toks@[self.at(
                *old(pos),
            )].text@ && *final(pos) == self.next(*old(pos))),
    {
        if self.is_ident(*pos) {
            let name = self.tok(*pos).text.clone();
            self.advance(pos);
            Ok(name)
        } else {
            Err(self.error(*pos, "name"))
        }
    }

    /// The source text from the start of token `from` to the end of the
    /// token before `to`.
    fn text_between(&self, from: usize, to: usize) -> (r: String)
        requires
            self.wf(),
    {
        let start = self.tok(from).start;
        let end = if to > from {
            self.tok(to - 1).end
        } else {
            start
        };
        if start <= end && end <= self.src.len() {
            string_from_chars(sub_chars(self.src.as_slice(), start, end).as_slice())
        } else {
            String::new()
        }
    }

    /// Skips a bracketed group opened at `pos`, up to its closing bracket.
    fn skip_group(&self, pos: &mut usize) -> (r: Result<(), CompilerError>)
        requires
            self.wf(),
        ensures
            r matches Err(e) ==> self.located(e),
    {
        let mut depth: usize = 0;
        let mut guard: usize = 0;
        let limit = self.toks.len();
        loop
            invariant
                self.wf(),
                guard <= limit,
                limit == self.toks.len(),
            decreases limit - guard,
        {
            if guard >= limit {
                return Err(self.error(*pos, "a closing bracket"));
            }
            guard = guard + 1;
            let k = self.kind(*pos);
            if k == TokenKind::Eof {
                return Err(self.error(*pos, "a closing bracket"));
            }
            if self.is_sym(*pos, "(") || self.is_sym(*pos, "{") || self.is_sym(*pos, "[")
                || self.is_sym(*pos, "<") {
                depth = depth.saturating_add(1);
            } else if self.is_sym(*pos, ")") || self.is_sym(*pos, "}") || self.is_sym(*pos, "]")
                || self.is_sym(*pos, ">") {
                if depth > 0 {
                    depth = depth - 1;
                }
                if depth == 0 {
                    self.advance(pos);
                    return Ok(());
                }
            }
            self.advance(pos);
        }
    }

    /// Skips one type, as far as its last token.
    fn skip_single_type(&self, pos: &mut usize, depth: usize) -> (r: Result<(), CompilerError>)
        requires
            self.wf(),
        ensures
            r matches Err(e) ==> self.located(e),
        decreases depth,
    {
        if depth == 0 {
            return Err(self.error(*pos, "a shallower type"));
        }
        if self.is_sym(*pos, "<") {
            self.skip_group(pos)?;
        }
        if self.is_sym(*pos, "(") {
            self.skip_group(pos)?;
            if self.is_sym(*pos, "->") {
                self.advance(pos);
                self.skip_type(pos, depth - 1)?;
            }
        } else if self.is_sym(*pos, "{") {
            self.skip_group(pos)?;
        } else if self.is_sym(*pos, "...") {
            self.advance(pos);
            self.skip_single_type(pos, depth - 1)?;
        } else if self.kind(*pos) == TokenKind::Str {
            self.advance(pos);
        } else if self.kind(*pos) == TokenKind::Name {
            let is_typeof = self.is_word(*pos, "typeof");
            self.advance(pos);
            if is_typeof && self.is_sym(*pos, "(") {
                self.skip_group(pos)?;
            } else {
                let mut guard: usize = 0;
                let limit = self.toks.len();
                while self.is_sym(*pos, ".") && guard < limit
                    invariant
                        self.wf(),
                        limit == self.toks.len(),
                    decreases limit - guard,
                {
                    guard = guard + 1;
                    self.advance(pos);
                    self.expect_ident(pos)?;
                }
                if self.is_sym(*pos, "<") {
                    self.skip_group(pos)?;
                }
            }
        } else {
            return Err(self.error(*pos, "a type"));
        }
        let mut guard: usize = 0;
        let limit = self.toks.len();
        while self.is_sym(*pos, "?") && guard < limit
            invariant
                self.wf(),
                limit == self.toks.len(),
            decreases limit - guard,
        {
            guard = guard + 1;
            self.advance(pos);
        }
        Ok(())
    }

    /// Skips a type: single types joined by `|` or `&`.
    fn skip_type(&self, pos: &mut usize, depth: usize) -> (r: Result<(), CompilerError>)
        requires
            self.wf(),
        ensures
            r matches Err(e) ==> self.located(e),
        decreases depth,
    {
        if depth == 0 {
            return Err(self.error(*pos, "a shallower type"));
        }
        if self.is_sym(*pos, "|") || self.is_sym(*pos, "&") {
            self.advance(pos);
        }
        self.skip_single_type(pos, depth - 1)?;
        let mut guard: usize = 0;
        let limit = self.toks.len();
        while (self.is_sym(*pos, "|") || self.is_sym(*pos, "&")) && guard < limit
            invariant
                self.wf(),
                limit == self.toks.len(),
                depth > 0,
            decreases limit - guard,
        {
            guard = guard + 1;
            self.advance(pos);
            self.skip_single_type(pos, depth - 1)?;
        }
        Ok(())
    }

    /// A type annotation, as the source text it spans.
    fn parse_type(&self, pos: &mut usize) -> (r: Result<String, CompilerError>)
        requires
            self.wf(),
        ensures
            r matches Err(e) ==> self.located(e),
    {
        let from = *pos;
        self.skip_type(pos, 64)?;
        Ok(self.text_between(from, *pos))
    }

    /// `: type` if present.
    fn optional_annotation(&self, pos: &mut usize) -> (r: Result<Option<String>, CompilerError>)
        requires
            self.wf(),
        ensures
            r matches Err(e) ==> self.located(e),
            !self.sym_at(*old(pos), ":"@) ==> (r matches Ok(a) && a is None && *final(pos) == *old(
                pos,
            )),
    {
        if self.is_sym(*pos, ":") {
            self.advance(pos);
            Ok(Some(self.parse_type(pos)?))
        } else {
            Ok(None)
        }
    }

    // -----------------------------------------------------------------
    // Expressions
    // -----------------------------------------------------------------

    /// An expression.
    fn parse_expr(&self, pos: &mut usize, depth: usize) -> (r: Result<Expr, CompilerError>)
        requires
            self.wf(),
        ensures
            r matches Err(e) ==> self.located(e),
            r matches Ok(e) ==> grouped(e),
        decreases depth, 4nat,
    {
        if depth == 0 {
            return Err(self.error(*pos, "a less deeply nested expression"));
        }
        let condition = self.parse_pipe(pos, depth - 1)?;
        if self.is_sym(*pos, "?") {
            self.advance(pos);
            let then_expr = self.parse_expr(pos, depth - 1)?;
            self.expect_sym(pos, ":")?;
            let else_expr = self.parse_expr(pos, depth - 1)?;
            return Ok(
                Expr::Ternary {
                    condition: Box::new(condition),
                    then_expr: Box::new(then_expr),
                    else_expr: Box::new(else_expr),
                },
            );
        }
        Ok(condition)
    }

    /// An expression followed by `|>` stages.
    fn parse_pipe(&self, pos: &mut usize, depth: usize) -> (r: Result<Expr, CompilerError>)
        requires
            self.wf(),
        ensures
            r matches Err(e) ==> self.located(e),
            r matches Ok(e) ==> grouped(e),
        decreases depth, 4nat,
    {
        if depth == 0 {
            return Err(self.error(*pos, "a less deeply nested expression"));
        }
        let left = self.parse_binary(pos, depth - 1, 0)?;
        if !self.is_sym(*pos, "|>") {
            return Ok(left);
        }
        let mut stages: Vec<PipeStage> = Vec::new();
        let mut guard: usize = 0;
        let limit = self.toks.len();
        while self.is_sym(*pos, "|>") && guard < limit
            invariant
                self.wf(),
                limit == self.toks.len(),
                depth > 0,
            decreases limit - guard,
        {
            guard = guard + 1;
            self.advance(pos);
            if self.is_sym(*pos, ":") {
                self.advance(pos);
                let name = self.expect_ident(pos)?;
                let args = self.parse_args(pos, depth - 1)?;
                stages.push(PipeStage::Method { name, args });
            } else {
                let callee = self.parse_suffixed(pos, depth - 1)?;
                match callee {
                    Expr::Chain { base, mut segments } => {
                        let last = segments.pop();
                        match last {
                            Some(ChainSegment::Call { args }) => {
                                let callee = if segments.len() == 0 {
                                    *base
                                } else {
                                    Expr::Chain { base, segments }
                                };
                                stages.push(PipeStage::Call { callee: Box::new(callee), args });
                            },
                            Some(seg) => {
                                segments.push(seg);
                                stages.push(
                                    PipeStage::Expr { callee: Box::new(Expr::Chain { base, segments }) },
                                );
                            },
                            None => {
                                stages.push(PipeStage::Expr { callee: base });
                            },
                        }
                    },
                    other => {
                        stages.push(PipeStage::Expr { callee: Box::new(other) });
                    },
                }
            }
        }
        Ok(Expr::Pipe { left: Box::new(left), stages })
    }

    /// The binary operator at `pos`, with how tightly it binds.
    fn binary_op_at(&self, pos: usize) -> (r: Option<(BinaryOp, u8)>)
        requires
            self.wf(),
        ensures
            r is Some <==> self.binop_at(pos) is Some,
            r matches Some(p) ==> self.binop_at(pos) == Some(p.0) && p.1 == op_prec(p.0),
    {
        if self.is_word(pos, "or") {
            Some((BinaryOp::Or, 1))
        } else if self.is_word(pos, "and") {
            Some((BinaryOp::And, 2))
        } else if self.is_sym(pos, "??") {
            Some((BinaryOp::Nullish, 0))
        } else if self.is_sym(pos, "<") {
            Some((BinaryOp::Less, 3))
        } else if self.is_sym(pos, "<=") {
            Some((BinaryOp::LessEqual, 3))
        } else if self.is_sym(pos, ">") {
            Some((BinaryOp::Greater, 3))
        } else if self.is_sym(pos, ">=") {
            Some((BinaryOp::GreaterEqual, 3))
        } else if self.is_sym(pos, "==") {
            Some((BinaryOp::Equal, 3))
        } else if self.is_sym(pos, "~=") {
            Some((BinaryOp::NotEqual, 3))
        } else if self.is_sym(pos, "..") {
            Some((BinaryOp::Concat, 4))
        } else if self.is_sym(pos, "+") {
            Some((BinaryOp::Add, 5))
        } else if self.is_sym(pos, "-") {
            Some((BinaryOp::Subtract, 5))
        } else if self.is_sym(pos, "*") {
            Some((BinaryOp::Multiply, 6))
        } else if self.is_sym(pos, "/") {
            Some((BinaryOp::Divide, 6))
        } else if self.is_sym(pos, "//") {
            Some((BinaryOp::FloorDivide, 6))
        } else if self.is_sym(pos, "%") {
            Some((BinaryOp::Modulo, 6))
        } else if self.is_sym(pos, "^") {
            Some((BinaryOp::Power, 8))
        } else {
            None
        }
    }

    /// Operations binding at least as tightly as `min`.
    fn parse_binary(&self, pos: &mut usize, depth: usize, min: u8) -> (r: Result<Expr, CompilerError>)
        requires
            self.wf(),
        ensures
            r matches Err(e) ==> self.located(e),
            r matches Ok(e) ==> grouped(e) && binds_within(e, min as int),
            (r is Ok && self.binop_at(*final(pos)) is Some) ==> op_prec(
                self.binop_at(*final(pos))->Some_0,
            ) < min,
        decreases depth, 3nat,
    {
        if depth == 0 {
            return Err(self.error(*pos, "a less deeply nested expression"));
        }
        let mut left = self.parse_unary(pos, depth - 1)?;
        let mut guard: usize = 0;
        let limit = self.toks.len();
        loop
            invariant
                self.wf(),
                limit == self.toks.len(),
                depth > 0,
                grouped(left),
                binds_within(left, min as int),
                self.binop_at(*pos) is Some ==> fits_left_of(self.binop_at(*pos)->Some_0, left),
            decreases limit - guard,
        {
            if guard >= limit {
                return Err(self.error(*pos, "fewer operators"));
            }
            guard = guard + 1;
            match self.binary_op_at(*pos) {
                Some((op, prec)) => {
                    if prec < min {
                        return Ok(left);
                    }
                    self.advance(pos);
                    let next = if op == BinaryOp::Concat || op == BinaryOp::Power {
                        prec
                    } else {
                        prec.saturating_add(1)
                    };
                    let right = self.parse_binary(pos, depth - 1, next)?;
                    let ghost before = left;
                    left = Expr::Binary { left: Box::new(left), op, right: Box::new(right) };
                    assert(left == Expr::Binary { left: Box::new(before), op, right: Box::new(right) });
                },
                None => {
                    return Ok(left);
                },
            }
        }
    }

    /// A unary operation, or a simple expression.
    fn parse_unary(&self, pos: &mut usize, depth: usize) -> (r: Result<Expr, CompilerError>)
        requires
            self.wf(),
        ensures
            r matches Err(e) ==> self.located(e),
            r matches Ok(e) ==> !(e is Binary),
        decreases depth, 2nat,
    {
        if depth == 0 {
            return Err(self.error(*pos, "a less deeply nested expression"));
        }
        let op = if self.is_word(*pos, "not") {
            Some(UnaryOp::Not)
        } else if self.is_sym(*pos, "-") {
            Some(UnaryOp::Negate)
        } else if self.is_sym(*pos, "#") {
            Some(UnaryOp::Length)
        } else {
            None
        };
        match op {
            Some(op) => {
                self.advance(pos);
                let operand = self.parse_binary(pos, depth - 1, 8)?;
                Ok(Expr::Unary { op, expr: Box::new(operand) })
            },
            None => {
                let e = self.parse_suffixed(pos, depth - 1)?;
                if self.is_sym(*pos, "::") {
                    self.advance(pos);
                    let annotation = self.parse_type(pos)?;
                    Ok(Expr::TypeAssertion { expr: Box::new(e), annotation })
                } else {
                    Ok(e)
                }
            },
        }
    }

    /// Call arguments: `(a, b)`, a string, or a table.
    fn parse_args(&self, pos: &mut usize, depth: usize) -> (r: Result<Vec<Expr>, CompilerError>)
        requires
            self.wf(),
        ensures
            r matches Err(e) ==> self.located(e),
        decreases depth, 4nat,
    {
        if depth == 0 {
            return Err(self.error(*pos, "a less deeply nested expression"));
        }
        let mut args: Vec<Expr> = Vec::new();
        if self.kind(*pos) == TokenKind::Str {
            args.push(Expr::String(self.tok(*pos).text.clone()));
            self.advance(pos);
            return Ok(args);
        }
        if self.is_sym(*pos, "{") {
            args.push(self.parse_table(pos, depth - 1)?);
            return Ok(args);
        }
        self.expect_sym(pos, "(")?;
        if self.is_sym(*pos, ")") {
            self.advance(pos);
            return Ok(args);
        }
        args = self.parse_expr_list(pos, depth - 1)?;
        self.expect_sym(pos, ")")?;
        Ok(args)
    }

    /// Expressions separated by commas.
    fn parse_expr_list(&self, pos: &mut usize, depth: usize) -> (r: Result<Vec<Expr>, CompilerError>)
        requires
            self.wf(),
        ensures
            r matches Err(e) ==> self.located(e),
        decreases depth, 5nat,
    {
        if depth == 0 {
            return Err(self.error(*pos, "a less deeply nested expression"));
        }
        let mut list: Vec<Expr> = Vec::new();
        list.push(self.parse_expr(pos, depth - 1)?);
        let mut guard: usize = 0;
        let limit = self.toks.len();
        while self.is_sym(*pos, ",") && guard < limit
            invariant
                self.wf(),
                limit == self.toks.len(),
                depth > 0,
            decreases limit - guard,
        {
            guard = guard + 1;
            self.advance(pos);
            list.push(self.parse_expr(pos, depth - 1)?);
        }
        Ok(list)
    }

    /// Whether a call or method call's arguments start at `pos`: a string or
    /// table argument only on the line of what it is applied to, so that a
    /// table pattern or string on the next line starts something new.
    fn args_start(&self, pos: usize) -> (b: bool)
        requires
            self.wf(),
    {
        self.is_sym(pos, "(") || ((self.kind(pos) == TokenKind::Str || self.is_sym(pos, "{")) && pos
            > 0 && self.tok(pos).line == self.tok(pos - 1).line)
    }

    /// A primary expression followed by field, index and call suffixes.
    fn parse_suffixed(&self, pos: &mut usize, depth: usize) -> (r: Result<Expr, CompilerError>)
        requires
            self.wf(),
        ensures
            r matches Err(e) ==> self.located(e),
            r matches Ok(e) ==> !(e is Binary),
        decreases depth, 2nat,
    {
        if depth == 0 {
            return Err(self.error(*pos, "a less deeply nested expression"));
        }
        let base = self.parse_primary(pos, depth - 1)?;
        let mut segments: Vec<ChainSegment> = Vec::new();
        let mut guard: usize = 0;
        let limit = self.toks.len();
        loop
            invariant
                self.wf(),
                limit == self.toks.len(),
                depth > 0,
            decreases limit - guard,
        {
            if guard >= limit {
                break;
            }
            guard = guard + 1;
            if self.is_sym(*pos, ".") {
                self.advance(pos);
                let name = self.expect_ident_or_keyword(pos)?;
                segments.push(ChainSegment::Field { name, safe: false });
            } else if self.is_sym(*pos, "?.") {
                self.advance(pos);
                if self.is_sym(*pos, "[") {
                    self.advance(pos);
                    let index = self.parse_expr(pos, depth - 1)?;
                    self.expect_sym(pos, "]")?;
                    segments.push(ChainSegment::Index { expr: Box::new(index), safe: true });
                } else {
                    let name = self.expect_ident_or_keyword(pos)?;
                    segments.push(ChainSegment::Field { name, safe: true });
                }
            } else if self.is_sym(*pos, "[") {
                self.advance(pos);
                let index = self.parse_expr(pos, depth - 1)?;
                self.expect_sym(pos, "]")?;
                segments.push(ChainSegment::Index { expr: Box::new(index), safe: false });
            } else if self.is_sym(*pos, ":") && self.is_ident((*pos).saturating_add(1)) && self.args_start((*pos).saturating_add(2)) {
                self.advance(pos);
                let name = self.expect_ident(pos)?;
                let args = self.parse_args(pos, depth - 1)?;
                segments.push(ChainSegment::MethodCall { name, args, safe: false });
            } else if self.args_start(*pos) {
                let args = self.parse_args(pos, depth - 1)?;
                segments.push(ChainSegment::Call { args });
            } else {
                break;
            }
        }
        if segments.len() == 0 {
            Ok(base)
        } else {
            Ok(Expr::Chain { base: Box::new(base), segments })
        }
    }

    /// A name after `.`, where keywords are field names too.
    fn expect_ident_or_keyword(&self, pos: &mut usize) -> (r: Result<String, CompilerError>)
        requires
            self.wf(),
        ensures
            r matches Err(e) ==> self.located(e),
    {
        if self.kind(*pos) == TokenKind::Name {
            let name = self.tok(*pos).text.clone();
            self.advance(pos);
            Ok(name)
        } else {
            Err(self.error(*pos, "a field name"))
        }
    }

    /// A literal, a name, a parenthesised expression, a table, a function,
    /// an `if` or a `switch` expression.
    fn parse_primary(&self, pos: &mut usize, depth: usize) -> (r: Result<Expr, CompilerError>)
        requires
            self.wf(),
        ensures
            r matches Err(e) ==> self.located(e),
            r matches Ok(e) ==> !(e is Binary),
        decreases depth, 1nat,
    {
        if depth == 0 {
            return Err(self.error(*pos, "a less deeply nested expression"));
        }
        let t = self.tok(*pos);
        match t.kind {
            TokenKind::Number => {
                let v = t.text.clone();
                self.advance(pos);
                return Ok(Expr::Number(v));
            },
            TokenKind::Str => {
                let v = t.text.clone();
                self.advance(pos);
                return Ok(Expr::String(v));
            },
            _ => {},
        }
        if self.is_word(*pos, "nil") {
            self.advance(pos);
            Ok(Expr::Nil)
        } else if self.is_word(*pos, "true") {
            self.advance(pos);
            Ok(Expr::Bool(true))
        } else if self.is_word(*pos, "false") {
            self.advance(pos);
            Ok(Expr::Bool(false))
        } else if self.is_sym(*pos, "...") {
            self.advance(pos);
            Ok(Expr::VarArg)
        } else if self.is_sym(*pos, "(") {
            self.advance(pos);
            let inner = self.parse_expr(pos, depth - 1)?;
            self.expect_sym(pos, ")")?;
            Ok(Expr::Paren(Box::new(inner)))
        } else if self.is_sym(*pos, "{") {
            self.parse_table(pos, depth - 1)
        } else if self.is_word(*pos, "function") {
            self.advance(pos);
            let (generics, params, return_type, body) = self.parse_function_body(pos, depth - 1)?;
            Ok(Expr::Function(FunctionExpr { generics, params, return_type, body }))
        } else if self.is_word(*pos, "if") {
            self.advance(pos);
            let mut branches: Vec<(Expr, Expr)> = Vec::new();
            let c = self.parse_expr(pos, depth - 1)?;
            self.expect_word(pos, "then")?;
            let v = self.parse_expr(pos, depth - 1)?;
            branches.push((c, v));
            let mut guard: usize = 0;
            let limit = self.toks.len();
            while self.is_word(*pos, "elseif") && guard < limit
                invariant
                    self.wf(),
                    limit == self.toks.len(),
                    depth > 0,
                decreases limit - guard,
            {
                guard = guard + 1;
                self.advance(pos);
                let c = self.parse_expr(pos, depth - 1)?;
                self.expect_word(pos, "then")?;
                let v = self.parse_expr(pos, depth - 1)?;
                branches.push((c, v));
            }
            self.expect_word(pos, "else")?;
            let else_expr = self.parse_expr(pos, depth - 1)?;
            Ok(Expr::IfElse { branches, else_expr: Box::new(else_expr) })
        } else if self.is_word(*pos, "switch") {
            self.advance(pos);
            let value = self.parse_expr(pos, depth - 1)?;
            let mut cases: Vec<SwitchExprCase> = Vec::new();
            let mut guard: usize = 0;
            let limit = self.toks.len();
            while self.is_word(*pos, "case") && guard < limit
                invariant
                    self.wf(),
                    limit == self.toks.len(),
                    depth > 0,
                decreases limit - guard,
            {
                guard = guard + 1;
                self.advance(pos);
                let v = self.parse_expr(pos, depth - 1)?;
                self.expect_word(pos, "then")?;
                let result = self.parse_expr(pos, depth - 1)?;
                cases.push(SwitchExprCase { value: v, result });
            }
            self.expect_word(pos, "default")?;
            self.expect_word(pos, "then")?;
            let default = self.parse_expr(pos, depth - 1)?;
            self.expect_word(pos, "end")?;
            Ok(Expr::SwitchExpr { value: Box::new(value), cases, default: Box::new(default) })
        } else if self.is_ident(*pos) {
            let name = self.tok(*pos).text.clone();
            self.advance(pos);
            Ok(Expr::Name(name))
        } else {
            Err(self.error(*pos, "an expression"))
        }
    }

    /// A table constructor.
    fn parse_table(&self, pos: &mut usize, depth: usize) -> (r: Result<Expr, CompilerError>)
        requires
            self.wf(),
        ensures
            r matches Err(e) ==> self.located(e),
            r matches Ok(e) ==> e is Table,
        decreases depth, 4nat,
    {
        if depth == 0 {
            return Err(self.error(*pos, "a less deeply nested expression"));
        }
        self.expect_sym(pos, "{")?;
        let mut fields: Vec<TableField> = Vec::new();
        let mut guard: usize = 0;
        let limit = self.toks.len();
        loop
            invariant
                self.wf(),
                limit == self.toks.len(),
                depth > 0,
            decreases limit - guard,
        {
            if guard >= limit {
                return Err(self.error(*pos, "'}'"));
            }
            guard = guard + 1;
            if self.is_sym(*pos, "}") {
                self.advance(pos);
                return Ok(Expr::Table(fields));
            }
            if self.is_sym(*pos, "[") {
                self.advance(pos);
                let k = self.parse_expr(pos, depth - 1)?;
                self.expect_sym(pos, "]")?;
                self.expect_sym(pos, "=")?;
                let v = self.parse_expr(pos, depth - 1)?;
                fields.push(TableField::Indexed(k, v));
            } else if self.kind(*pos) == TokenKind::Name && self.is_sym((*pos).saturating_add(1), "=") {
                let k = self.tok(*pos).text.clone();
                self.advance(pos);
                self.advance(pos);
                let v = self.parse_expr(pos, depth - 1)?;
                fields.push(TableField::Named(k, v));
            } else {
                let v = self.parse_expr(pos, depth - 1)?;
                fields.push(TableField::Value(v));
            }
            if self.is_sym(*pos, ",") || self.is_sym(*pos, ";") {
                self.advance(pos);
            } else if !self.is_sym(*pos, "}") {
                return Err(self.error(*pos, "'}'"));
            }
        }
    }

    /// `<generics>(params): type body end` after `function`.
    fn parse_function_body(&self, pos: &mut usize, depth: usize) -> (r: Result<
        (Option<String>, Vec<Param>, Option<String>, Block),
        CompilerError,
    >)
        requires
            self.wf(),
        ensures
            r matches Err(e) ==> self.located(e),
        decreases depth, 4nat,
    {
        if depth == 0 {
            return Err(self.error(*pos, "a less deeply nested function"));
        }
        let generics = if self.is_sym(*pos, "<") {
            let from = *pos;
            self.skip_group(pos)?;
            Some(self.text_between(from, *pos))
        } else {
            None
        };
        self.expect_sym(pos, "(")?;
        let mut params: Vec<Param> = Vec::new();
        let mut guard: usize = 0;
        let limit = self.toks.len();
        while !self.is_sym(*pos, ")") && guard < limit
            invariant
                self.wf(),
                limit == self.toks.len(),
                depth > 0,
            decreases limit - guard,
        {
            guard = guard + 1;
            if self.is_sym(*pos, "...") {
                self.advance(pos);
                let annotation = self.optional_annotation(pos)?;
                params.push(Param::VarArg(annotation));
            } else {
                let pattern = self.parse_pattern(pos, depth - 1)?;
                let type_annotation = self.optional_annotation(pos)?;
                params.push(Param::Binding(Binding { pattern, type_annotation }));
            }
            if self.is_sym(*pos, ",") {
                self.advance(pos);
            } else if !self.is_sym(*pos, ")") {
                return Err(self.error(*pos, "')'"));
            }
        }
        self.expect_sym(pos, ")")?;
        let return_type = self.optional_annotation(pos)?;
        let body = self.parse_block(pos, depth - 1, false)?;
        self.expect_word(pos, "end")?;
        Ok((generics, params, return_type, body))
    }

    // -----------------------------------------------------------------
    // Patterns
    // -----------------------------------------------------------------

    /// `= default` if present.
    fn optional_default(&self, pos: &mut usize, depth: usize) -> (r: Result<Option<Expr>, CompilerError>)
        requires
            self.wf(),
        ensures
            r matches Err(e) ==> self.located(e),
        decreases depth, 5nat,
    {
        if depth == 0 {
            return Err(self.error(*pos, "a less deeply nested pattern"));
        }
        if self.is_sym(*pos, "=") {
            self.advance(pos);
            Ok(Some(self.parse_expr(pos, depth - 1)?))
        } else {
            Ok(None)
        }
    }

    /// A name, or a table or array destructuring pattern.
    fn parse_pattern(&self, pos: &mut usize, depth: usize) -> (r: Result<Pattern, CompilerError>)
        requires
            self.wf(),
        ensures
            r matches Err(e) ==> self.located(e),
            (depth > 0 && self.ident_at(*old(pos))) ==> (r matches Ok(p) && p is Name && p->Name_0@
                == self.toks@[self.at(*old(pos))].text@ && *final(pos) == self.next(*old(pos))),
        decreases depth, 6nat,
    {
        if depth == 0 {
            return Err(self.error(*pos, "a less deeply nested pattern"));
        }
        if self.is_sym(*pos, "{") {
            self.advance(pos);
            let mut entries: Vec<TablePatternEntry> = Vec::new();
            let mut rest: Option<String> = None;
            let mut guard: usize = 0;
            let limit = self.toks.len();
            while !self.is_sym(*pos, "}") && guard < limit
                invariant
                    self.wf(),
                    limit == self.toks.len(),
                    depth > 0,
                    !self.ident_at(*old(pos)),
                decreases limit - guard,
            {
                guard = guard + 1;
                if self.is_sym(*pos, "...") {
                    self.advance(pos);
                    rest = Some(self.expect_ident(pos)?);
                } else {
                    let key = self.expect_ident_or_keyword(pos)?;
                    let target = if self.is_sym(*pos, ":") {
                        self.advance(pos);
                        self.parse_pattern(pos, depth - 1)?
                    } else {
                        Pattern::Name(key.clone())
                    };
                    let default_value = self.optional_default(pos, depth - 1)?;
                    entries.push(
                        TablePatternEntry { key, binding: PatternBinding { target, default_value } },
                    );
                }
                if self.is_sym(*pos, ",") {
                    self.advance(pos);
                } else if !self.is_sym(*pos, "}") {
                    return Err(self.error(*pos, "'}'"));
                }
            }
            self.expect_sym(pos, "}")?;
            Ok(Pattern::Table { entries, rest })
        } else if self.is_sym(*pos, "[") {
            self.advance(pos);
            let mut items: Vec<ArrayPatternItem> = Vec::new();
            let mut rest: Option<String> = None;
            let mut guard: usize = 0;
            let limit = self.toks.len();
            while !self.is_sym(*pos, "]") && guard < limit
                invariant
                    self.wf(),
                    limit == self.toks.len(),
                    depth > 0,
                    !self.ident_at(*old(pos)),
                decreases limit - guard,
            {
                guard = guard + 1;
                if self.is_sym(*pos, "...") {
                    self.advance(pos);
                    rest = Some(self.expect_ident(pos)?);
                } else if self.is_sym(*pos, ",") {
                    items.push(ArrayPatternItem { binding: None });
                } else {
                    let target = self.parse_pattern(pos, depth - 1)?;
                    let default_value = self.optional_default(pos, depth - 1)?;
                    items.push(ArrayPatternItem { binding: Some(PatternBinding { target, default_value }) });
                }
                if self.is_sym(*pos, ",") {
                    self.advance(pos);
                } else if !self.is_sym(*pos, "]") {
                    return Err(self.error(*pos, "']'"));
                }
            }
            self.expect_sym(pos, "]")?;
            Ok(Pattern::Array { items, rest })
        } else {
            Ok(Pattern::Name(self.expect_ident(pos)?))
        }
    }

    /// Bindings separated by commas, each a pattern with an optional type.
    fn parse_bindings(&self, pos: &mut usize, depth: usize) -> (r: Result<Vec<Binding>, CompilerError>)
        requires
            self.wf(),
        ensures
            r matches Err(e) ==> self.located(e),
            (depth > 1 && self.ident_at(*old(pos)) && !self.sym_at(self.next(*old(pos)), ":"@)
                && !self.sym_at(self.next(*old(pos)), ","@)) ==> (r matches Ok(bs) && bs@.len() == 1
                && bs@[0].pattern is Name && bs@[0].pattern->Name_0@ == self.toks@[self.at(
                *old(pos),
            )].text@ && bs@[0].type_annotation is None && *final(pos) == self.next(*old(pos))),
        decreases depth, 7nat,
    {
        if depth == 0 {
            return Err(self.error(*pos, "a less deeply nested pattern"));
        }
        let ghost p0 = *pos;
        let ghost single = depth > 1 && self.ident_at(p0) && !self.sym_at(self.next(p0), ":"@)
            && !self.sym_at(self.next(p0), ","@);
        let mut bindings: Vec<Binding> = Vec::new();
        let mut guard: usize = 0;
        let limit = self.toks.len();
        loop
            invariant
                self.wf(),
                limit == self.toks.len(),
                depth > 0,
                p0 == *old(pos),
                single == (depth > 1 && self.ident_at(p0) && !self.sym_at(self.next(p0), ":"@)
                    && !self.sym_at(self.next(p0), ","@)),
                single ==> (guard == 0 && *pos == p0 && bindings@.len() == 0),
            decreases limit - guard,
        {
            if guard >= limit {
                return Err(self.error(*pos, "a binding"));
            }
            guard = guard + 1;
            let pattern = self.parse_pattern(pos, depth - 1)?;
            let type_annotation = self.optional_annotation(pos)?;
            let b = Binding { pattern, type_annotation };
            bindings.push(b);
            if self.is_sym(*pos, ",") {
                self.advance(pos);
                proof {
                    if single {
                        assert(self.sym_at(self.next(p0), ","@));
                    }
                }
            } else {
                proof {
                    if single {
                        assert(bindings@[0] == b);
                    }
                }
                return Ok(bindings);
            }
        }
    }

    /// A pattern of a `match` arm.
    fn parse_match_pattern(&self, pos: &mut usize, depth: usize) -> (r: Result<MatchPattern, CompilerError>)
        requires
            self.wf(),
        ensures
            r matches Err(e) ==> self.located(e),
        decreases depth, 6nat,
    {
        if depth == 0 {
            return Err(self.error(*pos, "a less deeply nested pattern"));
        }
        if self.is_sym(*pos, "{") {
            self.advance(pos);
            let mut fields: Vec<MatchFieldPattern> = Vec::new();
            let mut guard: usize = 0;
            let limit = self.toks.len();
            while !self.is_sym(*pos, "}") && guard < limit
                invariant
                    self.wf(),
                    limit == self.toks.len(),
                    depth > 0,
                decreases limit - guard,
            {
                guard = guard + 1;
                let key = self.expect_ident_or_keyword(pos)?;
                let pattern = if self.is_sym(*pos, "=") {
                    self.advance(pos);
                    self.parse_match_pattern(pos, depth - 1)?
                } else {
                    MatchPattern::Bind(key.clone())
                };
                fields.push(MatchFieldPattern { key, pattern });
                if self.is_sym(*pos, ",") {
                    self.advance(pos);
                } else if !self.is_sym(*pos, "}") {
                    return Err(self.error(*pos, "'}'"));
                }
            }
            self.expect_sym(pos, "}")?;
            Ok(MatchPattern::Table(fields))
        } else if self.is_ident(*pos) {
            Ok(MatchPattern::Bind(self.expect_ident(pos)?))
        } else {
            Ok(MatchPattern::Literal(self.parse_unary(pos, depth - 1)?))
        }
    }

    // -----------------------------------------------------------------
    // Statements
    // -----------------------------------------------------------------

    /// Whether the token at `pos` ends a block.
    fn block_ends(&self, pos: usize, in_match: bool) -> (b: bool)
        requires
            self.wf(),
        ensures
            self.toks@[self.at(pos)].kind == TokenKind::Eof ==> b,
            (self.toks@[self.at(pos)].kind == TokenKind::Name && self.toks@[self.at(pos)].text@
                == "local"@) ==> !b,
    {
        proof {
            reveal_strlit("local");
            reveal_strlit("end");
            reveal_strlit("else");
            reveal_strlit("elseif");
            reveal_strlit("until");
            reveal_strlit("case");
            reveal_strlit("default");
            reveal_strlit("true");
            reveal_strlit("false");
            reveal_strlit("nil");
            assert("local"@[0] != "until"@[0]);
            assert("local"@[0] != "false"@[0]);
        }
        self.kind(pos) == TokenKind::Eof || self.is_word(pos, "end") || self.is_word(pos, "else")
            || self.is_word(pos, "elseif") || self.is_word(pos, "until") || self.is_word(
            pos,
            "case",
        ) || self.is_word(pos, "default") || (in_match && (self.is_sym(pos, "{")
            || self.kind(pos) == TokenKind::Str || self.kind(pos) == TokenKind::Number
            || self.is_word(pos, "true") || self.is_word(pos, "false") || self.is_word(pos, "nil")
            || self.is_sym(pos, "-")))
    }

    /// Statements up to the end of a block.
    #[verifier::spinoff_prover]
    #[verifier::rlimit(30)]
    fn parse_block(&self, pos: &mut usize, depth: usize, in_match: bool) -> (r: Result<Block, CompilerError>)
        requires
            self.wf(),
        ensures
            r matches Err(e) ==> self.located(e),
            r matches Ok(b) ==> (b@.len() == 0 ==> *old(pos) <= *final(pos) && self.only_semicolons(
                *old(pos) as int,
                *final(pos) as int,
            )),
            r matches Ok(b) ==> forall|i: int|
                0 <= i < b@.len() ==> anchored(token_views(self.toks@), #[trigger] b@[i]),
            (depth > 0 && self.toks@.last().kind == TokenKind::Eof && *old(pos) < self.toks@.len()
                && self.only_semicolons(*old(pos) as int, self.toks@.len() - 1)) ==> (r matches Ok(b)
                && b@.len() == 0 && *final(pos) == self.toks@.len() - 1),
            (depth > 3 && self.toks@.last().kind == TokenKind::Eof && simple_locals(
                token_views(self.toks@),
                *old(pos) as int,
            ) is Some) ==> (r matches Ok(b) && locals_named(
                b@,
                simple_locals(token_views(self.toks@), *old(pos) as int)->Some_0,
            ) && *final(pos) == self.toks@.len() - 1),
        decreases depth, 9nat,
    {
        if depth == 0 {
            return Err(self.error(*pos, "a less deeply nested block"));
        }
        let ghost p0: int = *pos as int;
        let ghost only: bool = self.toks@.last().kind == TokenKind::Eof && p0 < self.toks@.len()
            && self.only_semicolons(p0, self.toks@.len() - 1);
        let ghost ts = token_views(self.toks@);
        let ghost fam: bool = depth > 3 && self.toks@.last().kind == TokenKind::Eof && simple_locals(
            ts,
            p0,
        ) is Some;
        let ghost ns0 = simple_locals(ts, p0)->Some_0;
        let mut block: Vec<Stmt> = Vec::new();
        let mut guard: usize = 0;
        let limit = self.toks.len();
        proof {
            vstd::std_specs::vec::axiom_spec_len(&self.toks);
            reveal_strlit(";");
            reveal_strlit(":");
            reveal_strlit(",");
            reveal_strlit("=");
            if fam {
                assert(ns0.subrange(0, 0) =~= seq![]);
                assert(ns0.subrange(0, ns0.len() as int) =~= ns0);
                assert(p0 < self.toks@.len());
            }
        }
        loop
            invariant
                self.wf(),
                limit == self.toks.len(),
                limit <= usize::MAX,
                depth > 0,
                p0 == *old(pos),
                ts == token_views(self.toks@),
                ";"@ == seq![';'] && ":"@ == seq![':'] && ","@ == seq![','] && "="@ == seq!['='],
                fam == (depth > 3 && self.toks@.last().kind == TokenKind::Eof && simple_locals(ts, p0)
                    is Some),
                ns0 == simple_locals(ts, p0)->Some_0,
                fam ==> (p0 <= *pos < self.toks@.len() && guard <= *pos - p0 && simple_locals(
                    ts,
                    *pos as int,
                ) == Some(ns0.subrange(block@.len() as int, ns0.len() as int)) && block@.len()
                    <= ns0.len() && locals_named(block@, ns0.subrange(0, block@.len() as int))),
                block@.len() == 0 ==> p0 <= *pos && self.only_semicolons(p0, *pos as int),
                only == (self.toks@.last().kind == TokenKind::Eof && p0 < self.toks@.len()
                    && self.only_semicolons(p0, self.toks@.len() - 1)),
                only ==> (block@.len() == 0 && *pos < self.toks@.len() && guard == *pos - p0),
                forall|i: int|
                    0 <= i < block@.len() ==> anchored(token_views(self.toks@), #[trigger] block@[i]),
            decreases limit - guard,
        {
            if guard >= limit {
                return Err(self.error(*pos, "the end of the block"));
            }
            guard = guard + 1;
            let ghost here: int = *pos as int;
            proof {
                if fam {
                    assert(ts[here] == token_view(self.toks@[here]));
                    assert(ts[self.toks@.len() - 1] == token_view(self.toks@.last()));
                }
            }
            if self.is_sym(*pos, ";") {
                self.advance(pos);
                proof {
                    if fam {
                        assert(ts[here].0 == TokenKind::Symbol && ts[here].1 == ";"@);
                        assert(here < self.toks@.len() - 1);
                        assert(simple_locals(ts, here) == simple_locals(ts, here + 1));
                    }
                    if block@.len() == 0 && here < self.toks@.len() {
                        assert forall|k: int| p0 <= k < *pos implies is_semicolon(
                            #[trigger] self.toks@[k],
                        ) by {
                            if k < here {
                                assert(self.only_semicolons(p0, here));
                            }
                        }
                    }
                }
            } else if self.block_ends(*pos, in_match) {
                proof {
                    if fam {
                        assert(ts[here].0 == TokenKind::Eof);
                        assert(here == self.toks@.len() - 1);
                        assert(block@.len() == ns0.len());
                        assert(ns0.subrange(0, block@.len() as int) =~= ns0);
                    }
                    if only && here < self.toks@.len() - 1 {
                        assert(self.only_semicolons(p0, self.toks@.len() - 1));
                        assert(is_semicolon(self.toks@[here]));
                    }
                }
                return Ok(block);
            } else {
                proof {
                    if only {
                        if here < self.toks@.len() - 1 {
                            assert(self.only_semicolons(p0, self.toks@.len() - 1));
                            assert(is_semicolon(self.toks@[here]));
                        }
                        assert(self.toks@[self.toks@.len() - 1] == self.toks@.last());
                    }
                }
                proof {
                    if fam {
                        assert(ts[here].0 == TokenKind::Name && ts[here].1 == "local"@);
                        assert(here + 1 < self.toks@.len() - 1);
                        assert(ts[here + 1] == token_view(self.toks@[here + 1]));
                        assert(ts[here + 2] == token_view(self.toks@[here + 2]));
                        assert(simple_locals(ts, here + 2) is Some);
                        assert(self.at(here as usize) == here);
                        assert(self.at((here + 1) as usize) == here + 1);
                        assert(self.at((here + 2) as usize) == here + 2);
                        assert(self.word_at(here as usize, "local"@));
                        assert(self.ident_at((here + 1) as usize));
                        let t2 = ts[here + 2];
                        assert(t2.0 == TokenKind::Eof || (t2.0 == TokenKind::Symbol && t2.1 == ";"@)
                            || (t2.0 == TokenKind::Name && t2.1 == "local"@));
                        assert(seq![';'][0] != seq![':'][0]);
                        assert(seq![';'][0] != seq![','][0]);
                        assert(seq![';'][0] != seq!['='][0]);
                        assert(!self.sym_at((here + 2) as usize, ":"@));
                        assert(!self.sym_at((here + 2) as usize, ","@));
                        assert(!self.sym_at((here + 2) as usize, "="@));
                        assert(depth - 1 > 2);
                    }
                }
                let s = self.parse_stmt(pos, depth - 1)?;
                let ghost before = block@;
                block.push(s);
                proof {
                    if fam {
                        let rest = simple_locals(ts, here + 2)->Some_0;
                        assert(simple_locals(ts, here) == Some(seq![ts[here + 1].1] + rest));
                        let n: int = before.len() as int;
                        assert(simple_locals(ts, here) == Some(ns0.subrange(n, ns0.len() as int)));
                        assert(ns0.subrange(n, ns0.len() as int).len() == 1 + rest.len());
                        assert(ns0.subrange(n as int, ns0.len() as int) =~= seq![ts[here + 1].1]
                            + rest);
                        assert(n < ns0.len());
                        assert(ns0.subrange(n, ns0.len() as int)[0] == ns0[n]);
                        assert(ns0[n] == ts[here + 1].1);
                        let tail = ns0.subrange(n, ns0.len() as int);
                        assert(tail.drop_first() =~= rest);
                        assert(ns0.subrange(n + 1 as int, ns0.len() as int) =~= tail.drop_first());
                        assert(simple_local(s, ns0[n]));
                        assert forall|j: int| 0 <= j < block@.len() implies simple_local(
                            #[trigger] block@[j],
                            ns0.subrange(0, block@.len() as int)[j],
                        ) by {
                            if j < n {
                                assert(block@[j] == before[j]);
                                assert(simple_local(before[j], ns0.subrange(0, n as int)[j]));
                            }
                        }
                    }
                    assert forall|i: int| 0 <= i < block@.len() implies anchored(
                        token_views(self.toks@),
                        #[trigger] block@[i],
                    ) by {
                        if i < before.len() {
                            assert(block@[i] == before[i]);
                        }
                    }
                }
            }
        }
    }

    /// Whether a list of return values may start at `pos`.
    fn values_follow(&self, pos: usize) -> (b: bool)
        requires
            self.wf(),
    {
        !(self.block_ends(pos, false) || self.is_sym(pos, ";"))
    }

    /// An expression as the target of an assignment.
    fn to_target(&self, pos: usize, e: Expr) -> (r: Result<AssignTarget, CompilerError>)
        requires
            self.wf(),
        ensures
            r matches Err(e) ==> self.located(e),
    {
        match e {
            Expr::Name(n) => Ok(AssignTarget::Name(n)),
            Expr::Chain { base, mut segments } => {
                let last = segments.pop();
                let object = if segments.len() == 0 {
                    *base
                } else {
                    Expr::Chain { base, segments }
                };
                match last {
                    Some(ChainSegment::Field { name, safe }) => if safe {
                        Err(self.error(pos, "an assignable target"))
                    } else {
                        Ok(AssignTarget::Field { object: Box::new(object), field: name })
                    },
                    Some(ChainSegment::Index { expr, safe }) => if safe {
                        Err(self.error(pos, "an assignable target"))
                    } else {
                        Ok(AssignTarget::Index { object: Box::new(object), index: expr })
                    },
                    _ => Err(self.error(pos, "an assignable target")),
                }
            },
            _ => Err(self.error(pos, "an assignable target")),
        }
    }

    /// The compound assignment operator at `pos`.
    fn compound_op_at(&self, pos: usize) -> (r: Option<CompoundOp>)
        requires
            self.wf(),
    {
        if self.is_sym(pos, "+=") {
            Some(CompoundOp::Add)
        } else if self.is_sym(pos, "-=") {
            Some(CompoundOp::Subtract)
        } else if self.is_sym(pos, "*=") {
            Some(CompoundOp::Multiply)
        } else if self.is_sym(pos, "/=") {
            Some(CompoundOp::Divide)
        } else if self.is_sym(pos, "//=") {
            Some(CompoundOp::FloorDivide)
        } else if self.is_sym(pos, "%=") {
            Some(CompoundOp::Modulo)
        } else if self.is_sym(pos, "^=") {
            Some(CompoundOp::Power)
        } else if self.is_sym(pos, "..=") {
            Some(CompoundOp::Concat)
        } else {
            None
        }
    }

    /// A statement that begins with an expression: an assignment of some
    /// kind, or a call.
    fn parse_expr_stmt(&self, pos: &mut usize, depth: usize) -> (r: Result<Stmt, CompilerError>)
        requires
            self.wf(),
        ensures
            r matches Err(e) ==> self.located(e),
            r matches Ok(s) ==> !(s is Local) && !(s is Function) && !(s is Enum) && !(s is TypeAlias),
        decreases depth, 8nat,
    {
        if depth == 0 {
            return Err(self.error(*pos, "a less deeply nested statement"));
        }
        let at = *pos;
        let first = self.parse_suffixed(pos, depth - 1)?;
        if self.is_sym(*pos, "=") || self.is_sym(*pos, ",") {
            let mut targets: Vec<AssignTarget> = Vec::new();
            targets.push(self.to_target(at, first)?);
            let mut guard: usize = 0;
            let limit = self.toks.len();
            while self.is_sym(*pos, ",") && guard < limit
                invariant
                    self.wf(),
                    limit == self.toks.len(),
                    depth > 0,
                decreases limit - guard,
            {
                guard = guard + 1;
                self.advance(pos);
                let here = *pos;
                let t = self.parse_suffixed(pos, depth - 1)?;
                targets.push(self.to_target(here, t)?);
            }
            self.expect_sym(pos, "=")?;
            let values = self.parse_expr_list(pos, depth - 1)?;
            return Ok(Stmt::Assignment(Assignment { targets, values }));
        }
        if self.is_sym(*pos, "??=") {
            let target = self.to_target(at, first)?;
            self.advance(pos);
            let value = self.parse_expr(pos, depth - 1)?;
            return Ok(Stmt::NullishAssignment { target, value });
        }
        match self.compound_op_at(*pos) {
            Some(op) => {
                let target = self.to_target(at, first)?;
                self.advance(pos);
                let value = self.parse_expr(pos, depth - 1)?;
                return Ok(Stmt::CompoundAssignment { target, op, value });
            },
            None => {},
        }
        let is_call = match &first {
            Expr::Chain { segments, .. } => segments.len() > 0 && match &segments[segments.len() - 1] {
                ChainSegment::Call { .. } | ChainSegment::MethodCall { .. } => true,
                _ => false,
            },
            _ => false,
        };
        if is_call {
            Ok(Stmt::Call(first))
        } else {
            Err(self.error(*pos, "'=' or a call"))
        }
    }

    /// One statement.
    #[verifier::loop_isolation(false)]
    fn parse_stmt(&self, pos: &mut usize, depth: usize) -> (r: Result<Stmt, CompilerError>)
        requires
            self.wf(),
        ensures
            r matches Err(e) ==> self.located(e),
            r matches Ok(s) ==> anchored(token_views(self.toks@), s),
            (depth > 2 && *old(pos) + 2 < self.toks@.len() && self.word_at(*old(pos), "local"@)
                && self.ident_at((*old(pos) + 1) as usize) && !self.sym_at(
                (*old(pos) + 2) as usize,
                ":"@,
            ) && !self.sym_at((*old(pos) + 2) as usize, ","@) && !self.sym_at(
                (*old(pos) + 2) as usize,
                "="@,
            )) ==> (r matches Ok(s) && simple_local(s, self.toks@[*old(pos) + 1].text@)
                && *final(pos) == *old(pos) + 2),
        decreases depth, 9nat,
    {
        if depth == 0 {
            return Err(self.error(*pos, "a less deeply nested statement"));
        }
        let d = depth - 1;
        let start = self.tok(*pos).start;
        let ghost k0 = self.at(*pos);
        proof {
            assert(token_views(self.toks@)[k0] == token_view(self.toks@[k0]));
            assert(starts_at(token_views(self.toks@)[k0], start));
        }
        if self.is_word(*pos, "local") && self.is_word((*pos).saturating_add(1), "function") {
            self.advance(pos);
            self.advance(pos);
            let root = self.expect_ident(pos)?;
            let (generics, params, return_type, body) = self.parse_function_body(pos, d)?;
            let decl = FunctionDecl {
                start,
                local_name: true,
                name: FunctionName { root, fields: Vec::new(), method: None },
                generics,
                params,
                return_type,
                body,
            };
            proof {
                let ts = token_views(self.toks@);
                assert(Stmt::Function(decl)->Function_0 == decl);
                assert(ts[k0] == token_view(self.toks@[k0]));
                assert(0 <= k0 < ts.len());
                assert(starts_at(ts[k0], decl.start));
                assert(anchored(ts, Stmt::Function(decl)));
            }
            return Ok(Stmt::Function(decl));
        }
        if self.is_word(*pos, "local") || self.is_word(*pos, "const") {
            let is_const = self.is_word(*pos, "const");
            proof {
                reveal_strlit("local");
                reveal_strlit("const");
                assert("local"@[0] != "const"@[0]);
            }
            let line = self.tok(*pos).line;
            let column = self.tok(*pos).column;
            let ghost k = self.at(*pos);
            let ghost p0: int = *pos as int;
            let ghost loc = depth > 2 && p0 + 2 < self.toks@.len() && self.ident_at((p0 + 1) as usize)
                && !self.sym_at((p0 + 2) as usize, ":"@) && !self.sym_at((p0 + 2) as usize, ","@)
                && !self.sym_at((p0 + 2) as usize, "="@) && !is_const;
            self.advance(pos);
            proof {
                if loc {
                    vstd::std_specs::vec::axiom_spec_len(&self.toks);
                    assert(*pos == p0 + 1);
                    assert(self.next(*pos) == p0 + 2);
                }
            }
            let bindings = self.parse_bindings(pos, d)?;
            proof {
                if loc {
                    assert(bindings@.len() == 1);
                    assert(*pos == p0 + 2);
                }
            }
            let values = if self.is_sym(*pos, "=") {
                self.advance(pos);
                self.parse_expr_list(pos, d)?
            } else {
                Vec::new()
            };
            let decl = LocalDecl { start, line, column, is_const, bindings, values };
            proof {
                let ts = token_views(self.toks@);
                assert(ts[k] == token_view(self.toks@[k]));
                assert(keyword_of(ts[k], decl));
                assert(0 <= k < ts.len());
                assert(Stmt::Local(decl)->Local_0 == decl);
                assert(anchored(ts, Stmt::Local(decl)));
                if loc {
                    assert(decl.values@.len() == 0);
                    assert(self.at((p0 + 1) as usize) == p0 + 1);
                    assert(simple_local(Stmt::Local(decl), self.toks@[p0 + 1].text@));
                }
            }
            return Ok(Stmt::Local(decl));
        }
        if self.is_word(*pos, "function") {
            self.advance(pos);
            let root = self.expect_ident(pos)?;
            let mut fields: Vec<String> = Vec::new();
            let mut guard: usize = 0;
            let limit = self.toks.len();
            while self.is_sym(*pos, ".") && guard < limit
                invariant
                    self.wf(),
                    limit == self.toks.len(),
                decreases limit - guard,
            {
                guard = guard + 1;
                self.advance(pos);
                fields.push(self.expect_ident_or_keyword(pos)?);
            }
            let method = if self.is_sym(*pos, ":") {
                self.advance(pos);
                Some(self.expect_ident_or_keyword(pos)?)
            } else {
                None
            };
            let (generics, params, return_type, body) = self.parse_function_body(pos, d)?;
            let decl = FunctionDecl {
                start,
                local_name: false,
                name: FunctionName { root, fields, method },
                generics,
                params,
                return_type,
                body,
            };
            proof {
                let ts = token_views(self.toks@);
                assert(Stmt::Function(decl)->Function_0 == decl);
                assert(ts[k0] == token_view(self.toks@[k0]));
                assert(0 <= k0 < ts.len());
                assert(starts_at(ts[k0], decl.start));
                assert(anchored(ts, Stmt::Function(decl)));
            }
            return Ok(Stmt::Function(decl));
        }
        if self.is_word(*pos, "return") {
            self.advance(pos);
            let values = if self.values_follow(*pos) {
                self.parse_expr_list(pos, d)?
            } else {
                Vec::new()
            };
            return Ok(Stmt::Return(values));
        }
        if self.is_word(*pos, "if") {
            self.advance(pos);
            let mut branches: Vec<(Expr, Block)> = Vec::new();
            let c = self.parse_expr(pos, d)?;
            self.expect_word(pos, "then")?;
            let b = self.parse_block(pos, d, false)?;
            branches.push((c, b));
            let mut guard: usize = 0;
            let limit = self.toks.len();
            while self.is_word(*pos, "elseif") && guard < limit
                invariant
                    self.wf(),
                    limit == self.toks.len(),
                    d < depth,
                decreases limit - guard,
            {
                guard = guard + 1;
                self.advance(pos);
                let c = self.parse_expr(pos, d)?;
                self.expect_word(pos, "then")?;
                let b = self.parse_block(pos, d, false)?;
                branches.push((c, b));
            }
            let else_block = if self.is_word(*pos, "else") {
                self.advance(pos);
                Some(self.parse_block(pos, d, false)?)
            } else {
                None
            };
            self.expect_word(pos, "end")?;
            return Ok(Stmt::If(IfStmt { branches, else_block }));
        }
        if self.is_word(*pos, "while") {
            self.advance(pos);
            let condition = self.parse_expr(pos, d)?;
            self.expect_word(pos, "do")?;
            let block = self.parse_block(pos, d, false)?;
            self.expect_word(pos, "end")?;
            return Ok(Stmt::While { condition, block });
        }
        if self.is_word(*pos, "repeat") {
            self.advance(pos);
            let block = self.parse_block(pos, d, false)?;
            self.expect_word(pos, "until")?;
            let condition = self.parse_expr(pos, d)?;
            return Ok(Stmt::Repeat { block, condition });
        }
        if self.is_word(*pos, "for") {
            self.advance(pos);
            if self.is_ident(*pos) && self.is_sym((*pos).saturating_add(1), "=") {
                let name = self.expect_ident(pos)?;
                self.advance(pos);
                let start = self.parse_expr(pos, d)?;
                self.expect_sym(pos, ",")?;
                let end = self.parse_expr(pos, d)?;
                let step = if self.is_sym(*pos, ",") {
                    self.advance(pos);
                    Some(self.parse_expr(pos, d)?)
                } else {
                    None
                };
                self.expect_word(pos, "do")?;
                let block = self.parse_block(pos, d, false)?;
                self.expect_word(pos, "end")?;
                return Ok(Stmt::ForNumeric(ForNumeric { name, start, end, step, block }));
            }
            let bindings = self.parse_bindings(pos, d)?;
            self.expect_word(pos, "in")?;
            let iterables = self.parse_expr_list(pos, d)?;
            self.expect_word(pos, "do")?;
            let block = self.parse_block(pos, d, false)?;
            self.expect_word(pos, "end")?;
            return Ok(Stmt::ForGeneric(ForGeneric { bindings, iterables, block }));
        }
        if self.is_word(*pos, "do") {
            self.advance(pos);
            let block = self.parse_block(pos, d, false)?;
            self.expect_word(pos, "end")?;
            return Ok(Stmt::Do(block));
        }
        if self.is_word(*pos, "break") {
            self.advance(pos);
            return Ok(Stmt::Break);
        }
        if self.is_word(*pos, "continue") {
            self.advance(pos);
            return Ok(Stmt::Continue);
        }
        if self.is_word(*pos, "fallthrough") {
            self.advance(pos);
            return Ok(Stmt::Fallthrough);
        }
        if (self.is_word(*pos, "type") && self.is_ident((*pos).saturating_add(1))) || (self.is_word(*pos, "export")
            && self.is_word((*pos).saturating_add(1), "type")) {
            let from = *pos;
            if self.is_word(*pos, "export") {
                self.advance(pos);
            }
            self.advance(pos);
            self.expect_ident(pos)?;
            if self.is_sym(*pos, "<") {
                self.skip_group(pos)?;
            }
            self.expect_sym(pos, "=")?;
            self.skip_type(pos, 64)?;
            let raw = self.text_between(from, *pos);
            proof {
                let ts = token_views(self.toks@);
                assert(ts[k0] == token_view(self.toks@[k0]));
                assert(0 <= k0 < ts.len());
                assert(Stmt::TypeAlias { raw, start }->TypeAlias_start == start);
                assert(starts_at(ts[k0], start));
                assert(anchored(ts, Stmt::TypeAlias { raw, start }));
            }
            return Ok(Stmt::TypeAlias { raw, start });
        }
        if self.is_word(*pos, "enum") {
            self.advance(pos);
            let name = self.expect_ident(pos)?;
            let base_type = self.optional_annotation(pos)?;
            let mut members: Vec<EnumMember> = Vec::new();
            let mut guard: usize = 0;
            let limit = self.toks.len();
            while !self.is_word(*pos, "end") && guard < limit
                invariant
                    self.wf(),
                    limit == self.toks.len(),
                    d < depth,
                decreases limit - guard,
            {
                guard = guard + 1;
                let member = self.expect_ident(pos)?;
                let value = if self.is_sym(*pos, "=") {
                    self.advance(pos);
                    Some(self.parse_expr(pos, d)?)
                } else {
                    None
                };
                members.push(EnumMember { name: member, value });
                if self.is_sym(*pos, ",") {
                    self.advance(pos);
                }
            }
            self.expect_word(pos, "end")?;
            let decl = EnumDecl { start, name, base_type, members };
            proof {
                let ts = token_views(self.toks@);
                assert(ts[k0] == token_view(self.toks@[k0]));
                assert(0 <= k0 < ts.len());
                assert(Stmt::Enum(decl)->Enum_0 == decl);
                assert(starts_at(ts[k0], decl.start));
                assert(anchored(ts, Stmt::Enum(decl)));
            }
            return Ok(Stmt::Enum(decl));
        }
        if self.is_word(*pos, "switch") {
            self.advance(pos);
            let value = self.parse_expr(pos, d)?;
            let mut cases: Vec<SwitchCase> = Vec::new();
            let mut guard: usize = 0;
            let limit = self.toks.len();
            while self.is_word(*pos, "case") && guard < limit
                invariant
                    self.wf(),
                    limit == self.toks.len(),
                    d < depth,
                decreases limit - guard,
            {
                guard = guard + 1;
                self.advance(pos);
                let v = self.parse_expr(pos, d)?;
                let mut block = self.parse_block(pos, d, false)?;
                let mut fallthrough = false;
                if block.len() > 0 {
                    match &block[block.len() - 1] {
                        Stmt::Fallthrough => {
                            fallthrough = true;
                        },
                        _ => {},
                    }
                }
                if fallthrough {
                    block.pop();
                }
                cases.push(SwitchCase { value: v, block, fallthrough });
            }
            let default = if self.is_word(*pos, "default") {
                self.advance(pos);
                Some(self.parse_block(pos, d, false)?)
            } else {
                None
            };
            self.expect_word(pos, "end")?;
            return Ok(Stmt::Switch(SwitchStmt { value, cases, default }));
        }
        if self.is_word(*pos, "match") && !self.is_sym((*pos).saturating_add(1), "=") && !self.is_sym((*pos).saturating_add(1), "(") {
            self.advance(pos);
            let value = self.parse_expr(pos, d)?;
            let mut cases: Vec<MatchCase> = Vec::new();
            let mut guard: usize = 0;
            let limit = self.toks.len();
            while !self.is_word(*pos, "end") && guard < limit
                invariant
                    self.wf(),
                    limit == self.toks.len(),
                    d < depth,
                decreases limit - guard,
            {
                guard = guard + 1;
                let pattern = self.parse_match_pattern(pos, d)?;
                let guard_expr = if self.is_word(*pos, "if") {
                    self.advance(pos);
                    Some(self.parse_expr(pos, d)?)
                } else {
                    None
                };
                let block = self.parse_block(pos, d, true)?;
                cases.push(MatchCase { pattern, guard: guard_expr, block });
            }
            self.expect_word(pos, "end")?;
            return Ok(Stmt::Match(MatchStmt { value, cases }));
        }
        self.parse_expr_stmt(pos, d)
    }
}

/// Parses XLuau source into a program. A source that does not lex (see
/// `lex`) is a lex error with the lexer's message; otherwise an error is a
/// parse error naming what was expected and what was found at one of the
/// source's tokens, with that token's line and column. A source with no
/// token but `;` parses to the empty program, and only such a source does;
/// a source of `local name` declarations and `;` parses to exactly those
/// declarations, in order.
pub fn parse_program(source: &str) -> (r: Result<Program, CompilerError>)
    ensures
        r matches Err(e) ==> e is Lex || e is Parse,
        (r matches Err(e) && e is Lex) <==> lex(source@) is Err,
        r matches Err(e) ==> (e matches CompilerError::Lex { message } ==> lex(source@) == Err::<
            Seq<TokenView>,
            Seq<char>,
        >(message@)),
        r matches Err(e) ==> (e matches CompilerError::Parse { message } ==> (lex(source@) matches Ok(
            ts,
        ) && exists|k: int, w: Seq<char>|
            0 <= k < ts.len() && #[trigger] parse_message(w, ts[k]) == message@)),
        (lex(source@) matches Ok(ts) && only_semicolon_tokens(ts)) ==> (r matches Ok(p)
            && p.block@.len() == 0),
        r matches Ok(p) ==> anchored_to_source(source@, p),
        (lex(source@) is Ok && simple_locals(lex(source@)->Ok_0, 0) is Some) ==> (r matches Ok(p)
            && locals_named(p.block@, simple_locals(lex(source@)->Ok_0, 0)->Some_0)),
{
    let toks = match tokenize(source) {
        Ok(toks) => toks,
        Err(e) => {
            return Err(e);
        },
    };
    let ghost ts = token_views(toks@);
    assert(lex(source@) == Ok::<Seq<TokenView>, Seq<char>>(ts));
    proof {
        lemma_lex_from_ends_once(source@, 0, 1, 0, seq![]);
    }
    let parser = Parser { toks, src: chars_of(source) };
    assert(parser.toks@ == toks@);
    proof {
        parser.lemma_semicolons_agree(ts);
    }
    let mut pos: usize = 0;
    let block = match parser.parse_block(&mut pos, MAX_DEPTH, false) {
        Ok(b) => b,
        Err(e) => {
            proof {
                parser.lemma_located_in(e, ts);
                lemma_parse_error_in_lex(source@, ts, e);
            }
            return Err(e);
        },
    };
    if parser.kind(pos) != TokenKind::Eof {
        assert(!only_semicolon_tokens(ts));
        let e = parser.error(pos, "end of input");
        proof {
            parser.lemma_located_in(e, ts);
            lemma_parse_error_in_lex(source@, ts, e);
        }
        return Err(e);
    }
    proof {
        if block@.len() == 0 {
            let last = parser.toks@.len() - 1;
            if pos < parser.toks@.len() && pos != last {
                assert(ts[pos as int].0 != TokenKind::Eof);
            }
            assert forall|k: int| 0 <= k < last implies is_semicolon(#[trigger] parser.toks@[k]) by {
                assert(parser.only_semicolons(0, pos as int));
            }
            assert(parser.only_semicolons(0, last));
        }
    }
    Ok(Program { block })
}

/// Whether the program `p` is anchored to the text `source`: the source
/// lexes, each top-level declaration of `p` stands where it says among its
/// tokens, and `p` is empty exactly when no token but `;` comes before the
/// end. This is what `parse_program` promises of its result; it does not
/// say which program that is.
pub open spec fn anchored_to_source(source: Seq<char>, p: Program) -> bool {
    lex(source) matches Ok(ts) && (forall|i: int|
        0 <= i < p.block@.len() ==> anchored(ts, #[trigger] p.block@[i])) && (p.block@.len() == 0
        <==> only_semicolon_tokens(ts))
}

/// Whether `p` is anchored to `source` cut at its end or at one of its
/// line breaks.
pub open spec fn anchored_to_a_cut(source: Seq<char>, p: Program) -> bool {
    exists|j: int|
        0 <= j <= source.len() && (j == source.len() || source[j] == '\n')
            && #[trigger] anchored_to_source(source.subrange(0, j), p)
}

/// Parses as much of `source` as parses: the whole source, or else the
/// source cut at its last line break, and so on to shorter cuts. `None`
/// when a cut does not lex, or when no cut parses.
pub fn parse_program_best_effort(source: &str) -> (r: Option<Program>)
    ensures
        r matches Some(p) ==> anchored_to_a_cut(source@, p),
{
    let chars = chars_of(source);
    let newline = ['\n'];
    let mut j: usize = chars.len();
    loop
        invariant
            j <= chars@.len(),
            chars@ == source@,
            newline@ == seq!['\n'],
            j == chars@.len() || source@[j as int] == '\n',
        decreases j,
    {
        let cut = sub_chars(chars.as_slice(), 0, j);
        let candidate = string_from_chars(cut.as_slice());
        match parse_program(candidate.as_str()) {
            Ok(p) => {
                let ghost jj = j as int;
                assert(anchored_to_source(source@.subrange(0, jj), p));
                assert(0 <= jj <= source@.len() && (jj == source@.len() || source@[jj] == '\n'));
                assert(anchored_to_a_cut(source@, p));
                return Some(p);
            },
            Err(CompilerError::Lex { .. }) => {
                return None;
            },
            Err(_) => {},
        }
        match rfind_chars(cut.as_slice(), newline.as_slice()) {
            Some(k) => {
                assert(cut@.subrange(k as int, k + 1) =~= seq!['\n']);
                assert(cut@.subrange(k as int, k + 1)[0] == cut@[k as int]);
                j = k;
            },
            None => {
                return None;
            },
        }
    }
}

/// Every token but the last, the end of input, is `;`.
pub open spec fn only_semicolon_tokens(ts: Seq<TokenView>) -> bool {
    forall|k: int| 0 <= k < ts.len() - 1 ==> #[trigger] ts[k].0 == TokenKind::Symbol && ts[k].1 == ";"@
}

/// A parse error about one of the tokens that `source` lexes to.
proof fn lemma_parse_error_in_lex(source: Seq<char>, ts: Seq<TokenView>, e: CompilerError)
    requires
        lex(source) == Ok::<Seq<TokenView>, Seq<char>>(ts),
        e matches CompilerError::Parse { message } && exists|k: int, w: Seq<char>|
            0 <= k < ts.len() && #[trigger] parse_message(w, ts[k]) == message@,
    ensures
        e matches CompilerError::Parse { message } ==> (lex(source) matches Ok(t2) && exists|
            k: int,
            w: Seq<char>,
        | 0 <= k < t2.len() && #[trigger] parse_message(w, t2[k]) == message@),
{
    let m = e->Parse_message;
    let (k, w) = choose|k: int, w: Seq<char>|
        0 <= k < ts.len() && #[trigger] parse_message(w, ts[k]) == m@;
    let t2 = lex(source)->Ok_0;
    assert(t2 == ts);
    assert(0 <= k < t2.len() && parse_message(w, t2[k]) == m@);
}

impl Parser {
    /// The parser's tokens are all `;` before the last exactly when their
    /// views are.
    proof fn lemma_semicolons_agree(&self, ts: Seq<TokenView>)
        requires
            ts == token_views(self.toks@),
            ends_once(ts),
        ensures
            self.wf(),
            self.toks@.last().kind == TokenKind::Eof,
            forall|k: int| 0 <= k < ts.len() - 1 ==> #[trigger] ts[k].0 != TokenKind::Eof,
            forall|k: int| 0 <= k < ts.len() ==> #[trigger] ts[k] == token_view(self.toks@[k]),
            only_semicolon_tokens(ts) <==> self.only_semicolons(0, self.toks@.len() - 1),
    {
        assert(ts.len() == self.toks@.len());
        assert forall|k: int| 0 <= k < ts.len() implies #[trigger] ts[k] == token_view(self.toks@[k]) by {}
        assert(ts.last() == token_view(self.toks@.last()));
        if only_semicolon_tokens(ts) {
            assert forall|k: int| 0 <= k < self.toks@.len() - 1 implies is_semicolon(
                #[trigger] self.toks@[k],
            ) by {
                assert(ts[k] == token_view(self.toks@[k]));
                assert(ts[k].0 == TokenKind::Symbol && ts[k].1 == ";"@);
            }
        }
        if self.only_semicolons(0, self.toks@.len() - 1) {
            assert forall|k: int| 0 <= k < ts.len() - 1 implies #[trigger] ts[k].0 == TokenKind::Symbol
                && ts[k].1 == ";"@ by {
                assert(is_semicolon(self.toks@[k]));
                assert(ts[k] == token_view(self.toks@[k]));
            }
        }
    }

    /// A located error names one of the tokens `ts` when they are the views
    /// of the parser's tokens.
    proof fn lemma_located_in(&self, e: CompilerError, ts: Seq<TokenView>)
        requires
            self.located(e),
            ts == token_views(self.toks@),
        ensures
            e matches CompilerError::Parse { message } && exists|k: int, w: Seq<char>|
                0 <= k < ts.len() && #[trigger] parse_message(w, ts[k]) == message@,
    {
        let message = e->Parse_message;
        let (k, w) = choose|k: int, w: Seq<char>|
            0 <= k < self.toks@.len() && #[trigger] parse_message(w, token_view(self.toks@[k]))
                == message@;
        assert(ts[k] == token_view(self.toks@[k]));
        assert(parse_message(w, ts[k]) == message@);
    }
}

} // verus!
