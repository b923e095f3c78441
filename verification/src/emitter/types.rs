//! Type shapes known to the emitter, and the exhaustiveness checks of
//! `switch` and `match` that use them.

use vstd::prelude::*;

use crate::ast::{
    ChainSegment, EnumDecl, EnumMember, Expr, MatchCase, MatchFieldPattern, MatchPattern,
    MatchStmt, Param, Pattern, SwitchCase, SwitchStmt,
};
use crate::emitter::names::{literal_key, literal_key_of, pattern_names, pattern_names_of};
use crate::emitter::{EmitState, Emitter};
use crate::tooling::leading_ident;
use crate::text::{
    chars_have_prefix, chars_of, find, find_chars, has_prefix, has_suffix, is_ws, join,
    push_line, string_from_chars, string_of, sub_chars, trim, trim_chars, views,
};

verus! {

/// What the emitter knows of a named type.
pub enum TypeShape {
    /// A union of literal types.
    LiteralUnion(Vec<String>),
    /// An `enum`: its member values, and each member's value by name.
    Enum { values: Vec<String>, members: Vec<(String, String)> },
    /// A union of table types told apart by the literal type of `field`.
    DiscriminatedUnion { field: String, variants: Vec<String> },
}

/// The abstract value of a type shape.
pub enum ShapeView {
    LiteralUnion(Seq<Seq<char>>),
    Enum { values: Seq<Seq<char>>, members: Seq<(Seq<char>, Seq<char>)> },
    DiscriminatedUnion { field: Seq<char>, variants: Seq<Seq<char>> },
}

/// The views of a list of string pairs.
pub open spec fn pairs(v: Seq<(String, String)>) -> Seq<(Seq<char>, Seq<char>)> {
    v.map_values(|p: (String, String)| (p.0@, p.1@))
}

impl View for TypeShape {
    type V = ShapeView;

    open spec fn view(&self) -> ShapeView {
        match self {
            TypeShape::LiteralUnion(v) => ShapeView::LiteralUnion(views(v@)),
            TypeShape::Enum { values, members } => ShapeView::Enum {
                values: views(values@),
                members: pairs(members@),
            },
            TypeShape::DiscriminatedUnion { field, variants } => ShapeView::DiscriminatedUnion {
                field: field@,
                variants: views(variants@),
            },
        }
    }
}

/// The value of the last entry for `key` in an association list.
pub open spec fn assoc_get<V>(s: Seq<(Seq<char>, V)>, key: Seq<char>) -> Option<V>
    decreases s.len(),
{
    if s.len() == 0 {
        None
    } else if s.last().0 == key {
        Some(s.last().1)
    } else {
        assoc_get(s.drop_last(), key)
    }
}

/// The index of the first entry for `key` in an association list.
pub open spec fn assoc_index(s: Seq<(Seq<char>, Seq<char>)>, key: Seq<char>) -> Option<int>
    decreases s.len(),
{
    if s.len() == 0 {
        None
    } else {
        match assoc_index(s.drop_last(), key) {
            Some(i) => Some(i),
            None => if s.last().0 == key {
                Some(s.len() - 1)
            } else {
                None
            },
        }
    }
}

/// The association list with `key` bound to `value`: an existing entry is
/// replaced where it stands, a new one goes at the end.
pub open spec fn assoc_put(s: Seq<(Seq<char>, Seq<char>)>, key: Seq<char>, value: Seq<char>) -> Seq<
    (Seq<char>, Seq<char>),
> {
    match assoc_index(s, key) {
        Some(i) => s.update(i, (key, value)),
        None => s.push((key, value)),
    }
}

/// The scanning state of `split_top_level`.
pub struct SplitState {
    pub parts: Seq<Seq<char>>,
    pub current: Seq<char>,
    pub paren: nat,
    pub brace: nat,
    pub bracket: nat,
    pub angle: nat,
    pub quote: Option<char>,
    pub escaped: bool,
}

/// One less, stopping at zero.
pub open spec fn dec(n: nat) -> nat {
    if n > 0 {
        (n - 1) as nat
    } else {
        0
    }
}

/// The scanning state after one more character.
pub open spec fn split_step(st: SplitState, ch: char, delimiter: char) -> SplitState {
    match st.quote {
        Some(q) => if st.escaped {
            SplitState { escaped: false, current: st.current.push(ch), ..st }
        } else if ch == '\\' {
            SplitState { escaped: true, current: st.current.push(ch), ..st }
        } else if ch == q {
            SplitState { quote: None, current: st.current.push(ch), ..st }
        } else {
            SplitState { current: st.current.push(ch), ..st }
        },
        None => {
            let st2 = SplitState { current: st.current.push(ch), ..st };
            if ch == '"' || ch == '\'' || ch == '`' {
                SplitState { quote: Some(ch), ..st2 }
            } else if ch == '(' {
                SplitState { paren: st.paren + 1, ..st2 }
            } else if ch == ')' {
                SplitState { paren: dec(st.paren), ..st2 }
            } else if ch == '{' {
                SplitState { brace: st.brace + 1, ..st2 }
            } else if ch == '}' {
                SplitState { brace: dec(st.brace), ..st2 }
            } else if ch == '[' {
                SplitState { bracket: st.bracket + 1, ..st2 }
            } else if ch == ']' {
                SplitState { bracket: dec(st.bracket), ..st2 }
            } else if ch == '<' {
                SplitState { angle: st.angle + 1, ..st2 }
            } else if ch == '>' {
                SplitState { angle: dec(st.angle), ..st2 }
            } else if ch == delimiter && st.paren == 0 && st.brace == 0 && st.bracket == 0
                && st.angle == 0 {
                SplitState { parts: st.parts.push(st.current), current: seq![], ..st }
            } else {
                st2
            }
        },
    }
}

/// The scanning state after all of `text`.
pub open spec fn split_scan(text: Seq<char>, delimiter: char) -> SplitState
    decreases text.len(),
{
    if text.len() == 0 {
        SplitState {
            parts: seq![],
            current: seq![],
            paren: 0,
            brace: 0,
            bracket: 0,
            angle: 0,
            quote: None,
            escaped: false,
        }
    } else {
        split_step(split_scan(text.drop_last(), delimiter), text.last(), delimiter)
    }
}

/// `text` split at each `delimiter` outside quotes and brackets.
pub open spec fn split_top(text: Seq<char>, delimiter: char) -> Seq<Seq<char>> {
    let st = split_scan(text, delimiter);
    st.parts.push(st.current)
}

/// The parts of a list, the last one `x`, joined by `sep`.
proof fn lemma_join_push(ps: Seq<Seq<char>>, x: Seq<char>, sep: Seq<char>)
    ensures
        join(ps.push(x), sep) == if ps.len() == 0 {
            x
        } else {
            join(ps, sep) + sep + x
        },
{
    assert(ps.push(x).drop_last() =~= ps);
}

/// Joining the parts found so far, and the part being read, with the
/// delimiter gives back the text scanned.
proof fn lemma_split_scan_rejoins(text: Seq<char>, delimiter: char)
    ensures
        join(split_top(text, delimiter), seq![delimiter]) == text,
    decreases text.len(),
{
    if text.len() == 0 {
        assert(split_top(text, delimiter) =~= seq![seq![]]);
        assert(text =~= seq![]);
    } else {
        let pre = text.drop_last();
        let ch = text.last();
        lemma_split_scan_rejoins(pre, delimiter);
        let st = split_scan(pre, delimiter);
        let d = seq![delimiter];
        lemma_join_push(st.parts, st.current, d);
        lemma_join_push(st.parts, st.current.push(ch), d);
        lemma_join_push(st.parts.push(st.current), seq![], d);
        assert(text =~= pre.push(ch));
        assert(join(st.parts, d) + d + st.current.push(ch) =~= (join(st.parts, d) + d
            + st.current).push(ch));
        assert(join(st.parts.push(st.current), d) + d + seq![] =~= join(
            st.parts.push(st.current),
            d,
        ).push(delimiter));
    }
}

/// Splits `text` at each `delimiter` that stands outside strings,
/// parentheses, braces, brackets and angle brackets. Joining the parts with
/// the delimiter gives `text` back.
pub fn split_top_level(text: &[char], delimiter: char) -> (r: Vec<Vec<char>>)
    ensures
        r@.map_values(|v: Vec<char>| v@) == split_top(text@, delimiter),
        join(r@.map_values(|v: Vec<char>| v@), seq![delimiter]) == text@,
{
    proof {
        lemma_split_scan_rejoins(text@, delimiter);
    }
    let mut parts: Vec<Vec<char>> = Vec::new();
    let mut current: Vec<char> = Vec::new();
    let mut paren: usize = 0;
    let mut brace: usize = 0;
    let mut bracket: usize = 0;
    let mut angle: usize = 0;
    let mut in_string: Option<char> = None;
    let mut escaped = false;
    let mut i: usize = 0;
    while i < text.len()
        invariant
            i <= text@.len(),
            paren <= i,
            brace <= i,
            bracket <= i,
            angle <= i,
            ({
                let st = split_scan(text@.subrange(0, i as int), delimiter);
                &&& parts@.map_values(|v: Vec<char>| v@) == st.parts
                &&& current@ == st.current
                &&& paren as nat == st.paren
                &&& brace as nat == st.brace
                &&& bracket as nat == st.bracket
                &&& angle as nat == st.angle
                &&& in_string == st.quote
                &&& escaped == st.escaped
            }),
        decreases text.len() - i,
    {
        let ch = text[i];
        assert(text@.subrange(0, i + 1).drop_last() =~= text@.subrange(0, i as int));
        let ghost prev_parts = parts@;
        match in_string {
            Some(quote) => {
                current.push(ch);
                if escaped {
                    escaped = false;
                } else if ch == '\\' {
                    escaped = true;
                } else if ch == quote {
                    in_string = None;
                }
            },
            None => {
                if ch == '"' || ch == '\'' || ch == '`' {
                    current.push(ch);
                    in_string = Some(ch);
                } else if ch == '(' {
                    current.push(ch);
                    paren = paren + 1;
                } else if ch == ')' {
                    current.push(ch);
                    paren = if paren > 0 {
                        paren - 1
                    } else {
                        0
                    };
                } else if ch == '{' {
                    current.push(ch);
                    brace = brace + 1;
                } else if ch == '}' {
                    current.push(ch);
                    brace = if brace > 0 {
                        brace - 1
                    } else {
                        0
                    };
                } else if ch == '[' {
                    current.push(ch);
                    bracket = bracket + 1;
                } else if ch == ']' {
                    current.push(ch);
                    bracket = if bracket > 0 {
                        bracket - 1
                    } else {
                        0
                    };
                } else if ch == '<' {
                    current.push(ch);
                    angle = angle + 1;
                } else if ch == '>' {
                    current.push(ch);
                    angle = if angle > 0 {
                        angle - 1
                    } else {
                        0
                    };
                } else if ch == delimiter && paren == 0 && brace == 0 && bracket == 0 && angle
                    == 0 {
                    let done = current;
                    parts.push(done);
                    current = Vec::new();
                    assert(parts@.map_values(|v: Vec<char>| v@) =~= prev_parts.map_values(
                        |v: Vec<char>| v@,
                    ).push(done@));
                    assert(current@ =~= seq![]);
                } else {
                    current.push(ch);
                }
            },
        }
        i = i + 1;
    }
    assert(text@.subrange(0, text@.len() as int) =~= text@);
    let ghost before = parts@;
    parts.push(current);
    assert(parts@.map_values(|v: Vec<char>| v@) =~= before.map_values(|v: Vec<char>| v@).push(
        current@,
    ));
    parts
}


/// The views of lists of characters.
pub open spec fn char_views(v: Seq<Vec<char>>) -> Seq<Seq<char>> {
    v.map_values(|c: Vec<char>| c@)
}

/// Text that spells a literal type: a quoted string, `true`, `false`,
/// `nil`, or only digits, `.`, `-` and `_` (the empty text included).
pub open spec fn literal_text(text: Seq<char>) -> bool {
    let t = trim(text);
    ||| (has_prefix(t, seq!['"']) && has_suffix(t, seq!['"']))
    ||| (has_prefix(t, seq!['\'']) && has_suffix(t, seq!['\'']))
    ||| t == "true"@
    ||| t == "false"@
    ||| t == "nil"@
    ||| (forall|i: int|
        0 <= i < t.len() ==> ('0' <= #[trigger] t[i] && t[i] <= '9') || t[i] == '.' || t[i]
            == '-' || t[i] == '_')
}

/// Whether two character lists are equal.
pub fn chars_eq(a: &[char], b: &[char]) -> (r: bool)
    ensures
        r == (a@ == b@),
{
    if a.len() != b.len() {
        return false;
    }
    let r = chars_have_prefix(a, b);
    proof {
        if r {
            assert(a@.subrange(0, b@.len() as int) =~= a@);
        } else if a@ == b@ {
            assert(a@.subrange(0, b@.len() as int) =~= a@);
        }
    }
    r
}

/// Whether every character is a digit, `.`, `-` or `_`.
fn all_number_chars(t: &[char]) -> (r: bool)
    ensures
        r == (forall|i: int|
            0 <= i < t@.len() ==> ('0' <= #[trigger] t@[i] && t@[i] <= '9') || t@[i] == '.'
                || t@[i] == '-' || t@[i] == '_'),
{
    let mut i: usize = 0;
    while i < t.len()
        invariant
            i <= t@.len(),
            forall|k: int|
                0 <= k < i ==> ('0' <= #[trigger] t@[k] && t@[k] <= '9') || t@[k] == '.' || t@[k]
                    == '-' || t@[k] == '_',
        decreases t.len() - i,
    {
        let c = t[i];
        if !(('0' <= c && c <= '9') || c == '.' || c == '-' || c == '_') {
            return false;
        }
        i = i + 1;
    }
    true
}

/// Whether `text` spells a literal type.
pub fn is_literal_text(text: &[char]) -> (r: bool)
    ensures
        r == literal_text(text@),
{
    let t = trim_chars(text);
    let n = t.len();
    let quoted = n > 0 && ((t[0] == '"' && t[n - 1] == '"') || (t[0] == '\'' && t[n - 1] == '\''));
    proof {
        crate::text::lemma_prefix_char(t@, '"');
        crate::text::lemma_suffix_char(t@, '"');
        crate::text::lemma_prefix_char(t@, '\'');
        crate::text::lemma_suffix_char(t@, '\'');
    }
    let tv = chars_of("true");
    let fv = chars_of("false");
    let nv = chars_of("nil");
    quoted || chars_eq(t.as_slice(), tv.as_slice()) || chars_eq(t.as_slice(), fv.as_slice())
        || chars_eq(t.as_slice(), nv.as_slice()) || all_number_chars(t.as_slice())
}

/// The values of a union of literal types, when `rhs` is one of two or
/// more members.
pub open spec fn literal_union(rhs: Seq<char>) -> Option<Seq<Seq<char>>> {
    let parts = split_top(rhs, '|');
    if parts.len() < 2 {
        None
    } else if forall|i: int| 0 <= i < parts.len() ==> literal_text(#[trigger] parts[i]) {
        Some(parts.map_values(|p: Seq<char>| trim(p)))
    } else {
        None
    }
}

/// Reads a union of literal types.
pub fn parse_literal_union(rhs: &[char]) -> (r: Option<Vec<String>>)
    ensures
        r matches Some(v) ==> literal_union(rhs@) == Some(views(v@)),
        r is None ==> literal_union(rhs@) is None,
{
    let parts = split_top_level(rhs, '|');
    let ghost ps = split_top(rhs@, '|');
    assert(char_views(parts@) == ps);
    if parts.len() < 2 {
        return None;
    }
    let mut values: Vec<String> = Vec::new();
    let mut i: usize = 0;
    while i < parts.len()
        invariant
            i <= parts@.len(),
            char_views(parts@) == ps,
            ps == split_top(rhs@, '|'),
            ps.len() >= 2,
            forall|k: int| 0 <= k < i ==> literal_text(#[trigger] ps[k]),
            views(values@) == ps.subrange(0, i as int).map_values(|p: Seq<char>| trim(p)),
        decreases parts.len() - i,
    {
        assert(ps[i as int] == parts@[i as int]@);
        if !is_literal_text(parts[i].as_slice()) {
            assert(!literal_text(ps[i as int]));
            return None;
        }
        let piece = trim_chars(parts[i].as_slice());
        push_line(&mut values, string_from_chars(piece.as_slice()));
        i = i + 1;
        assert(views(values@) =~= ps.subrange(0, i as int).map_values(|p: Seq<char>| trim(p)));
    }
    assert(ps.subrange(0, ps.len() as int) =~= ps);
    Some(values)
}


/// The `key: literal` fields of the parts of a table type, later keys
/// replacing earlier ones; `None` when a non-empty part has no `:`.
pub open spec fn fields_scan(parts: Seq<Seq<char>>) -> Option<Seq<(Seq<char>, Seq<char>)>>
    decreases parts.len(),
{
    if parts.len() == 0 {
        Some(seq![])
    } else {
        match fields_scan(parts.drop_last()) {
            None => None,
            Some(fs) => {
                let piece = trim(parts.last());
                if piece.len() == 0 {
                    Some(fs)
                } else {
                    match find(piece, seq![':']) {
                        None => None,
                        Some(c) => {
                            let key = trim(piece.subrange(0, c));
                            let value = trim(piece.subrange(c + 1, piece.len() as int));
                            if literal_text(value) {
                                Some(assoc_put(fs, key, value))
                            } else {
                                Some(fs)
                            }
                        },
                    }
                }
            },
        }
    }
}

/// The literal-typed fields of a table type `{ ... }`, when it has some.
pub open spec fn table_literal_fields(text: Seq<char>) -> Option<Seq<(Seq<char>, Seq<char>)>> {
    let t = trim(text);
    if !(has_prefix(t, seq!['{']) && has_suffix(t, seq!['}'])) || t.len() < 2 {
        None
    } else {
        match fields_scan(split_top(t.subrange(1, t.len() - 1), ',')) {
            None => None,
            Some(fs) => if fs.len() == 0 {
                None
            } else {
                Some(fs)
            },
        }
    }
}

/// The index of the first entry for `key`.
fn find_key(fields: &Vec<(String, String)>, key: &String) -> (r: Option<usize>)
    ensures
        r matches Some(i) ==> assoc_index(pairs(fields@), key@) == Some(i as int) && i
            < fields@.len(),
        r is None ==> assoc_index(pairs(fields@), key@) is None,
{
    let ghost ps = pairs(fields@);
    let mut i: usize = 0;
    while i < fields.len()
        invariant
            i <= fields@.len(),
            ps == pairs(fields@),
            assoc_index(ps.subrange(0, i as int), key@) is None,
        decreases fields.len() - i,
    {
        assert(ps.subrange(0, i + 1).drop_last() =~= ps.subrange(0, i as int));
        if fields[i].0 == *key {
            proof {
                lemma_assoc_index_extend(ps, i as int + 1, key@);
            }
            return Some(i);
        }
        i = i + 1;
    }
    assert(ps.subrange(0, ps.len() as int) =~= ps);
    None
}

/// A key found in a prefix is found at the same place in the whole list.
proof fn lemma_assoc_index_extend(s: Seq<(Seq<char>, Seq<char>)>, n: int, key: Seq<char>)
    requires
        0 <= n <= s.len(),
        assoc_index(s.subrange(0, n), key) is Some,
    ensures
        assoc_index(s, key) == assoc_index(s.subrange(0, n), key),
    decreases s.len(),
{
    if n < s.len() {
        assert(s.drop_last().subrange(0, n) =~= s.subrange(0, n));
        lemma_assoc_index_extend(s.drop_last(), n, key);
    } else {
        assert(s.subrange(0, n) =~= s);
    }
}

/// Binds `key` to `value`, in place when it is already there.
fn put_field(fields: &mut Vec<(String, String)>, key: String, value: String)
    ensures
        pairs(final(fields)@) == assoc_put(pairs(old(fields)@), key@, value@),
{
    let ghost before = pairs(fields@);
    match find_key(fields, &key) {
        Some(i) => {
            fields.set(i, (key, value));
            assert(pairs(fields@) =~= before.update(i as int, (key@, value@)));
        },
        None => {
            fields.push((key, value));
            assert(pairs(fields@) =~= before.push((key@, value@)));
        },
    }
}

/// Reads the literal-typed fields of a table type.
pub fn parse_type_table_literal_fields(text: &[char]) -> (r: Option<Vec<(String, String)>>)
    ensures
        r matches Some(v) ==> table_literal_fields(text@) == Some(pairs(v@)),
        r is None ==> table_literal_fields(text@) is None,
{
    let t = trim_chars(text);
    let n = t.len();
    proof {
        crate::text::lemma_prefix_char(t@, '{');
        crate::text::lemma_suffix_char(t@, '}');
    }
    if !(n >= 2 && t[0] == '{' && t[n - 1] == '}') {
        return None;
    }
    let inner = sub_chars(t.as_slice(), 1, n - 1);
    let parts = split_top_level(inner.as_slice(), ',');
    let ghost ps = split_top(inner@, ',');
    assert(char_views(parts@) == ps);
    let mut fields: Vec<(String, String)> = Vec::new();
    let mut i: usize = 0;
    assert(pairs(fields@) =~= seq![]);
    while i < parts.len()
        invariant
            i <= parts@.len(),
            char_views(parts@) == ps,
            ps == split_top(trim(text@).subrange(1, trim(text@).len() - 1), ','),
            trim(text@).len() >= 2,
            has_prefix(trim(text@), seq!['{']),
            has_suffix(trim(text@), seq!['}']),
            fields_scan(ps.subrange(0, i as int)) == Some(pairs(fields@)),
        decreases parts.len() - i,
    {
        assert(ps.subrange(0, i + 1).drop_last() =~= ps.subrange(0, i as int));
        assert(ps[i as int] == parts@[i as int]@);
        let piece = trim_chars(parts[i].as_slice());
        if piece.len() > 0 {
            let colon_mark = vec![':'];
            assert(colon_mark@ =~= seq![':']);
            let c = match find_chars(piece.as_slice(), colon_mark.as_slice()) {
                None => {
                    proof {
                        assert(fields_scan(ps.subrange(0, i + 1)) is None);
                        lemma_fields_scan_none(ps, i as int + 1);
                    }
                    return None;
                },
                Some(c) => c,
            };
            let key_chars = sub_chars(piece.as_slice(), 0, c);
            let value_chars = sub_chars(piece.as_slice(), c + 1, piece.len());
            let key_t = trim_chars(key_chars.as_slice());
            let value_t = trim_chars(value_chars.as_slice());
            if is_literal_text(value_t.as_slice()) {
                put_field(
                    &mut fields,
                    string_from_chars(key_t.as_slice()),
                    string_from_chars(value_t.as_slice()),
                );
            }
        }
        i = i + 1;
    }
    assert(ps.subrange(0, ps.len() as int) =~= ps);
    if fields.len() == 0 {
        None
    } else {
        Some(fields)
    }
}

/// Once the field scan fails it stays failed.
proof fn lemma_fields_scan_none(ps: Seq<Seq<char>>, n: int)
    requires
        0 <= n <= ps.len(),
        fields_scan(ps.subrange(0, n)) is None,
    ensures
        fields_scan(ps) is None,
    decreases ps.len(),
{
    if n < ps.len() {
        assert(ps.drop_last().subrange(0, n) =~= ps.subrange(0, n));
        lemma_fields_scan_none(ps.drop_last(), n);
    } else {
        assert(ps.subrange(0, n) =~= ps);
    }
}


/// The literal fields of each part, when every part is a table type with
/// some.
pub open spec fn all_tables(parts: Seq<Seq<char>>) -> Option<Seq<Seq<(Seq<char>, Seq<char>)>>>
    decreases parts.len(),
{
    if parts.len() == 0 {
        Some(seq![])
    } else {
        match all_tables(parts.drop_last()) {
            None => None,
            Some(ts) => match table_literal_fields(trim(parts.last())) {
                None => None,
                Some(fs) => Some(ts.push(fs)),
            },
        }
    }
}

/// The value of `key` in every table, when every table has it.
pub open spec fn values_for(tables: Seq<Seq<(Seq<char>, Seq<char>)>>, key: Seq<char>) -> Option<
    Seq<Seq<char>>,
>
    decreases tables.len(),
{
    if tables.len() == 0 {
        Some(seq![])
    } else {
        match values_for(tables.drop_last(), key) {
            None => None,
            Some(vs) => match assoc_get(tables.last(), key) {
                None => None,
                Some(v) => Some(vs.push(v)),
            },
        }
    }
}

/// The first field of the first table, from its `k`-th on, that every
/// table has, with its value in each.
pub open spec fn first_common_field(tables: Seq<Seq<(Seq<char>, Seq<char>)>>, k: int) -> Option<
    (Seq<char>, Seq<Seq<char>>),
>
    decreases tables[0].len() - k,
{
    if tables.len() == 0 || k < 0 || k >= tables[0].len() {
        None
    } else {
        match values_for(tables, tables[0][k].0) {
            Some(vs) => Some((tables[0][k].0, vs)),
            None => first_common_field(tables, k + 1),
        }
    }
}

/// A union of two or more table types that share a literal-typed field:
/// the field, and its value in each member.
pub open spec fn discriminated_union(rhs: Seq<char>) -> Option<(Seq<char>, Seq<Seq<char>>)> {
    let parts = split_top(rhs, '|');
    if parts.len() < 2 {
        None
    } else {
        match all_tables(parts) {
            None => None,
            Some(ts) => first_common_field(ts, 0),
        }
    }
}

/// The value of the last entry for `key`.
fn lookup_field(fields: &Vec<(String, String)>, key: &String) -> (r: Option<String>)
    ensures
        r matches Some(v) ==> assoc_get(pairs(fields@), key@) == Some(v@),
        r is None ==> assoc_get(pairs(fields@), key@) is None,
{
    let ghost ps = pairs(fields@);
    let mut i: usize = fields.len();
    assert(ps.subrange(0, ps.len() as int) =~= ps);
    while i > 0
        invariant
            i <= fields@.len(),
            ps == pairs(fields@),
            assoc_get(ps, key@) == assoc_get(ps.subrange(0, i as int), key@),
        decreases i,
    {
        assert(ps.subrange(0, i as int).drop_last() =~= ps.subrange(0, i - 1));
        if fields[i - 1].0 == *key {
            return Some(fields[i - 1].1.clone());
        }
        i = i - 1;
    }
    None
}

/// The views of a list of field lists.
pub open spec fn table_views(v: Seq<Vec<(String, String)>>) -> Seq<Seq<(Seq<char>, Seq<char>)>> {
    v.map_values(|t: Vec<(String, String)>| pairs(t@))
}

/// The value of `key` in every table.
fn collect_values(tables: &Vec<Vec<(String, String)>>, key: &String) -> (r: Option<Vec<String>>)
    ensures
        r matches Some(v) ==> values_for(table_views(tables@), key@) == Some(views(v@)),
        r is None ==> values_for(table_views(tables@), key@) is None,
{
    let ghost ts = table_views(tables@);
    let mut values: Vec<String> = Vec::new();
    let mut i: usize = 0;
    assert(views(values@) =~= seq![]);
    while i < tables.len()
        invariant
            i <= tables@.len(),
            ts == table_views(tables@),
            values_for(ts.subrange(0, i as int), key@) == Some(views(values@)),
        decreases tables.len() - i,
    {
        assert(ts.subrange(0, i + 1).drop_last() =~= ts.subrange(0, i as int));
        assert(ts[i as int] == pairs(tables@[i as int]@));
        match lookup_field(&tables[i], key) {
            None => {
                proof {
                    lemma_values_for_none(ts, i as int + 1, key@);
                }
                return None;
            },
            Some(v) => push_line(&mut values, v),
        }
        i = i + 1;
    }
    assert(ts.subrange(0, ts.len() as int) =~= ts);
    Some(values)
}

proof fn lemma_values_for_none(ts: Seq<Seq<(Seq<char>, Seq<char>)>>, n: int, key: Seq<char>)
    requires
        0 <= n <= ts.len(),
        values_for(ts.subrange(0, n), key) is None,
    ensures
        values_for(ts, key) is None,
    decreases ts.len(),
{
    if n < ts.len() {
        assert(ts.drop_last().subrange(0, n) =~= ts.subrange(0, n));
        lemma_values_for_none(ts.drop_last(), n, key);
    } else {
        assert(ts.subrange(0, n) =~= ts);
    }
}

proof fn lemma_all_tables_none(ps: Seq<Seq<char>>, n: int)
    requires
        0 <= n <= ps.len(),
        all_tables(ps.subrange(0, n)) is None,
    ensures
        all_tables(ps) is None,
    decreases ps.len(),
{
    if n < ps.len() {
        assert(ps.drop_last().subrange(0, n) =~= ps.subrange(0, n));
        lemma_all_tables_none(ps.drop_last(), n);
    } else {
        assert(ps.subrange(0, n) =~= ps);
    }
}

/// Reads a union of table types with a shared literal-typed field.
pub fn parse_discriminated_union(rhs: &[char]) -> (r: Option<(String, Vec<String>)>)
    ensures
        r matches Some((f, v)) ==> discriminated_union(rhs@) == Some((f@, views(v@))),
        r is None ==> discriminated_union(rhs@) is None,
{
    let parts = split_top_level(rhs, '|');
    let ghost ps = split_top(rhs@, '|');
    assert(char_views(parts@) == ps);
    if parts.len() < 2 {
        return None;
    }
    let mut tables: Vec<Vec<(String, String)>> = Vec::new();
    let mut i: usize = 0;
    assert(table_views(tables@) =~= seq![]);
    while i < parts.len()
        invariant
            i <= parts@.len(),
            char_views(parts@) == ps,
            ps == split_top(rhs@, '|'),
            ps.len() >= 2,
            tables@.len() == i,
            all_tables(ps.subrange(0, i as int)) == Some(table_views(tables@)),
        decreases parts.len() - i,
    {
        assert(ps.subrange(0, i + 1).drop_last() =~= ps.subrange(0, i as int));
        assert(ps[i as int] == parts@[i as int]@);
        let piece = trim_chars(parts[i].as_slice());
        match parse_type_table_literal_fields(piece.as_slice()) {
            None => {
                proof {
                    lemma_all_tables_none(ps, i as int + 1);
                }
                return None;
            },
            Some(fields) => {
                let ghost before = tables@;
                tables.push(fields);
                assert(table_views(tables@) =~= table_views(before).push(pairs(fields@)));
            },
        }
        i = i + 1;
    }
    assert(ps.subrange(0, ps.len() as int) =~= ps);
    let ghost ts = table_views(tables@);
    assert(ts.len() >= 2);
    let first_len = tables[0].len();
    let mut k: usize = 0;
    assert(ts[0] == pairs(tables@[0]@));
    while k < first_len
        invariant
            k <= first_len,
            first_len == tables@[0]@.len(),
            ts == table_views(tables@),
            ts.len() >= 2,
            ts[0] == pairs(tables@[0]@),
            discriminated_union(rhs@) == first_common_field(ts, k as int),
        decreases first_len - k,
    {
        let key = tables[0][k].0.clone();
        assert(ts[0][k as int].0 == key@);
        match collect_values(&tables, &key) {
            Some(values) => {
                return Some((key, values));
            },
            None => {},
        }
        k = k + 1;
    }
    assert(first_common_field(ts, k as int) is None);
    None
}

/// The name and right side of a `type` or `export type` alias: the name
/// taken before `=`, cut at `<` and trimmed, the right side trimmed.
pub open spec fn alias_split(raw: Seq<char>) -> Option<(Seq<char>, Seq<char>)> {
    let t = trim(raw);
    let decl = if has_prefix(t, "export "@) {
        t.subrange("export "@.len() as int, t.len() as int)
    } else {
        t
    };
    if !has_prefix(decl, "type "@) {
        None
    } else {
        let rest = decl.subrange("type "@.len() as int, decl.len() as int);
        match find(rest, seq!['=']) {
            None => None,
            Some(eq) => {
                let head = trim(rest.subrange(0, eq));
                let name = match find(head, seq!['<']) {
                    Some(k) => head.subrange(0, k),
                    None => head,
                };
                Some((trim(name), trim(rest.subrange(eq + 1, rest.len() as int))))
            },
        }
    }
}

/// Strips `prefix` from the start of `s` when it is there.
fn strip_prefix_chars(s: &[char], prefix: &str) -> (r: Option<Vec<char>>)
    ensures
        r matches Some(v) ==> has_prefix(s@, prefix@) && v@ == s@.subrange(
            prefix@.len() as int,
            s@.len() as int,
        ),
        r is None ==> !has_prefix(s@, prefix@),
{
    let p = chars_of(prefix);
    if chars_have_prefix(s, p.as_slice()) {
        Some(sub_chars(s, p.len(), s.len()))
    } else {
        None
    }
}

/// Splits a type alias statement into its name and right side.
pub fn split_type_alias(raw: &str) -> (r: Option<(Vec<char>, Vec<char>)>)
    ensures
        r matches Some((n, rhs)) ==> alias_split(raw@) == Some((n@, rhs@)),
        r is None ==> alias_split(raw@) is None,
{
    let rc = chars_of(raw);
    let t = trim_chars(rc.as_slice());
    let decl = match strip_prefix_chars(t.as_slice(), "export ") {
        Some(d) => d,
        None => t,
    };
    let rest = match strip_prefix_chars(decl.as_slice(), "type ") {
        Some(r) => r,
        None => return None,
    };
    let eq_mark = vec!['='];
    assert(eq_mark@ =~= seq!['=']);
    let eq = match find_chars(rest.as_slice(), eq_mark.as_slice()) {
        Some(e) => e,
        None => return None,
    };
    let head_raw = sub_chars(rest.as_slice(), 0, eq);
    let head = trim_chars(head_raw.as_slice());
    let lt_mark = vec!['<'];
    assert(lt_mark@ =~= seq!['<']);
    let name_raw = match find_chars(head.as_slice(), lt_mark.as_slice()) {
        Some(k) => sub_chars(head.as_slice(), 0, k),
        None => head,
    };
    let name = trim_chars(name_raw.as_slice());
    let rl = rest.len();
    assert(eq + 1 <= rl);
    let rhs_raw = sub_chars(rest.as_slice(), eq + 1, rl);
    let rhs = trim_chars(rhs_raw.as_slice());
    Some((name, rhs))
}

/// The shape a type alias declares, when it is a literal union or a
/// discriminated union of table types.
pub open spec fn alias_shape(raw: Seq<char>) -> Option<(Seq<char>, ShapeView)> {
    match alias_split(raw) {
        None => None,
        Some((name, rhs)) => match literal_union(rhs) {
            Some(vs) => Some((name, ShapeView::LiteralUnion(vs))),
            None => match discriminated_union(rhs) {
                Some((field, variants)) => Some(
                    (name, ShapeView::DiscriminatedUnion { field, variants }),
                ),
                None => None,
            },
        },
    }
}

/// Reads the shape that a type alias declares.
pub fn parse_type_alias_shape(raw: &str) -> (r: Option<(String, TypeShape)>)
    ensures
        r matches Some((n, shape)) ==> alias_shape(raw@) == Some((n@, shape@)),
        r is None ==> alias_shape(raw@) is None,
{
    let (name, rhs) = match split_type_alias(raw) {
        Some(p) => p,
        None => return None,
    };
    let name_string = string_from_chars(name.as_slice());
    if let Some(values) = parse_literal_union(rhs.as_slice()) {
        return Some((name_string, TypeShape::LiteralUnion(values)));
    }
    if let Some((field, variants)) = parse_discriminated_union(rhs.as_slice()) {
        return Some((name_string, TypeShape::DiscriminatedUnion { field, variants }));
    }
    None
}


/// The key text of a case value: a literal, or a member of a known enum
/// written `Enum.Member`.
pub open spec fn expr_key_in(defs: Seq<(Seq<char>, ShapeView)>, e: Expr) -> Option<Seq<char>> {
    match literal_key_of(e) {
        Some(k) => Some(k),
        None => match e {
            Expr::Chain { base, segments } => match *base {
                Expr::Name(root) => if segments@.len() == 1 {
                    match segments@[0] {
                        ChainSegment::Field { name, safe } => if !safe {
                            match assoc_get(defs, root@) {
                                Some(ShapeView::Enum { members, .. }) => assoc_get(members, name@),
                                _ => None,
                            }
                        } else {
                            None
                        },
                        _ => None,
                    }
                } else {
                    None
                },
                _ => None,
            },
            _ => None,
        },
    }
}

/// The type name at the start of an annotation: its leading identifier
/// characters, when there are some.
pub open spec fn annotation_type(annotation: Seq<char>) -> Option<Seq<char>> {
    let t = trim(annotation);
    if t.len() == 0 || leading_ident(t).len() == 0 {
        None
    } else {
        Some(leading_ident(t))
    }
}

/// The type name bound to `name` in the innermost scope that binds it.
pub open spec fn scopes_lookup(scopes: Seq<Seq<(Seq<char>, Seq<char>)>>, name: Seq<char>) -> Option<
    Seq<char>,
>
    decreases scopes.len(),
{
    if scopes.len() == 0 {
        None
    } else {
        match assoc_get(scopes.last(), name) {
            Some(t) => Some(t),
            None => scopes_lookup(scopes.drop_last(), name),
        }
    }
}

/// The shape of the type of a switch or match subject: a name with a
/// declared type, or a type assertion.
pub open spec fn infer_type(st: EmitState, e: Expr) -> Option<ShapeView> {
    let owned = match e {
        Expr::Name(n) => Some(n@),
        Expr::TypeAssertion { annotation, .. } => annotation_type(annotation@),
        _ => None,
    };
    match owned {
        None => None,
        Some(n) => match scopes_lookup(st.types, n) {
            Some(t) => assoc_get(st.defs, t),
            None => assoc_get(st.defs, n),
        },
    }
}

/// The values of `expected` that `seen` lacks, in order.
pub open spec fn missing_from(expected: Seq<Seq<char>>, seen: Seq<Seq<char>>) -> Seq<Seq<char>>
    decreases expected.len(),
{
    if expected.len() == 0 {
        seq![]
    } else {
        let rest = missing_from(expected.drop_last(), seen);
        if seen.contains(expected.last()) {
            rest
        } else {
            rest.push(expected.last())
        }
    }
}

/// The keys of the case values that have one.
pub open spec fn case_keys(defs: Seq<(Seq<char>, ShapeView)>, cases: Seq<SwitchCase>) -> Seq<
    Seq<char>,
>
    decreases cases.len(),
{
    if cases.len() == 0 {
        seq![]
    } else {
        match expr_key_in(defs, cases.last().value) {
            Some(k) => case_keys(defs, cases.drop_last()).push(k),
            None => case_keys(defs, cases.drop_last()),
        }
    }
}

/// The state after checking that a `switch` without `default` over a
/// literal union or an enum covers every value.
pub open spec fn switch_checked(st: EmitState, sw: SwitchStmt) -> EmitState {
    if sw.default is Some {
        st
    } else {
        let expected = match infer_type(st, sw.value) {
            Some(ShapeView::LiteralUnion(vs)) => Some(vs),
            Some(ShapeView::Enum { values, .. }) => Some(values),
            _ => None,
        };
        match expected {
            None => st,
            Some(vs) => {
                let missing = missing_from(vs, case_keys(st.defs, sw.cases@));
                if missing.len() > 0 {
                    st.fail("non-exhaustive switch is missing: "@ + join(missing, ", "@))
                } else {
                    st
                }
            },
        }
    }
}

/// The value that a `match` arm's table pattern gives to `field`, when it
/// gives a literal or enum member.
pub open spec fn case_variant(defs: Seq<(Seq<char>, ShapeView)>, p: MatchPattern, field: Seq<char>) -> Option<
    Seq<char>,
> {
    match p {
        MatchPattern::Table(fields) => match first_field(fields@, field) {
            Some(entry) => match entry.pattern {
                MatchPattern::Literal(e) => expr_key_in(defs, e),
                _ => None,
            },
            None => None,
        },
        _ => None,
    }
}

/// The first field pattern for `key`.
pub open spec fn first_field(fs: Seq<MatchFieldPattern>, key: Seq<char>) -> Option<MatchFieldPattern>
    decreases fs.len(),
{
    if fs.len() == 0 {
        None
    } else {
        match first_field(fs.drop_last(), key) {
            Some(f) => Some(f),
            None => if fs.last().key@ == key {
                Some(fs.last())
            } else {
                None
            },
        }
    }
}

/// The variants that the unguarded arms of a `match` name.
pub open spec fn arm_variants(defs: Seq<(Seq<char>, ShapeView)>, cases: Seq<MatchCase>, field: Seq<char>) -> Seq<
    Seq<char>,
>
    decreases cases.len(),
{
    if cases.len() == 0 {
        seq![]
    } else {
        let rest = arm_variants(defs, cases.drop_last(), field);
        if cases.last().guard is Some {
            rest
        } else {
            match case_variant(defs, cases.last().pattern, field) {
                Some(v) => rest.push(v),
                None => rest,
            }
        }
    }
}

/// The state after checking that a `match` over a discriminated union
/// covers every variant.
pub open spec fn match_checked(st: EmitState, m: MatchStmt) -> EmitState {
    match infer_type(st, m.value) {
        Some(ShapeView::DiscriminatedUnion { field, variants }) => {
            let missing = missing_from(variants, arm_variants(st.defs, m.cases@, field));
            if missing.len() > 0 {
                st.fail(
                    "non-exhaustive match is missing variants for `"@ + field + "`: "@ + join(
                        missing,
                        ", "@,
                    ),
                )
            } else {
                st
            }
        },
        _ => st,
    }
}

/// Whether an enum declares `number` as its base type.
pub open spec fn number_backed(base: Option<String>) -> bool {
    match base {
        Some(b) => trim(b@) == "number"@,
        None => false,
    }
}

/// Whether an enum's base type is `number`.
pub fn is_number_backed(base: &Option<String>) -> (r: bool)
    ensures
        r == number_backed(*base),
{
    match base {
        Some(b) => {
            let bc = chars_of(b.as_str());
            let t = trim_chars(bc.as_slice());
            let nc = chars_of("number");
            chars_eq(t.as_slice(), nc.as_slice())
        },
        None => false,
    }
}

/// The value of each member of an enum and the list of member names and
/// values: an explicit value by its key (the empty text if it has none),
/// otherwise `0` for a number-backed enum and the quoted name for others.
pub open spec fn enum_entries(
    defs: Seq<(Seq<char>, ShapeView)>,
    members: Seq<EnumMember>,
    numeric: bool,
) -> (Seq<Seq<char>>, Seq<(Seq<char>, Seq<char>)>)
    decreases members.len(),
{
    if members.len() == 0 {
        (seq![], seq![])
    } else {
        let (values, pairs) = enum_entries(defs, members.drop_last(), numeric);
        let m = members.last();
        let value = match m.value {
            Some(v) => match expr_key_in(defs, v) {
                Some(k) => k,
                None => seq![],
            },
            None => if numeric {
                "0"@
            } else {
                seq!['"'] + m.name@ + seq!['"']
            },
        };
        (values.push(value), pairs.push((m.name@, value)))
    }
}

/// The state after registering an enum's shape.
pub open spec fn enum_registered(st: EmitState, decl: EnumDecl) -> EmitState {
    let (values, members) = enum_entries(st.defs, decl.members@, number_backed(decl.base_type));
    EmitState {
        defs: st.defs.push((decl.name@, ShapeView::Enum { values, members })),
        ..st
    }
}

/// The state after registering the shape a type alias declares.
pub open spec fn alias_registered(st: EmitState, raw: Seq<char>) -> EmitState {
    match alias_shape(raw) {
        Some((name, shape)) => EmitState { defs: st.defs.push((name, shape)), ..st },
        None => st,
    }
}

/// The state after recording `type_name` as the type of the names that a
/// pattern binds.
pub open spec fn pattern_typed(st: EmitState, p: Pattern, annotation: Option<String>) -> EmitState {
    match annotation {
        None => st,
        Some(a) => match annotation_type(a@) {
            None => st,
            Some(t) => if st.types.len() == 0 {
                st
            } else {
                EmitState {
                    types: st.types.update(
                        st.types.len() - 1,
                        st.types.last() + typed_names(pattern_names_of(p), t),
                    ),
                    ..st
                }
            },
        },
    }
}

/// Each name paired with `t`.
pub open spec fn typed_names(names: Seq<Seq<char>>, t: Seq<char>) -> Seq<(Seq<char>, Seq<char>)> {
    names.map_values(|n: Seq<char>| (n, t))
}

/// The state after declaring the names of a parameter list (none of them
/// constant, so they shadow constants outside) and recording their
/// declared types.
pub open spec fn params_typed(st: EmitState, ps: Seq<Param>) -> EmitState
    decreases ps.len(),
{
    if ps.len() == 0 {
        st
    } else {
        let st1 = params_typed(st, ps.drop_last());
        match ps.last() {
            Param::Binding(b) => pattern_typed(
                crate::emitter::lowering::declare_all(
                    st1,
                    crate::emitter::names::pattern_names_of(b.pattern),
                    false,
                ),
                b.pattern,
                b.type_annotation,
            ),
            Param::VarArg(_) => st1,
        }
    }
}

/// The leading type name of an annotation.
fn annotation_type_name(annotation: &str) -> (r: Option<String>)
    ensures
        r matches Some(n) ==> annotation_type(annotation@) == Some(n@),
        r is None ==> annotation_type(annotation@) is None,
{
    let ac = chars_of(annotation);
    let t = trim_chars(ac.as_slice());
    if t.len() == 0 {
        return None;
    }
    let mut end: usize = 0;
    assert(t@.subrange(0, t@.len() as int) =~= t@);
    while end < t.len() && (('a' <= t[end] && t[end] <= 'z') || ('A' <= t[end] && t[end] <= 'Z')
        || ('0' <= t[end] && t[end] <= '9') || t[end] == '_')
        invariant
            end <= t@.len(),
            leading_ident(t@) == t@.subrange(0, end as int) + leading_ident(
                t@.subrange(end as int, t@.len() as int),
            ),
        decreases t.len() - end,
    {
        assert(t@.subrange(end as int, t@.len() as int).drop_first() =~= t@.subrange(
            end + 1,
            t@.len() as int,
        ));
        end = end + 1;
        assert(leading_ident(t@) =~= t@.subrange(0, end as int) + leading_ident(
            t@.subrange(end as int, t@.len() as int),
        ));
    }
    assert(leading_ident(t@.subrange(end as int, t@.len() as int)) =~= seq![]);
    assert(t@.subrange(0, end as int) + seq![] =~= t@.subrange(0, end as int));
    if end == 0 {
        return None;
    }
    Some(string_from_chars(sub_chars(t.as_slice(), 0, end).as_slice()))
}

/// Whether `seen` holds `v`.
fn contains_string(seen: &Vec<String>, v: &String) -> (r: bool)
    ensures
        r == views(seen@).contains(v@),
{
    let mut i: usize = 0;
    while i < seen.len()
        invariant
            i <= seen@.len(),
            forall|k: int| 0 <= k < i ==> views(seen@)[k] != v@,
        decreases seen.len() - i,
    {
        assert(views(seen@)[i as int] == seen@[i as int]@);
        if seen[i] == *v {
            assert(views(seen@)[i as int] == v@);
            return true;
        }
        i = i + 1;
    }
    false
}

/// The values of `expected` that `seen` lacks.
fn missing_values(expected: &Vec<String>, seen: &Vec<String>) -> (r: Vec<String>)
    ensures
        views(r@) == missing_from(views(expected@), views(seen@)),
{
    let ghost ev = views(expected@);
    let mut missing: Vec<String> = Vec::new();
    let mut i: usize = 0;
    assert(views(missing@) =~= seq![]);
    while i < expected.len()
        invariant
            i <= expected@.len(),
            ev == views(expected@),
            views(missing@) == missing_from(ev.subrange(0, i as int), views(seen@)),
        decreases expected.len() - i,
    {
        assert(ev.subrange(0, i + 1).drop_last() =~= ev.subrange(0, i as int));
        assert(ev[i as int] == expected@[i as int]@);
        if !contains_string(seen, &expected[i]) {
            push_line(&mut missing, expected[i].clone());
        }
        i = i + 1;
    }
    assert(ev.subrange(0, ev.len() as int) =~= ev);
    missing
}

impl Emitter {
    /// The shape registered last under `name`.
    pub(crate) fn lookup_def(&self, name: &String) -> (r: Option<&TypeShape>)
        ensures
            r matches Some(s) ==> assoc_get(self.model().defs, name@) == Some(s@),
            r is None ==> assoc_get(self.model().defs, name@) is None,
    {
        let ghost ds = self.model().defs;
        let mut i: usize = self.type_defs.len();
        assert(ds.subrange(0, ds.len() as int) =~= ds);
        while i > 0
            invariant
                i <= self.type_defs@.len(),
                ds == self.model().defs,
                assoc_get(ds, name@) == assoc_get(ds.subrange(0, i as int), name@),
            decreases i,
        {
            assert(ds.subrange(0, i as int).drop_last() =~= ds.subrange(0, i - 1));
            assert(ds[i - 1] == (self.type_defs@[i - 1].0@, self.type_defs@[i - 1].1@));
            if self.type_defs[i - 1].0 == *name {
                return Some(&self.type_defs[i - 1].1);
            }
            i = i - 1;
        }
        None
    }

    /// The key text of a case value.
    pub(crate) fn expr_key(&self, expr: &Expr) -> (r: Option<String>)
        ensures
            r matches Some(k) ==> expr_key_in(self.model().defs, *expr) == Some(k@),
            r is None ==> expr_key_in(self.model().defs, *expr) is None,
    {
        if let Some(literal) = literal_key(expr) {
            return Some(literal);
        }
        if let Expr::Chain { base, segments } = expr {
            if let Expr::Name(root) = &**base {
                if segments.len() == 1 {
                    if let ChainSegment::Field { name, safe } = &segments[0] {
                        if !*safe {
                            if let Some(TypeShape::Enum { members, .. }) = self.lookup_def(root) {
                                return lookup_field(members, name);
                            }
                        }
                    }
                }
            }
        }
        None
    }

    /// The innermost declared type name of `name`.
    pub(crate) fn lookup_type_name(&self, name: &String) -> (r: Option<String>)
        ensures
            r matches Some(t) ==> scopes_lookup(self.model().types, name@) == Some(t@),
            r is None ==> scopes_lookup(self.model().types, name@) is None,
    {
        let ghost ts = self.model().types;
        let mut i: usize = self.type_scopes.len();
        assert(ts.subrange(0, ts.len() as int) =~= ts);
        while i > 0
            invariant
                i <= self.type_scopes@.len(),
                ts == self.model().types,
                scopes_lookup(ts, name@) == scopes_lookup(ts.subrange(0, i as int), name@),
            decreases i,
        {
            assert(ts.subrange(0, i as int).drop_last() =~= ts.subrange(0, i - 1));
            assert(ts[i - 1] == pairs(self.type_scopes@[i - 1]@));
            if let Some(t) = lookup_field(&self.type_scopes[i - 1], name) {
                return Some(t);
            }
            i = i - 1;
        }
        None
    }

    /// The shape of the type of a switch or match subject.
    pub(crate) fn infer_expr_type(&self, expr: &Expr) -> (r: Option<&TypeShape>)
        ensures
            r matches Some(s) ==> infer_type(self.model(), *expr) == Some(s@),
            r is None ==> infer_type(self.model(), *expr) is None,
    {
        let owned_name = match expr {
            Expr::Name(name) => name.clone(),
            Expr::TypeAssertion { annotation, .. } => match annotation_type_name(
                annotation.as_str(),
            ) {
                Some(n) => n,
                None => return None,
            },
            _ => return None,
        };
        match self.lookup_type_name(&owned_name) {
            Some(declared) => self.lookup_def(&declared),
            None => self.lookup_def(&owned_name),
        }
    }
}


impl Emitter {
    /// Registers the shape of an enum.
    pub(crate) fn register_enum_type(&mut self, decl: &EnumDecl)
        ensures
            final(self).model() == enum_registered(old(self).model(), *decl),
    {
        let ghost defs = self.model().defs;
        let numeric = is_number_backed(&decl.base_type);
        let mut values: Vec<String> = Vec::new();
        let mut members: Vec<(String, String)> = Vec::new();
        let mut i: usize = 0;
        assert(views(values@) =~= seq![]);
        assert(pairs(members@) =~= seq![]);
        while i < decl.members.len()
            invariant
                i <= decl.members@.len(),
                defs == self.model().defs,
                self.model() == old(self).model(),
                numeric == number_backed(decl.base_type),
                enum_entries(defs, decl.members@.subrange(0, i as int), numeric) == (
                    views(values@),
                    pairs(members@),
                ),
            decreases decl.members.len() - i,
        {
            assert(decl.members@.subrange(0, i + 1).drop_last() =~= decl.members@.subrange(
                0,
                i as int,
            ));
            let member = &decl.members[i];
            let value = match &member.value {
                Some(v) => match self.expr_key(v) {
                    Some(k) => k,
                    None => String::new(),
                },
                None => if numeric {
                    string_of("0")
                } else {
                    let mut q = String::new();
                    crate::text::push_char(&mut q, '"');
                    q.append(member.name.as_str());
                    crate::text::push_char(&mut q, '"');
                    assert(q@ =~= seq!['"'] + member.name@ + seq!['"']);
                    q
                },
            };
            proof {
                if member.value is Some {
                    if expr_key_in(defs, member.value->0) is None {
                        assert(value@ =~= seq![]);
                    }
                }
            }
            let ghost before_m = members@;
            members.push((member.name.clone(), value.clone()));
            assert(pairs(members@) =~= pairs(before_m).push((member.name@, value@)));
            push_line(&mut values, value);
            i = i + 1;
        }
        assert(decl.members@.subrange(0, decl.members@.len() as int) =~= decl.members@);
        let ghost before = self.type_defs@;
        self.type_defs.push((decl.name.clone(), TypeShape::Enum { values, members }));
        assert(self.model().defs =~= old(self).model().defs.push(
            (decl.name@, ShapeView::Enum { values: views(values@), members: pairs(members@) }),
        ));
    }

    /// Registers the shape that a type alias declares.
    pub(crate) fn register_type_alias(&mut self, raw: &str)
        ensures
            final(self).model() == alias_registered(old(self).model(), raw@),
    {
        if let Some((name, shape)) = parse_type_alias_shape(raw) {
            let ghost entry = (name@, shape@);
            self.type_defs.push((name, shape));
            assert(self.model().defs =~= old(self).model().defs.push(entry));
        }
    }

    /// Records the declared type of the names a pattern binds.
    pub(crate) fn declare_pattern_types(&mut self, pattern: &Pattern, annotation: &Option<String>)
        ensures
            final(self).model() == pattern_typed(old(self).model(), *pattern, *annotation),
    {
        let declared = match annotation {
            Some(a) => match annotation_type_name(a.as_str()) {
                Some(t) => t,
                None => return,
            },
            None => return,
        };
        let n = self.type_scopes.len();
        if n == 0 {
            return;
        }
        let names = pattern_names(pattern);
        let mut scope = self.type_scopes.pop().unwrap();
        let ghost start = pairs(scope@);
        let ghost tn = typed_names(views(names@), declared@);
        let mut i: usize = 0;
        while i < names.len()
            invariant
                i <= names@.len(),
                tn == typed_names(views(names@), declared@),
                pairs(scope@) == start + tn.subrange(0, i as int),
            decreases names.len() - i,
        {
            let ghost before = scope@;
            scope.push((names[i].clone(), declared.clone()));
            assert(pairs(scope@) =~= pairs(before).push((names@[i as int]@, declared@)));
            assert(tn[i as int] == (views(names@)[i as int], declared@));
            i = i + 1;
            assert(pairs(scope@) =~= start + tn.subrange(0, i as int));
        }
        assert(tn.subrange(0, names@.len() as int) =~= tn);
        self.type_scopes.push(scope);
        assert(self.model().types =~= old(self).model().types.update(
            n - 1,
            old(self).model().types.last() + tn,
        ));
    }

    /// Declares the names of a parameter list and records their types.
    pub(crate) fn declare_param_types(&mut self, params: &Vec<Param>)
        ensures
            final(self).model() == params_typed(old(self).model(), params@),
    {
        let mut i: usize = 0;
        while i < params.len()
            invariant
                i <= params@.len(),
                self.model() == params_typed(old(self).model(), params@.subrange(0, i as int)),
            decreases params.len() - i,
        {
            assert(params@.subrange(0, i + 1).drop_last() =~= params@.subrange(0, i as int));
            if let Param::Binding(binding) = &params[i] {
                self.declare_local_names(&binding.pattern, false);
                self.declare_pattern_types(&binding.pattern, &binding.type_annotation);
            }
            i = i + 1;
        }
        assert(params@.subrange(0, params@.len() as int) =~= params@);
    }

    /// Reports the values that a `switch` without `default` misses.
    pub(crate) fn check_switch_exhaustiveness(&mut self, switch_stmt: &SwitchStmt)
        ensures
            final(self).model() == switch_checked(old(self).model(), *switch_stmt),
    {
        if switch_stmt.default.is_some() {
            return;
        }
        let ghost st = self.model();
        let expected: Vec<String> = match self.infer_expr_type(&switch_stmt.value) {
            Some(TypeShape::LiteralUnion(values)) => clone_strings(values),
            Some(TypeShape::Enum { values, .. }) => clone_strings(values),
            _ => return,
        };
        let mut seen: Vec<String> = Vec::new();
        let mut i: usize = 0;
        assert(views(seen@) =~= seq![]);
        while i < switch_stmt.cases.len()
            invariant
                i <= switch_stmt.cases@.len(),
                self.model() == st,
                views(seen@) == case_keys(st.defs, switch_stmt.cases@.subrange(0, i as int)),
            decreases switch_stmt.cases.len() - i,
        {
            assert(switch_stmt.cases@.subrange(0, i + 1).drop_last()
                =~= switch_stmt.cases@.subrange(0, i as int));
            if let Some(value) = self.expr_key(&switch_stmt.cases[i].value) {
                push_line(&mut seen, value);
            }
            i = i + 1;
        }
        assert(switch_stmt.cases@.subrange(0, switch_stmt.cases@.len() as int)
            =~= switch_stmt.cases@);
        let missing = missing_values(&expected, &seen);
        if missing.len() > 0 {
            let listed = crate::text::join_strings(&missing, ", ");
            let message = crate::text::concat2("non-exhaustive switch is missing: ", listed.as_str());
            self.push_error(message);
        }
    }

    /// The value that a `match` arm's table pattern gives to `field`.
    pub(crate) fn match_case_variant(&self, pattern: &MatchPattern, field: &String) -> (r: Option<
        String,
    >)
        ensures
            r matches Some(v) ==> case_variant(self.model().defs, *pattern, field@) == Some(v@),
            r is None ==> case_variant(self.model().defs, *pattern, field@) is None,
    {
        let fields = match pattern {
            MatchPattern::Table(fields) => fields,
            _ => return None,
        };
        let mut i: usize = 0;
        while i < fields.len()
            invariant
                i <= fields@.len(),
                *pattern == MatchPattern::Table(*fields),
                first_field(fields@.subrange(0, i as int), field@) is None,
            decreases fields.len() - i,
        {
            assert(fields@.subrange(0, i + 1).drop_last() =~= fields@.subrange(0, i as int));
            if fields[i].key == *field {
                proof {
                    lemma_first_field_extend(fields@, i as int + 1, field@);
                }
                return match &fields[i].pattern {
                    MatchPattern::Literal(e) => self.expr_key(e),
                    _ => None,
                };
            }
            i = i + 1;
        }
        assert(fields@.subrange(0, fields@.len() as int) =~= fields@);
        None
    }

    /// Reports the variants of a discriminated union that a `match` misses.
    pub(crate) fn check_match_exhaustiveness(&mut self, match_stmt: &MatchStmt)
        ensures
            final(self).model() == match_checked(old(self).model(), *match_stmt),
    {
        let ghost st = self.model();
        let (field, variants) = match self.infer_expr_type(&match_stmt.value) {
            Some(TypeShape::DiscriminatedUnion { field, variants }) => (
                field.clone(),
                clone_strings(variants),
            ),
            _ => return,
        };
        let mut seen: Vec<String> = Vec::new();
        let mut i: usize = 0;
        assert(views(seen@) =~= seq![]);
        while i < match_stmt.cases.len()
            invariant
                i <= match_stmt.cases@.len(),
                self.model() == st,
                views(seen@) == arm_variants(
                    st.defs,
                    match_stmt.cases@.subrange(0, i as int),
                    field@,
                ),
            decreases match_stmt.cases.len() - i,
        {
            assert(match_stmt.cases@.subrange(0, i + 1).drop_last() =~= match_stmt.cases@.subrange(
                0,
                i as int,
            ));
            let case = &match_stmt.cases[i];
            if case.guard.is_none() {
                if let Some(v) = self.match_case_variant(&case.pattern, &field) {
                    push_line(&mut seen, v);
                }
            }
            i = i + 1;
        }
        assert(match_stmt.cases@.subrange(0, match_stmt.cases@.len() as int) =~= match_stmt.cases@);
        let missing = missing_values(&variants, &seen);
        if missing.len() > 0 {
            let listed = crate::text::join_strings(&missing, ", ");
            let mut message = crate::text::concat3(
                "non-exhaustive match is missing variants for `",
                field.as_str(),
                "`: ",
            );
            message.append(listed.as_str());
            self.push_error(message);
        }
    }
}

/// A field found in a prefix is the first in the whole list.
proof fn lemma_first_field_extend(fs: Seq<MatchFieldPattern>, n: int, key: Seq<char>)
    requires
        0 < n <= fs.len(),
        first_field(fs.subrange(0, n - 1), key) is None,
        fs[n - 1].key@ == key,
    ensures
        first_field(fs, key) == Some(fs[n - 1]),
    decreases fs.len(),
{
    if n < fs.len() {
        assert(fs.drop_last().subrange(0, n - 1) =~= fs.subrange(0, n - 1));
        lemma_first_field_extend(fs.drop_last(), n, key);
    } else {
        assert(fs.drop_last() =~= fs.subrange(0, n - 1));
    }
}

/// A copy of a list of strings.
pub fn clone_strings(v: &Vec<String>) -> (r: Vec<String>)
    ensures
        views(r@) == views(v@),
{
    let mut r: Vec<String> = Vec::new();
    let mut i: usize = 0;
    while i < v.len()
        invariant
            i <= v@.len(),
            views(r@) == views(v@).subrange(0, i as int),
        decreases v.len() - i,
    {
        push_line(&mut r, v[i].clone());
        i = i + 1;
        assert(views(r@) =~= views(v@).subrange(0, i as int));
    }
    assert(views(v@).subrange(0, v@.len() as int) =~= views(v@));
    r
}

} // verus!
