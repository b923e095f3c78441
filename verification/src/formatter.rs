//! Output formatting: the trailing newline of emitted Luau, and the
//! line-based re-indenter used for editor formatting.

use vstd::prelude::*;

use crate::compiler::Result;
use crate::text::{
    chars_have_prefix, chars_of, has_prefix, has_suffix, is_whitespace, is_ws, join, join_strings,
    lemma_suffix_char, line_scan, lines, lines_of, push_char, spaces, indent_string, strip_cr,
    string_from_chars, string_of, trim, trim_end, trim_end_chars, trim_start, trim_start_chars,
    trim_str, views, concat2,
};

verus! {

/// `s` ending in exactly the newlines it had, plus one if it had none.
pub open spec fn with_trailing_newline(s: Seq<char>) -> Seq<char> {
    if has_suffix(s, seq!['\n']) {
        s
    } else {
        s.push('\n')
    }
}

/// Whether `line` starts with the word `word`: the word is followed by the
/// end of the line, whitespace, `|` or `(`.
pub open spec fn begins_with_word(line: Seq<char>, word: Seq<char>) -> bool {
    &&& has_prefix(line, word)
    &&& (line.len() == word.len() || is_ws(line[word.len() as int]) || line[word.len() as int]
        == '|' || line[word.len() as int] == '(')
}

/// Lines that close the block above them and so move one level out.
pub open spec fn dedents_before(line: Seq<char>) -> bool {
    ||| begins_with_word(line, "end"@)
    ||| begins_with_word(line, "else"@)
    ||| begins_with_word(line, "elseif"@)
    ||| begins_with_word(line, "until"@)
    ||| begins_with_word(line, "case"@)
    ||| begins_with_word(line, "default"@)
    ||| begins_with_word(line, "then"@)
    ||| begins_with_word(line, "catch"@)
}

/// Lines after which the following lines move one level in.
pub open spec fn indents_after(line: Seq<char>) -> bool {
    let t = trim(line);
    if begins_with_word(t, "end"@) || begins_with_word(t, "until"@) || begins_with_word(
        t,
        "case"@,
    ) || begins_with_word(t, "default"@) || begins_with_word(t, "else"@) || begins_with_word(
        t,
        "elseif"@,
    ) || begins_with_word(t, "then"@) || begins_with_word(t, "catch"@) {
        begins_with_word(t, "case"@) || begins_with_word(t, "default"@) || begins_with_word(
            t,
            "else"@,
        ) || begins_with_word(t, "elseif"@) || begins_with_word(t, "then"@) || begins_with_word(
            t,
            "catch"@,
        )
    } else {
        ||| begins_with_word(t, "if"@)
        ||| begins_with_word(t, "switch"@)
        ||| begins_with_word(t, "match"@)
        ||| begins_with_word(t, "while"@)
        ||| begins_with_word(t, "for"@)
        ||| begins_with_word(t, "repeat"@)
        ||| begins_with_word(t, "function"@)
        ||| begins_with_word(t, "task function"@)
        ||| begins_with_word(t, "object"@)
        ||| begins_with_word(t, "enum"@)
        ||| begins_with_word(t, "do"@)
        ||| begins_with_word(t, "on"@)
        ||| begins_with_word(t, "once"@)
        ||| begins_with_word(t, "watch"@)
    }
}

/// The formatter's state after the lines `ls`: the lines written, the
/// current indentation level, and whether the last line read was blank.
pub open spec fn format_scan(ls: Seq<Seq<char>>) -> (Seq<Seq<char>>, nat, bool)
    decreases ls.len(),
{
    if ls.len() == 0 {
        (seq![], 0, false)
    } else {
        let (out, level, blank) = format_scan(ls.drop_last());
        let t = trim_start(trim_end(ls.last()));
        if t.len() == 0 {
            (if !blank && out.len() > 0 {
                out.push(seq![])
            } else {
                out
            }, level, true)
        } else {
            let level = if dedents_before(t) && level > 0 {
                (level - 1) as nat
            } else {
                level
            };
            let out = out.push(spaces(4 * level) + t);
            (out, if indents_after(t) {
                level + 1
            } else {
                level
            }, false)
        }
    }
}

/// The re-indented text of `source`: each non-blank line trimmed and
/// indented by four spaces per open block, runs of blank lines folded into
/// one, no blank line at the start, and a final newline.
pub open spec fn formatted(source: Seq<char>) -> Seq<char> {
    with_trailing_newline(join(format_scan(lines(source)).0, seq!['\n']))
}

/// The Luau text as emitted, ending in a newline.
pub fn format_luau(source: &str) -> (r: Result<String>)
    ensures
        r matches Ok(s) && s@ == with_trailing_newline(source@),
{
    Ok(ensure_trailing_newline(source))
}

/// `source` with a newline added unless it already ends with one.
fn ensure_trailing_newline(source: &str) -> (r: String)
    ensures
        r@ == with_trailing_newline(source@),
{
    let chars = chars_of(source);
    let n = chars.len();
    if n > 0 && chars[n - 1] == '\n' {
        assert(source@.subrange(n - 1, n as int) =~= seq!['\n']);
        string_of(source)
    } else {
        proof {
            if has_suffix(source@, seq!['\n']) {
                assert(source@.subrange(n - 1, n as int)[0] == source@[n - 1]);
            }
        }
        let mut r = string_of(source);
        push_char(&mut r, '\n');
        r
    }
}

/// Whether `line` starts with the word `prefix` (see `begins_with_word`).
fn starts_with_word(line: &str, prefix: &str) -> (b: bool)
    ensures
        b == begins_with_word(line@, prefix@),
{
    let lc = chars_of(line);
    let pc = chars_of(prefix);
    if !chars_have_prefix(lc.as_slice(), pc.as_slice()) {
        return false;
    }
    if lc.len() == pc.len() {
        return true;
    }
    let ch = lc[pc.len()];
    is_whitespace(ch) || ch == '|' || ch == '('
}

/// Whether `line` closes the block above it.
fn should_dedent_before(line: &str) -> (b: bool)
    ensures
        b == dedents_before(line@),
{
    starts_with_word(line, "end") || starts_with_word(line, "else") || starts_with_word(
        line,
        "elseif",
    ) || starts_with_word(line, "until") || starts_with_word(line, "case") || starts_with_word(
        line,
        "default",
    ) || starts_with_word(line, "then") || starts_with_word(line, "catch")
}

/// Whether the lines after `line` are one level further in.
fn should_indent_after(line: &str) -> (b: bool)
    ensures
        b == indents_after(line@),
{
    let trimmed_string = trim_str(line);
    let trimmed = trimmed_string.as_str();
    if starts_with_word(trimmed, "end") || starts_with_word(trimmed, "until") || starts_with_word(
        trimmed,
        "case",
    ) || starts_with_word(trimmed, "default") || starts_with_word(trimmed, "else")
        || starts_with_word(trimmed, "elseif") || starts_with_word(trimmed, "then")
        || starts_with_word(trimmed, "catch") {
        return starts_with_word(trimmed, "case") || starts_with_word(trimmed, "default")
            || starts_with_word(trimmed, "else") || starts_with_word(trimmed, "elseif")
            || starts_with_word(trimmed, "then") || starts_with_word(trimmed, "catch");
    }
    starts_with_word(trimmed, "if") || starts_with_word(trimmed, "switch") || starts_with_word(
        trimmed,
        "match",
    ) || starts_with_word(trimmed, "while") || starts_with_word(trimmed, "for")
        || starts_with_word(trimmed, "repeat") || starts_with_word(trimmed, "function")
        || starts_with_word(trimmed, "task function") || starts_with_word(trimmed, "object")
        || starts_with_word(trimmed, "enum") || starts_with_word(trimmed, "do") || starts_with_word(
        trimmed,
        "on",
    ) || starts_with_word(trimmed, "once") || starts_with_word(trimmed, "watch")
}

/// Re-indents XLuau or Luau source by its block structure.
pub fn format_source(source: &str) -> (r: String)
    ensures
        r@ == formatted(source@),
{
    let raw_lines = lines_of(source);
    let ghost ls = lines(source@);
    let mut formatted_lines: Vec<String> = Vec::new();
    let mut indent: usize = 0;
    let mut previous_blank = false;
    let mut i: usize = 0;
    while i < raw_lines.len()
        invariant
            i <= raw_lines.len(),
            ls == views(raw_lines@),
            indent <= i,
            (views(formatted_lines@), indent as nat, previous_blank) == format_scan(
                ls.subrange(0, i as int),
            ),
        decreases raw_lines.len() - i,
    {
        proof {
            assert(ls.subrange(0, i + 1).drop_last() =~= ls.subrange(0, i as int));
        }
        let rc = chars_of(raw_lines[i].as_str());
        let te = trim_end_chars(rc.as_slice());
        let tc = trim_start_chars(te.as_slice());
        let trimmed_string = string_from_chars(tc.as_slice());
        let trimmed = trimmed_string.as_str();
        if tc.len() == 0 {
            if !previous_blank && formatted_lines.len() > 0 {
                formatted_lines.push(String::new());
            }
            previous_blank = true;
            assert(views(formatted_lines@) =~= format_scan(ls.subrange(0, i + 1)).0);
        } else {
            if should_dedent_before(trimmed) && indent > 0 {
                indent = indent - 1;
            }
            let pad = indent_string(indent);
            let line = concat2(pad.as_str(), trimmed);
            formatted_lines.push(line);
            previous_blank = false;
            if should_indent_after(trimmed) {
                indent = indent + 1;
            }
            assert(views(formatted_lines@) =~= format_scan(ls.subrange(0, i + 1)).0);
        }
        i = i + 1;
    }
    assert(ls.subrange(0, raw_lines.len() as int) =~= ls);
    let joined = join_strings(&formatted_lines, "\n");
    proof {
        reveal_strlit("\n");
        assert("\n"@ =~= seq!['\n']);
    }
    ensure_trailing_newline(joined.as_str())
}

/// The emitted text always ends with a newline, begins with the whole text
/// it was given, and gains at most that one newline.
pub proof fn law_trailing_newline(s: Seq<char>)
    ensures
        has_suffix(with_trailing_newline(s), seq!['\n']),
        has_prefix(with_trailing_newline(s), s),
        with_trailing_newline(s).len() <= s.len() + 1,
{
    let w = with_trailing_newline(s);
    assert(w.subrange(0, s.len() as int) =~= s);
    if !has_suffix(s, seq!['\n']) {
        assert(w.subrange(w.len() - 1, w.len() as int) =~= seq!['\n']);
    }
}

/// Giving emitted text its final newline a second time changes nothing.
pub proof fn law_trailing_newline_idempotent(s: Seq<char>)
    ensures
        with_trailing_newline(with_trailing_newline(s)) == with_trailing_newline(s),
{
    law_trailing_newline(s);
}

/// Whether `s` holds no newline.
pub open spec fn single_line(s: Seq<char>) -> bool {
    forall|i: int| 0 <= i < s.len() ==> s[i] != '\n'
}

/// The shape of the formatter's output lines: none holds a newline, a
/// non-blank one ends in a non-whitespace character, the first is not
/// blank, and a blank last line follows a non-blank one.
spec fn tidy(out: Seq<Seq<char>>) -> bool {
    &&& forall|i: int| 0 <= i < out.len() ==> single_line(#[trigger] out[i])
    &&& forall|i: int| 0 <= i < out.len() && out[i].len() > 0 ==> !is_ws(#[trigger] out[i].last())
    &&& out.len() > 0 ==> out[0].len() > 0
    &&& out.len() > 0 && out.last().len() == 0 ==> out.len() >= 2 && out[out.len() - 2].len() > 0
}

/// `trim_start` keeps a suffix whose first character is not whitespace.
proof fn lemma_trim_start_suffix(s: Seq<char>)
    ensures
        trim_start(s).len() <= s.len(),
        trim_start(s) =~= s.subrange(s.len() - trim_start(s).len(), s.len() as int),
        trim_start(s).len() > 0 ==> !is_ws(trim_start(s)[0]),
    decreases s.len(),
{
    if s.len() > 0 && is_ws(s[0]) {
        lemma_trim_start_suffix(s.drop_first());
    }
}

/// `trim_end` keeps a prefix whose last character is not whitespace.
proof fn lemma_trim_end_prefix(s: Seq<char>)
    ensures
        trim_end(s).len() <= s.len(),
        trim_end(s) =~= s.subrange(0, trim_end(s).len() as int),
        trim_end(s).len() > 0 ==> !is_ws(trim_end(s).last()),
    decreases s.len(),
{
    if s.len() > 0 && is_ws(s.last()) {
        lemma_trim_end_prefix(s.drop_last());
    }
}

/// A trimmed line of one line is one line, and when not empty it begins and
/// ends with non-whitespace.
proof fn lemma_trimmed_line(l: Seq<char>)
    requires
        single_line(l),
    ensures
        single_line(trim_start(trim_end(l))),
        trim_start(trim_end(l)).len() > 0 ==> !is_ws(trim_start(trim_end(l))[0]) && !is_ws(
            trim_start(trim_end(l)).last(),
        ),
{
    let e = trim_end(l);
    let t = trim_start(e);
    lemma_trim_end_prefix(l);
    lemma_trim_start_suffix(e);
    assert forall|i: int| 0 <= i < t.len() implies t[i] != '\n' by {
        assert(t[i] == l[e.len() - t.len() + i]);
    }
    if t.len() > 0 {
        assert(t.last() == e.last());
    }
}

/// Indentation in front of a trimmed line is removed again by trimming.
proof fn lemma_trim_indented(n: nat, t: Seq<char>)
    requires
        t.len() > 0,
        !is_ws(t[0]),
        !is_ws(t.last()),
    ensures
        trim_start(trim_end(spaces(n) + t)) == t,
    decreases n,
{
    let x = spaces(n) + t;
    assert(x.last() == t.last());
    assert(trim_end(x) == x);
    if n == 0 {
        assert(x =~= t);
    } else {
        assert(x.drop_first() =~= spaces((n - 1) as nat) + t);
        lemma_trim_indented((n - 1) as nat, t);
        assert(trim_end(spaces((n - 1) as nat) + t) == spaces((n - 1) as nat) + t);
    }
}

/// Re-reading what the formatter wrote reproduces it: the same lines, the
/// same indentation level, and a blank flag that says whether the last line
/// written is blank.
proof fn lemma_scan_reproduces(ls: Seq<Seq<char>>)
    requires
        forall|i: int| 0 <= i < ls.len() ==> single_line(#[trigger] ls[i]),
    ensures
        ({
            let (out, level, blank) = format_scan(ls);
            let ends_blank = out.len() > 0 && out.last().len() == 0;
            &&& format_scan(out) == (out, level, ends_blank)
            &&& ends_blank == (blank && out.len() > 0)
            &&& ends_blank ==> format_scan(out.drop_last()).0 == out.drop_last()
            &&& tidy(out)
        }),
    decreases ls.len(),
{
    if ls.len() > 0 {
        let prev = ls.drop_last();
        assert forall|i: int| 0 <= i < prev.len() implies single_line(#[trigger] prev[i]) by {
            assert(prev[i] == ls[i]);
        }
        lemma_scan_reproduces(prev);
        let (out0, level0, blank0) = format_scan(prev);
        let l = ls.last();
        assert(single_line(ls[ls.len() - 1]));
        let t = trim_start(trim_end(l));
        lemma_trimmed_line(l);
        if t.len() == 0 {
            if !blank0 && out0.len() > 0 {
                let out = out0.push(seq![]);
                assert(out.drop_last() =~= out0);
                let empty: Seq<char> = seq![];
                assert(trim_end(empty) == empty);
                assert(trim_start(empty) == empty);
                assert(out.last() == empty);
                assert(tidy(out)) by {
                    assert forall|i: int| 0 <= i < out.len() implies single_line(
                        #[trigger] out[i],
                    ) by {
                        if i < out0.len() {
                            assert(out[i] == out0[i]);
                        }
                    }
                    assert forall|i: int| 0 <= i < out.len() && out[i].len() > 0 implies !is_ws(
                        #[trigger] out[i].last(),
                    ) by {
                        assert(out[i] == out0[i]);
                    }
                    assert(out[0] == out0[0]);
                    assert(out[out.len() - 2] == out0.last());
                }
            }
        } else {
            let lv = if dedents_before(t) && level0 > 0 {
                (level0 - 1) as nat
            } else {
                level0
            };
            let x = spaces(4 * lv) + t;
            lemma_trim_indented(4 * lv, t);
            let out = out0.push(x);
            assert(out.drop_last() =~= out0);
            assert(x.last() == t.last());
            assert(tidy(out)) by {
                assert forall|i: int| 0 <= i < out.len() implies single_line(#[trigger] out[i]) by {
                    if i < out0.len() {
                        assert(out[i] == out0[i]);
                    } else {
                        assert forall|j: int| 0 <= j < x.len() implies x[j] != '\n' by {
                            if j >= spaces(4 * lv).len() {
                                assert(x[j] == t[j - spaces(4 * lv).len()]);
                            }
                        }
                    }
                }
                assert forall|i: int| 0 <= i < out.len() && out[i].len() > 0 implies !is_ws(
                    #[trigger] out[i].last(),
                ) by {
                    if i < out0.len() {
                        assert(out[i] == out0[i]);
                    }
                }
                if out0.len() > 0 {
                    assert(out[0] == out0[0]);
                }
            }
        }
    }
}

/// The lines that `str::lines` finds in the text of `s` followed by `p`,
/// when `p` holds no newline: those of `s`, with `p` added to the open line.
proof fn lemma_line_scan_append(s: Seq<char>, p: Seq<char>)
    requires
        single_line(p),
    ensures
        line_scan(s + p) == (line_scan(s).0, line_scan(s).1 + p),
    decreases p.len(),
{
    if p.len() == 0 {
        assert(s + p =~= s);
        assert(line_scan(s).1 + p =~= line_scan(s).1);
    } else {
        let q = p.drop_last();
        assert(single_line(q)) by {
            assert forall|i: int| 0 <= i < q.len() implies q[i] != '\n' by {
                assert(q[i] == p[i]);
            }
        }
        lemma_line_scan_append(s, q);
        assert((s + p).drop_last() =~= s + q);
        assert((s + p).last() == p[p.len() - 1]);
        assert((line_scan(s).1 + q).push(p.last()) =~= line_scan(s).1 + p);
    }
}

/// Joining lines with newlines and reading the lines back: all but the last
/// are closed, the last is open.
proof fn lemma_line_scan_join(parts: Seq<Seq<char>>)
    requires
        parts.len() > 0,
        forall|i: int| 0 <= i < parts.len() ==> single_line(#[trigger] parts[i]),
        forall|i: int| 0 <= i < parts.len() ==> strip_cr(#[trigger] parts[i]) == parts[i],
    ensures
        line_scan(join(parts, seq!['\n'])) == (parts.drop_last(), parts.last()),
    decreases parts.len(),
{
    let empty: Seq<char> = seq![];
    if parts.len() == 1 {
        assert(single_line(parts[0]));
        lemma_line_scan_append(empty, parts[0]);
        assert(empty + parts[0] =~= parts[0]);
        assert(line_scan(empty).1 + parts[0] =~= parts[0]);
        assert(parts.drop_last() =~= seq![]);
    } else {
        let d = parts.drop_last();
        assert forall|i: int| 0 <= i < d.len() implies single_line(#[trigger] d[i]) && strip_cr(
            d[i],
        ) == d[i] by {
            assert(d[i] == parts[i]);
        }
        lemma_line_scan_join(d);
        let j = join(d, seq!['\n']);
        let jn = j + seq!['\n'];
        assert(jn.drop_last() =~= j);
        assert(jn.last() == '\n');
        assert(strip_cr(d.last()) == d.last()) by {
            assert(d.last() == parts[parts.len() - 2]);
        }
        assert(d.drop_last().push(d.last()) =~= d);
        assert(line_scan(jn) == (d, empty));
        assert(single_line(parts[parts.len() - 1]));
        lemma_line_scan_append(jn, parts.last());
        assert(empty + parts.last() =~= parts.last());
    }
}

/// Read back, text joined from tidy lines and ended by a newline gives those
/// lines again.
proof fn lemma_lines_of_joined(parts: Seq<Seq<char>>)
    requires
        parts.len() > 0,
        parts.last().len() > 0,
        tidy(parts),
    ensures
        lines(join(parts, seq!['\n']) + seq!['\n']) == parts,
        join(parts, seq!['\n']).len() > 0,
        join(parts, seq!['\n']).last() != '\n',
{
    assert forall|i: int| 0 <= i < parts.len() implies strip_cr(#[trigger] parts[i])
        == parts[i] by {
        if parts[i].len() > 0 {
            assert(!is_ws(parts[i].last()));
        }
    }
    lemma_line_scan_join(parts);
    let j = join(parts, seq!['\n']);
    let jn = j + seq!['\n'];
    assert(jn.drop_last() =~= j);
    assert(parts.drop_last().push(parts.last()) =~= parts);
    assert(strip_cr(parts.last()) == parts.last()) by {
        assert(parts.last() == parts[parts.len() - 1]);
    }
    if parts.len() == 1 {
        assert(j == parts[0]);
    } else {
        let d = parts.drop_last();
        assert(j == join(d, seq!['\n']) + seq!['\n'] + parts.last());
    }
    assert(!is_ws(parts[parts.len() - 1].last()));
}

/// Formatting text that is already formatted changes nothing.
pub proof fn law_format_idempotent(source: Seq<char>)
    ensures
        formatted(formatted(source)) == formatted(source),
{
    let ls = lines(source);
    lemma_lines_single(source);
    lemma_scan_reproduces(ls);
    let out = format_scan(ls).0;
    let j = join(out, seq!['\n']);
    let f = formatted(source);
    let empty: Seq<char> = seq![];
    if out.len() == 0 {
        assert(j == empty);
        lemma_suffix_char(empty, '\n');
        assert(f == seq!['\n']);
        assert(f.drop_last() =~= empty);
        assert(f.last() == '\n');
        assert(strip_cr(empty) == empty);
        assert(line_scan(empty) == (Seq::<Seq<char>>::empty(), empty));
        assert(Seq::<Seq<char>>::empty().push(empty) =~= seq![empty]);
        assert(line_scan(f) == (seq![empty], empty));
        assert(lines(f) == seq![empty]);
        assert(seq![empty].drop_last() =~= seq![]);
        assert(trim_end(empty) == empty);
        assert(trim_start(empty) == empty);
        assert(format_scan(seq![empty]).0 == out);
    } else if out.last().len() > 0 {
        lemma_lines_of_joined(out);
        lemma_suffix_char(j, '\n');
        assert(f == j + seq!['\n']);
    } else {
        let d = out.drop_last();
        assert(tidy(d)) by {
            assert forall|i: int| 0 <= i < d.len() implies single_line(#[trigger] d[i]) by {
                assert(d[i] == out[i]);
            }
            assert forall|i: int| 0 <= i < d.len() && d[i].len() > 0 implies !is_ws(
                #[trigger] d[i].last(),
            ) by {
                assert(d[i] == out[i]);
            }
            assert(d[0] == out[0]);
            assert(d.last() == out[out.len() - 2]);
        }
        lemma_lines_of_joined(d);
        let jd = join(d, seq!['\n']);
        assert(j == jd + seq!['\n'] + out.last());
        assert(j =~= jd + seq!['\n']);
        lemma_suffix_char(j, '\n');
        assert(f == j);
        lemma_suffix_char(jd, '\n');
    }
}

/// The text of the non-blank lines of `ls`, trimmed, in order.
pub open spec fn content_lines(ls: Seq<Seq<char>>) -> Seq<Seq<char>>
    decreases ls.len(),
{
    if ls.len() == 0 {
        seq![]
    } else {
        let t = trim_start(trim_end(ls.last()));
        if t.len() == 0 {
            content_lines(ls.drop_last())
        } else {
            content_lines(ls.drop_last()).push(t)
        }
    }
}

/// The lines the formatter writes hold the same trimmed non-blank lines as
/// those it reads.
proof fn lemma_scan_keeps_content(ls: Seq<Seq<char>>)
    requires
        forall|i: int| 0 <= i < ls.len() ==> single_line(#[trigger] ls[i]),
    ensures
        content_lines(format_scan(ls).0) == content_lines(ls),
    decreases ls.len(),
{
    if ls.len() > 0 {
        let prev = ls.drop_last();
        assert forall|i: int| 0 <= i < prev.len() implies single_line(#[trigger] prev[i]) by {
            assert(prev[i] == ls[i]);
        }
        lemma_scan_keeps_content(prev);
        let (out0, level0, blank0) = format_scan(prev);
        let l = ls.last();
        assert(single_line(ls[ls.len() - 1]));
        let t = trim_start(trim_end(l));
        lemma_trimmed_line(l);
        let empty: Seq<char> = seq![];
        assert(trim_end(empty) == empty);
        assert(trim_start(empty) == empty);
        if t.len() == 0 {
            assert(out0.push(empty).drop_last() =~= out0);
        } else {
            let lv = if dedents_before(t) && level0 > 0 {
                (level0 - 1) as nat
            } else {
                level0
            };
            lemma_trim_indented(4 * lv, t);
            assert(out0.push(spaces(4 * lv) + t).drop_last() =~= out0);
        }
    }
}

/// Formatting changes only whitespace: the non-blank lines of the result,
/// trimmed, are those of the source, trimmed, in the same order.
pub proof fn law_format_keeps_content(source: Seq<char>)
    ensures
        content_lines(lines(formatted(source))) == content_lines(lines(source)),
{
    let ls = lines(source);
    lemma_lines_single(source);
    lemma_scan_reproduces(ls);
    lemma_scan_keeps_content(ls);
    let out = format_scan(ls).0;
    let j = join(out, seq!['\n']);
    let f = formatted(source);
    let empty: Seq<char> = seq![];
    assert(trim_end(empty) == empty);
    assert(trim_start(empty) == empty);
    if out.len() == 0 {
        assert(j == empty);
        lemma_suffix_char(empty, '\n');
        assert(f == seq!['\n']);
        assert(f.drop_last() =~= empty);
        assert(f.last() == '\n');
        assert(strip_cr(empty) == empty);
        assert(line_scan(empty) == (Seq::<Seq<char>>::empty(), empty));
        assert(Seq::<Seq<char>>::empty().push(empty) =~= seq![empty]);
        assert(line_scan(f) == (seq![empty], empty));
        assert(lines(f) == seq![empty]);
        assert(seq![empty].drop_last() =~= seq![]);
    } else if out.last().len() > 0 {
        lemma_lines_of_joined(out);
        lemma_suffix_char(j, '\n');
        assert(f == j + seq!['\n']);
    } else {
        let d = out.drop_last();
        assert(tidy(d)) by {
            assert forall|i: int| 0 <= i < d.len() implies single_line(#[trigger] d[i]) by {
                assert(d[i] == out[i]);
            }
            assert forall|i: int| 0 <= i < d.len() && d[i].len() > 0 implies !is_ws(
                #[trigger] d[i].last(),
            ) by {
                assert(d[i] == out[i]);
            }
            assert(d[0] == out[0]);
            assert(d.last() == out[out.len() - 2]);
        }
        lemma_lines_of_joined(d);
        let jd = join(d, seq!['\n']);
        assert(j == jd + seq!['\n'] + out.last());
        assert(j =~= jd + seq!['\n']);
        lemma_suffix_char(j, '\n');
        assert(f == j);
        assert(lines(f) == d);
        assert(content_lines(out) == content_lines(d));
    }
}

/// `t` indented by `level` steps of four spaces.
pub open spec fn at_level(level: nat, t: Seq<char>) -> Seq<char> {
    spaces(4 * level) + t
}

/// The shape of one formatted line: blank, or a non-empty trimmed text
/// indented by a whole number of four-space steps.
pub open spec fn shaped_line(l: Seq<char>) -> bool {
    l.len() == 0 || exists|level: nat, t: Seq<char>|
        t.len() > 0 && trim_start(trim_end(t)) == t && #[trigger] at_level(level, t) == l
}

/// No two blank lines follow each other.
pub open spec fn no_blank_runs(ls: Seq<Seq<char>>) -> bool {
    forall|i: int| 0 <= i < ls.len() - 1 ==> !(#[trigger] ls[i].len() == 0 && ls[i + 1].len() == 0)
}

/// The formatter writes shaped lines, never two blank ones in a row.
proof fn lemma_scan_shape(ls: Seq<Seq<char>>)
    requires
        forall|i: int| 0 <= i < ls.len() ==> single_line(#[trigger] ls[i]),
    ensures
        forall|i: int| 0 <= i < format_scan(ls).0.len() ==> shaped_line(#[trigger] format_scan(ls).0[i]),
        no_blank_runs(format_scan(ls).0),
    decreases ls.len(),
{
    if ls.len() > 0 {
        let prev = ls.drop_last();
        assert forall|i: int| 0 <= i < prev.len() implies single_line(#[trigger] prev[i]) by {
            assert(prev[i] == ls[i]);
        }
        lemma_scan_shape(prev);
        lemma_scan_reproduces(prev);
        let (out0, level0, blank0) = format_scan(prev);
        let l = ls.last();
        assert(single_line(ls[ls.len() - 1]));
        let t = trim_start(trim_end(l));
        lemma_trimmed_line(l);
        let out = format_scan(ls).0;
        if t.len() == 0 {
            if !blank0 && out0.len() > 0 {
                assert(out == out0.push(seq![]));
                assert(out0.last().len() > 0);
                assert forall|i: int| 0 <= i < out.len() implies shaped_line(#[trigger] out[i]) by {
                    if i < out0.len() {
                        assert(out[i] == out0[i]);
                    }
                }
                assert forall|i: int| 0 <= i < out.len() - 1 implies !(#[trigger] out[i].len() == 0
                    && out[i + 1].len() == 0) by {
                    assert(out[i] == out0[i]);
                    if i + 1 < out0.len() {
                        assert(out[i + 1] == out0[i + 1]);
                    }
                }
            }
        } else {
            let lv = if dedents_before(t) && level0 > 0 {
                (level0 - 1) as nat
            } else {
                level0
            };
            let x = spaces(4 * lv) + t;
            assert(out == out0.push(x));
            lemma_trim_indented(0, t);
            assert(spaces(0) + t =~= t);
            assert(at_level(lv, t) == x);
            assert(shaped_line(x));
            assert forall|i: int| 0 <= i < out.len() implies shaped_line(#[trigger] out[i]) by {
                if i < out0.len() {
                    assert(out[i] == out0[i]);
                }
            }
            assert(x.len() > 0);
            assert forall|i: int| 0 <= i < out.len() - 1 implies !(#[trigger] out[i].len() == 0
                && out[i + 1].len() == 0) by {
                assert(out[i] == out0[i]);
                if i + 1 < out0.len() {
                    assert(out[i + 1] == out0[i + 1]);
                }
            }
        }
    }
}

/// Text joined from parts begins with the first part.
proof fn lemma_join_prefix(parts: Seq<Seq<char>>, sep: Seq<char>)
    requires
        parts.len() > 0,
    ensures
        has_prefix(join(parts, sep), parts[0]),
    decreases parts.len(),
{
    if parts.len() == 1 {
        assert(join(parts, sep) == parts[0]);
        assert(parts[0].subrange(0, parts[0].len() as int) =~= parts[0]);
    } else {
        let d = parts.drop_last();
        lemma_join_prefix(d, sep);
        assert(d[0] == parts[0]);
        let j = join(d, sep);
        assert(join(parts, sep) == j + sep + parts.last());
        assert((j + sep + parts.last()).subrange(0, parts[0].len() as int) =~= j.subrange(
            0,
            parts[0].len() as int,
        ));
    }
}

/// What the formatter's text holds, line by line: it ends with a newline;
/// each line is blank or a trimmed text indented by whole steps of four
/// spaces; no two blank lines follow each other; and it does not begin
/// with a blank line unless it is a single newline.
pub proof fn law_format_shape(source: Seq<char>)
    ensures
        has_suffix(formatted(source), seq!['\n']),
        forall|i: int|
            0 <= i < lines(formatted(source)).len() ==> shaped_line(#[trigger] lines(formatted(source))[i]),
        no_blank_runs(lines(formatted(source))),
        formatted(source) == seq!['\n'] || formatted(source)[0] != '\n',
{
    let ls = lines(source);
    lemma_lines_single(source);
    lemma_scan_reproduces(ls);
    lemma_scan_shape(ls);
    let out = format_scan(ls).0;
    let j = join(out, seq!['\n']);
    let f = formatted(source);
    law_trailing_newline(j);
    let empty: Seq<char> = seq![];
    if out.len() == 0 {
        assert(j == empty);
        lemma_suffix_char(empty, '\n');
        assert(f == seq!['\n']);
        assert(f.drop_last() =~= empty);
        assert(strip_cr(empty) == empty);
        assert(line_scan(empty) == (Seq::<Seq<char>>::empty(), empty));
        assert(Seq::<Seq<char>>::empty().push(empty) =~= seq![empty]);
        assert(line_scan(f) == (seq![empty], empty));
        assert(lines(f) == seq![empty]);
        assert(shaped_line(lines(f)[0]));
    } else {
        lemma_join_prefix(out, seq!['\n']);
        assert(out[0].len() > 0);
        assert(single_line(out[0]));
        assert(j.subrange(0, out[0].len() as int)[0] == j[0]);
        assert(j[0] != '\n');
        if out.last().len() > 0 {
            lemma_lines_of_joined(out);
            lemma_suffix_char(j, '\n');
            assert(f == j + seq!['\n']);
            assert(f[0] == j[0]);
        } else {
            let d = out.drop_last();
            assert(tidy(d)) by {
                assert forall|i: int| 0 <= i < d.len() implies single_line(#[trigger] d[i]) by {
                    assert(d[i] == out[i]);
                }
                assert forall|i: int| 0 <= i < d.len() && d[i].len() > 0 implies !is_ws(
                    #[trigger] d[i].last(),
                ) by {
                    assert(d[i] == out[i]);
                }
                assert(d[0] == out[0]);
                assert(d.last() == out[out.len() - 2]);
            }
            lemma_lines_of_joined(d);
            let jd = join(d, seq!['\n']);
            assert(j == jd + seq!['\n'] + out.last());
            assert(j =~= jd + seq!['\n']);
            lemma_suffix_char(j, '\n');
            assert(f == j);
            assert(lines(f) == d);
            assert forall|i: int| 0 <= i < d.len() implies shaped_line(#[trigger] d[i]) by {
                assert(d[i] == out[i]);
            }
            assert forall|i: int| 0 <= i < d.len() - 1 implies !(#[trigger] d[i].len() == 0 && d[i
                + 1].len() == 0) by {
                assert(d[i] == out[i]);
                assert(d[i + 1] == out[i + 1]);
            }
        }
    }
}

/// A trimmed line is its own trim.
proof fn lemma_trim_twice(l: Seq<char>)
    ensures
        trim(trim(l)) == trim(l),
{
    let e = trim_end(l);
    let t = trim_start(e);
    lemma_trim_end_prefix(l);
    lemma_trim_start_suffix(e);
    if t.len() > 0 {
        assert(t.last() == e.last());
        lemma_trim_indented(0, t);
        assert(spaces(0) + t =~= t);
    } else {
        let empty: Seq<char> = seq![];
        assert(t =~= empty);
        assert(trim_end(empty) == empty);
        assert(trim_start(empty) == empty);
    }
}

/// The words that open a block: the lines after a line that begins with
/// one of them are one level deeper.
pub open spec fn block_opener(w: Seq<char>) -> bool {
    ||| w == "if"@
    ||| w == "switch"@
    ||| w == "match"@
    ||| w == "while"@
    ||| w == "for"@
    ||| w == "repeat"@
    ||| w == "function"@
    ||| w == "task function"@
    ||| w == "object"@
    ||| w == "enum"@
    ||| w == "do"@
    ||| w == "on"@
    ||| w == "once"@
    ||| w == "watch"@
}

/// A line cannot begin with two words that differ at a place where both
/// have a letter.
proof fn lemma_differ_at(t: Seq<char>, w: Seq<char>, v: Seq<char>, k: int)
    requires
        begins_with_word(t, w),
        0 <= k < w.len(),
        k < v.len(),
        w[k] != v[k],
    ensures
        !begins_with_word(t, v),
{
    assert(t.subrange(0, w.len() as int)[k] == t[k]);
    if has_prefix(t, v) {
        assert(t.subrange(0, v.len() as int)[k] == t[k]);
    }
}

/// A line cannot begin with two words that differ in one of their first
/// three letters.
proof fn lemma_not_both(t: Seq<char>, w: Seq<char>, v: Seq<char>)
    requires
        begins_with_word(t, w),
        w.len() > 0,
        v.len() > 0,
        w[0] != v[0] || (w.len() > 1 && v.len() > 1 && w[1] != v[1]) || (w.len() > 2 && v.len()
            > 2 && w[2] != v[2]),
    ensures
        !begins_with_word(t, v),
{
    if w[0] != v[0] {
        lemma_differ_at(t, w, v, 0);
    } else if w.len() > 1 && v.len() > 1 && w[1] != v[1] {
        lemma_differ_at(t, w, v, 1);
    } else {
        lemma_differ_at(t, w, v, 2);
    }
}

/// A line that begins with a block-opening word closes nothing and opens
/// a block.
proof fn lemma_opener_line(t: Seq<char>, w: Seq<char>)
    requires
        block_opener(w),
        begins_with_word(t, w),
    ensures
        w.len() > 0,
        !dedents_before(t),
        !begins_with_word(t, "end"@) && !begins_with_word(t, "until"@) && !begins_with_word(
            t,
            "case"@,
        ) && !begins_with_word(t, "default"@) && !begins_with_word(t, "else"@)
            && !begins_with_word(t, "elseif"@) && !begins_with_word(t, "then"@)
            && !begins_with_word(t, "catch"@),
{
    reveal_strlit("if");
    reveal_strlit("switch");
    reveal_strlit("match");
    reveal_strlit("while");
    reveal_strlit("for");
    reveal_strlit("repeat");
    reveal_strlit("function");
    reveal_strlit("task function");
    reveal_strlit("object");
    reveal_strlit("enum");
    reveal_strlit("do");
    reveal_strlit("on");
    reveal_strlit("once");
    reveal_strlit("watch");
    reveal_strlit("end");
    reveal_strlit("else");
    reveal_strlit("elseif");
    reveal_strlit("until");
    reveal_strlit("case");
    reveal_strlit("default");
    reveal_strlit("then");
    reveal_strlit("catch");
    lemma_not_both(t, w, "end"@);
    lemma_not_both(t, w, "else"@);
    lemma_not_both(t, w, "elseif"@);
    lemma_not_both(t, w, "until"@);
    lemma_not_both(t, w, "case"@);
    lemma_not_both(t, w, "default"@);
    lemma_not_both(t, w, "then"@);
    lemma_not_both(t, w, "catch"@);
}

/// A line that begins with a block-opening word (`if`, `for`, `while`,
/// `function`, `do`, `repeat`, `switch`, `match`, `enum`, ...) opens a
/// block: whatever comes before it, it is written at the current level and
/// the next non-blank line (one that does not itself close a block) one
/// step of four spaces deeper.
pub proof fn law_block_opener_indents(ls: Seq<Seq<char>>, a: Seq<char>, b: Seq<char>, w: Seq<char>)
    requires
        block_opener(w),
        begins_with_word(trim(a), w),
        trim(b).len() > 0,
        !dedents_before(trim(b)),
    ensures
        format_scan(ls.push(a)).0.last() == spaces(4 * format_scan(ls).1) + trim(a),
        format_scan(ls.push(a).push(b)).0.last() == spaces(4 * (format_scan(ls).1 + 1)) + trim(b),
{
    let ta = trim(a);
    lemma_opener_line(ta, w);
    lemma_trim_twice(a);
    assert(indents_after(ta));
    assert(ta.len() > 0);
    let la = ls.push(a);
    assert(la.drop_last() =~= ls);
    assert(la.last() == a);
    assert(format_scan(la).1 == format_scan(ls).1 + 1);
    let lb = la.push(b);
    assert(lb.drop_last() =~= la);
    assert(lb.last() == b);
}

/// In particular a `for` line opens a block: the line after it, up to the
/// matching `end`, is written four spaces deeper.
pub proof fn law_for_opens_block(ls: Seq<Seq<char>>, a: Seq<char>, b: Seq<char>)
    requires
        begins_with_word(trim(a), "for"@),
        trim(b).len() > 0,
        !dedents_before(trim(b)),
    ensures
        format_scan(ls.push(a)).0.last() == spaces(4 * format_scan(ls).1) + trim(a),
        format_scan(ls.push(a).push(b)).0.last() == spaces(4 * (format_scan(ls).1 + 1)) + trim(b),
{
    law_block_opener_indents(ls, a, b, "for"@);
}

/// The words that close the block above them: a line that begins with one
/// of them is written one level out.
pub open spec fn block_closer(w: Seq<char>) -> bool {
    ||| w == "end"@
    ||| w == "until"@
    ||| w == "else"@
    ||| w == "elseif"@
    ||| w == "case"@
    ||| w == "default"@
    ||| w == "then"@
    ||| w == "catch"@
}

/// A line that begins with a block-closing word (`end`, `until`, `else`,
/// `elseif`, `case`, `default`, `then`, `catch`) inside a block is written
/// one level out. After `end` or `until` the lines that follow stay at that
/// outer level; after the others, which open the next part of the same
/// block, they go back in.
pub proof fn law_block_closer_dedents(ls: Seq<Seq<char>>, a: Seq<char>, w: Seq<char>)
    requires
        block_closer(w),
        begins_with_word(trim(a), w),
        format_scan(ls).1 > 0,
    ensures
        format_scan(ls.push(a)).0.last() == spaces(4 * (format_scan(ls).1 - 1) as nat) + trim(a),
        format_scan(ls.push(a)).1 == if w == "end"@ || w == "until"@ {
            format_scan(ls).1 - 1
        } else {
            format_scan(ls).1 as int
        },
{
    let ta = trim(a);
    lemma_trim_twice(a);
    reveal_strlit("end");
    reveal_strlit("else");
    reveal_strlit("elseif");
    reveal_strlit("until");
    reveal_strlit("case");
    reveal_strlit("default");
    reveal_strlit("then");
    reveal_strlit("catch");
    assert(w.len() > 0);
    assert(ta.len() > 0);
    assert(dedents_before(ta));
    if w == "end"@ || w == "until"@ {
        lemma_not_both(ta, w, "else"@);
        lemma_not_both(ta, w, "elseif"@);
        lemma_not_both(ta, w, "case"@);
        lemma_not_both(ta, w, "default"@);
        lemma_not_both(ta, w, "then"@);
        lemma_not_both(ta, w, "catch"@);
        assert(!indents_after(ta));
    } else {
        assert(indents_after(ta));
    }
    let la = ls.push(a);
    assert(la.drop_last() =~= ls);
    assert(la.last() == a);
}

/// A block's `end` lines up with the line that opened it: after a line
/// that opens a block, a line beginning with `end` comes back to the
/// opening line's level, and so do the lines after it.
pub proof fn law_end_matches_opener(ls: Seq<Seq<char>>, a: Seq<char>, b: Seq<char>, w: Seq<char>)
    requires
        block_opener(w),
        begins_with_word(trim(a), w),
        begins_with_word(trim(b), "end"@),
    ensures
        format_scan(ls.push(a).push(b)).0.last() == spaces(4 * format_scan(ls).1) + trim(b),
        format_scan(ls.push(a).push(b)).1 == format_scan(ls).1,
{
    let ta = trim(a);
    lemma_opener_line(ta, w);
    lemma_trim_twice(a);
    assert(indents_after(ta));
    let la = ls.push(a);
    assert(la.drop_last() =~= ls);
    assert(la.last() == a);
    assert(format_scan(la).1 == format_scan(ls).1 + 1);
    law_block_closer_dedents(la, b, "end"@);
}

/// Every line that `str::lines` yields holds no newline.
proof fn lemma_lines_single(s: Seq<char>)
    ensures
        forall|i: int| 0 <= i < lines(s).len() ==> single_line(#[trigger] lines(s)[i]),
{
    lemma_line_scan_single(s);
}

/// Neither the closed lines nor the open one of a scan hold a newline.
proof fn lemma_line_scan_single(s: Seq<char>)
    ensures
        forall|i: int| 0 <= i < line_scan(s).0.len() ==> single_line(#[trigger] line_scan(s).0[i]),
        single_line(line_scan(s).1),
    decreases s.len(),
{
    if s.len() > 0 {
        lemma_line_scan_single(s.drop_last());
        let (done, current) = line_scan(s.drop_last());
        if s.last() == '\n' {
            let c = strip_cr(current);
            assert(single_line(c)) by {
                assert forall|i: int| 0 <= i < c.len() implies c[i] != '\n' by {
                    assert(c[i] == current[i]);
                }
            }
            let d2 = done.push(c);
            assert forall|i: int| 0 <= i < d2.len() implies single_line(#[trigger] d2[i]) by {
                if i < done.len() {
                    assert(d2[i] == done[i]);
                }
            }
        } else {
            let c2 = current.push(s.last());
            assert forall|i: int| 0 <= i < c2.len() implies c2[i] != '\n' by {
                if i < current.len() {
                    assert(c2[i] == current[i]);
                }
            }
        }
    }
}

} // verus!
