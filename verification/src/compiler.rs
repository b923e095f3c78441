//! The compile pipeline: source that is already valid Luau passes through
//! unchanged; a parsed XLuau program is lowered, its output validated as
//! Luau and given its final newline.

use vstd::prelude::*;

use crate::ast::Program;
use crate::emitter::lowering::lower_block;
use crate::emitter::{decimal, decimal_string, initial_state, Emitter};
use crate::formatter::{format_luau, law_trailing_newline, with_trailing_newline};
use crate::parser::{lex, parse_message, parse_program, anchored_to_source, TokenView};
use crate::text::{
    chars_have_prefix, chars_of, concat3, find, find_chars, has_prefix, join, join_strings,
    push_char, rfind, rfind_chars, str_byte_len, string_from_chars, sub_chars, utf8_len, views,
};

verus! {

/// Why a compilation failed.
#[derive(Debug)]
pub enum CompilerError {
    /// A file could not be read or written.
    Io { path: String, message: String },
    /// The configuration file could not be read as JSON of the right shape.
    Config { path: String, message: String },
    /// The source could not be split into tokens.
    Lex { message: String },
    /// The tokens do not form a program.
    Parse { message: String },
    /// Semantic errors found while lowering.
    Semantic { messages: Vec<String> },
    /// The output could not be formatted.
    Format { message: String },
    /// The text is not valid Luau.
    Validation { message: String },
    /// Any other failure.
    Other(String),
}

/// The result of a compile step.
pub type Result<T> = core::result::Result<T, CompilerError>;

/// The `Debug` rendering of a list of strings, `["a", "b"]` with each
/// string escaped.
pub uninterp spec fn debug_list_text(items: Seq<Seq<char>>) -> Seq<char>;

/// The syntax errors that the Luau parser reports for `source`, each in its
/// `Debug` rendering, in the order the parser records them.
pub uninterp spec fn luau_syntax_errors(source: Seq<char>) -> Seq<Seq<char>>;

/// The message of an error, as the command line prints it.
pub open spec fn error_text(e: CompilerError) -> Seq<char> {
    match e {
        CompilerError::Io { path, message } => "io error while accessing "@ + path@ + ": "@
            + message@,
        CompilerError::Config { path, message } => "invalid config at "@ + path@ + ": "@
            + message@,
        CompilerError::Lex { message } => "lex error: "@ + message@,
        CompilerError::Parse { message } => "parse error: "@ + message@,
        CompilerError::Semantic { messages } => "semantic errors:\n"@ + debug_list_text(
            views(messages@),
        ),
        CompilerError::Format { message } => "format error: "@ + message@,
        CompilerError::Validation { message } => "luau validation error: "@ + message@,
        CompilerError::Other(message) => message@,
    }
}

/// `Debug`-formats a list of strings (std's `Debug` for `Vec<String>`).
/// Claimed: the result is `debug_list_text` of the strings' views.
#[verifier::external_body]
fn debug_list(items: &Vec<String>) -> (r: String)
    ensures
        r@ == debug_list_text(views(items@)),
{
    format!("{items:?}")
}

/// Parses `source` with `luau_parser::parser::Parser` (`Parser::new`, then
/// `parse` under the name `<memory>`) and renders each error of the
/// resulting tree's `errors` with `Debug`. Claimed: the result is
/// `luau_syntax_errors` of the source; nothing is claimed of which sources
/// have errors.
#[verifier::external_body]
fn luau_errors(source: &str) -> (r: Vec<String>)
    ensures
        views(r@) == luau_syntax_errors(source@),
{
    let mut parser = luau_parser::parser::Parser::new(source);
    let cst = parser.parse("<memory>");
    cst.errors.iter().map(|error| format!("{error:?}")).collect()
}

impl CompilerError {
    /// The message of the error, as the command line prints it.
    pub fn message(&self) -> (r: String)
        ensures
            r@ == error_text(*self),
    {
        let mut r = String::new();
        match self {
            CompilerError::Io { path, message } => {
                r.append("io error while accessing ");
                r.append(path.as_str());
                r.append(": ");
                r.append(message.as_str());
            },
            CompilerError::Config { path, message } => {
                r.append("invalid config at ");
                r.append(path.as_str());
                r.append(": ");
                r.append(message.as_str());
            },
            CompilerError::Lex { message } => {
                r.append("lex error: ");
                r.append(message.as_str());
            },
            CompilerError::Parse { message } => {
                r.append("parse error: ");
                r.append(message.as_str());
            },
            CompilerError::Semantic { messages } => {
                r.append("semantic errors:\n");
                r.append(debug_list(messages).as_str());
            },
            CompilerError::Format { message } => {
                r.append("format error: ");
                r.append(message.as_str());
            },
            CompilerError::Validation { message } => {
                r.append("luau validation error: ");
                r.append(message.as_str());
            },
            CompilerError::Other(message) => {
                r.append(message.as_str());
            },
        }
        r
    }
}

/// The configuration of a project (`xluau.config.json`).
#[derive(Debug)]
pub struct XluauConfig {
    /// Glob patterns, relative to the root, of the files to compile.
    pub sources: Vec<String>,
    /// Files whose path contains one of these are skipped.
    pub exclude: Vec<String>,
    /// The directory, relative to the root, that receives the output.
    pub out_dir: String,
    /// The directory, relative to the root, that mirrors the output layout.
    pub base_dir: String,
}

/// The views of the configuration's fields: source patterns, exclusions,
/// output directory and base directory.
pub open spec fn config_view(c: XluauConfig) -> (
    Seq<Seq<char>>,
    Seq<Seq<char>>,
    Seq<char>,
    Seq<char>,
) {
    (views(c.sources@), views(c.exclude@), c.out_dir@, c.base_dir@)
}

impl XluauConfig {
    /// The configuration of a project without a configuration file:
    /// sources under `src/**/*.xl`, nothing excluded, output to `out`,
    /// layout relative to `src`.
    pub fn default_config() -> (c: XluauConfig)
        ensures
            config_view(c) == (seq!["src/**/*.xl"@], Seq::<Seq<char>>::empty(), "out"@, "src"@),
    {
        let mut sources: Vec<String> = Vec::new();
        sources.push(String::from_str("src/**/*.xl"));
        let exclude: Vec<String> = Vec::new();
        let c = XluauConfig {
            sources,
            exclude,
            out_dir: String::from_str("out"),
            base_dir: String::from_str("src"),
        };
        assert(views(c.sources@) =~= seq!["src/**/*.xl"@]);
        assert(views(c.exclude@) =~= Seq::<Seq<char>>::empty());
        c
    }
}

/// A field of the configuration file as the JSON reader found it.
#[derive(Debug)]
pub enum ConfigField {
    /// The key is not there.
    Absent,
    /// A string.
    Text(String),
    /// An array; `None` stands for an item that is not a string.
    List(Vec<Option<String>>),
    /// Any other JSON value.
    Other,
}

/// Whether every item of a list is a string.
pub open spec fn all_strings(items: Seq<Option<String>>) -> bool {
    forall|i: int| 0 <= i < items.len() ==> items[i] is Some
}

/// The strings of a list whose items are all strings.
pub open spec fn list_strings(items: Seq<Option<String>>) -> Seq<Seq<char>> {
    items.map_values(|o: Option<String>| match o {
        Some(t) => t@,
        None => seq![],
    })
}

/// A list field read with its default: the default when absent, the
/// strings when it lists strings, otherwise the message of what is wrong.
pub open spec fn list_field(key: Seq<char>, f: ConfigField, default: Seq<Seq<char>>) -> core::result::Result<
    Seq<Seq<char>>,
    Seq<char>,
> {
    match f {
        ConfigField::Absent => Ok(default),
        ConfigField::List(items) => if all_strings(items@) {
            Ok(list_strings(items@))
        } else {
            Err("`"@ + key + "` must list strings"@)
        },
        _ => Err("`"@ + key + "` must be an array"@),
    }
}

/// A string field read with its default.
pub open spec fn text_field(key: Seq<char>, f: ConfigField, default: Seq<char>) -> core::result::Result<
    Seq<char>,
    Seq<char>,
> {
    match f {
        ConfigField::Absent => Ok(default),
        ConfigField::Text(t) => Ok(t@),
        _ => Err("`"@ + key + "` must be a string"@),
    }
}

/// Reads a list field.
fn read_list(path: &str, key: &str, f: ConfigField, default: Vec<String>) -> (r: Result<Vec<String>>)
    ensures
        list_field(key@, f, views(default@)) matches Ok(v) ==> (r matches Ok(x) && views(x@) == v),
        list_field(key@, f, views(default@)) matches Err(m) ==> (r matches Err(e) && e matches CompilerError::Config { path: p, message } && p@ == path@ && message@ == m),
{
    let ghost fv = f;
    match f {
        ConfigField::Absent => Ok(default),
        ConfigField::List(items) => {
            let ghost its = items@;
            let mut out: Vec<String> = Vec::new();
            let mut i: usize = 0;
            while i < items.len()
                invariant
                    i <= items@.len(),
                    its == items@,
                    fv == ConfigField::List(items),
                    fv == f,
                    forall|k: int| 0 <= k < i ==> its[k] is Some,
                    views(out@) == list_strings(its.subrange(0, i as int)),
                decreases items.len() - i,
            {
                match &items[i] {
                    Some(t) => {
                        let ghost before = views(out@);
                        assert(list_strings(its.subrange(0, i as int)).len() == i);
                        assert(before.len() == i);
                        assert(its[i as int] == Some(*t));
                        out.push(t.clone());
                        let ghost sub = list_strings(its.subrange(0, i + 1));
                        assert forall|k: int| 0 <= k < i + 1 implies views(out@)[k] == sub[k] by {
                            if k < i {
                                assert(views(out@)[k] == before[k]);
                                assert(before[k] == list_strings(its.subrange(0, i as int))[k]);
                            }
                        }
                        assert(views(out@) =~= sub);
                    },
                    None => {
                        assert(its[i as int] is None);
                        assert(!all_strings(its));
                        let message = concat3("`", key, "` must list strings");
                        return Err(CompilerError::Config { path: path.to_string(), message });
                    },
                }
                i = i + 1;
            }
            assert(its.subrange(0, its.len() as int) =~= its);
            Ok(out)
        },
        _ => {
            let message = concat3("`", key, "` must be an array");
            Err(CompilerError::Config { path: path.to_string(), message })
        },
    }
}

/// Reads a string field.
fn read_text(path: &str, key: &str, f: ConfigField, default: String) -> (r: Result<String>)
    ensures
        text_field(key@, f, default@) matches Ok(v) ==> (r matches Ok(x) && x@ == v),
        text_field(key@, f, default@) matches Err(m) ==> (r matches Err(e) && e matches CompilerError::Config { path: p, message } && p@ == path@ && message@ == m),
{
    match f {
        ConfigField::Absent => Ok(default),
        ConfigField::Text(t) => Ok(t),
        _ => {
            let message = concat3("`", key, "` must be a string");
            Err(CompilerError::Config { path: path.to_string(), message })
        },
    }
}

/// The configuration's fields read in order, with their defaults; the
/// message of the first field of the wrong shape otherwise.
pub open spec fn config_fields(
    sources_key: Seq<char>,
    sources: ConfigField,
    exclude: ConfigField,
    out_dir: ConfigField,
    base_dir: ConfigField,
) -> core::result::Result<(Seq<Seq<char>>, Seq<Seq<char>>, Seq<char>, Seq<char>), Seq<char>> {
    match list_field(sources_key, sources, seq!["src/**/*.xl"@]) {
        Err(m) => Err(m),
        Ok(a) => match list_field("exclude"@, exclude, seq![]) {
            Err(m) => Err(m),
            Ok(b) => match text_field("outDir"@, out_dir, "out"@) {
                Err(m) => Err(m),
                Ok(c) => match text_field("baseDir"@, base_dir, "src"@) {
                    Err(m) => Err(m),
                    Ok(d) => Ok((a, b, c, d)),
                },
            },
        },
    }
}

impl XluauConfig {
    /// The configuration that a configuration file at `path` gives, from
    /// its source-patterns field (named `sources_key` in the file), and its
    /// `exclude`, `outDir` and `baseDir` fields: each absent field takes its
    /// default; the first field of the wrong shape, in that order, is a
    /// configuration error.
    pub fn from_fields(
        path: &str,
        sources_key: &str,
        sources: ConfigField,
        exclude: ConfigField,
        out_dir: ConfigField,
        base_dir: ConfigField,
    ) -> (r: Result<XluauConfig>)
        ensures
            config_fields(sources_key@, sources, exclude, out_dir, base_dir) matches Ok(v) ==> (r matches Ok(
                cfg,
            ) && config_view(cfg) == v),
            config_fields(sources_key@, sources, exclude, out_dir, base_dir) matches Err(m) ==> (r matches Err(
                e,
            ) && e matches CompilerError::Config { path: p, message } && p@ == path@ && message@ == m),
    {
        let defaults = XluauConfig::default_config();
        let sources = read_list(path, sources_key, sources, defaults.sources)?;
        let exclude = read_list(path, "exclude", exclude, defaults.exclude)?;
        let out_dir = read_text(path, "outDir", out_dir, defaults.out_dir)?;
        let base_dir = read_text(path, "baseDir", base_dir, defaults.base_dir)?;
        Ok(XluauConfig { sources, exclude, out_dir, base_dir })
    }
}

/// One compiled file.
#[derive(Debug)]
pub struct BuildArtifact {
    /// The source file.
    pub input: String,
    /// Where its output goes.
    pub output: String,
    /// The compiled Luau.
    pub luau: String,
}

impl BuildArtifact {
    /// The line that reports a written artifact: `built <input> -> <output>`.
    pub fn built_line(&self) -> (r: String)
        ensures
            r@ == "built "@ + self.input@ + " -> "@ + self.output@,
    {
        let mut r = concat3("built ", self.input.as_str(), " -> ");
        r.append(self.output.as_str());
        r
    }

    /// The line that reports a checked artifact:
    /// `checked <input> (<bytes of output>) bytes`.
    pub fn checked_line(&self) -> (r: String)
        ensures
            r@ == "checked "@ + self.input@ + " ("@ + decimal(utf8_len(self.luau@)) + ") bytes"@,
    {
        let mut r = concat3("checked ", self.input.as_str(), " (");
        let n = str_byte_len(self.luau.as_str());
        r.append(decimal_string(n).as_str());
        r.append(") bytes");
        r
    }
}

/// A compiler for the project under `root`.
#[derive(Debug)]
pub struct Compiler {
    pub root: String,
    pub config: XluauConfig,
}

/// Whether `p` occurs in `s` (`str::contains`).
pub open spec fn contains_text(s: Seq<char>, p: Seq<char>) -> bool {
    find(s, p) is Some
}

/// Whether a path is excluded: it contains one of the exclusions.
pub open spec fn excluded(path: Seq<char>, exclude: Seq<Seq<char>>) -> bool {
    exists|i: int| 0 <= i < exclude.len() && contains_text(path, #[trigger] exclude[i])
}

/// What compiling the parsed program `p` gives: the semantic errors of
/// lowering it, if any; otherwise the Luau parser's errors on the lowered
/// text, if any; otherwise that text with a final newline.
pub open spec fn program_compiles_to(p: Program, r: Result<String>) -> bool {
    let (st, out) = lower_block(initial_state(), p.block@, 0);
    if st.errors.len() > 0 {
        r matches Err(e) && e matches CompilerError::Semantic { messages } && views(messages@)
            == st.errors
    } else if luau_syntax_errors(out).len() > 0 {
        r matches Err(e) && e matches CompilerError::Validation { message } && message@ == join(
            luau_syntax_errors(out),
            seq!['\n'],
        )
    } else {
        r matches Ok(s) && s@ == with_trailing_newline(out)
    }
}

impl Compiler {
    /// The compiler for `root` with the configuration read there: `loaded`
    /// is the outcome of reading the configuration file, `None` when the
    /// project has none (the defaults then apply), an error when it could
    /// not be read or parsed (that error is returned).
    pub fn discover(root: String, loaded: Result<Option<XluauConfig>>) -> (r: Result<Compiler>)
        ensures
            loaded is Err <==> r is Err,
            loaded matches Err(e) ==> r == Err::<Compiler, CompilerError>(e),
            loaded matches Ok(Some(c)) ==> (r matches Ok(comp) && comp.root@ == root@
                && config_view(comp.config) == config_view(c)),
            loaded matches Ok(None) ==> (r matches Ok(comp) && comp.root@ == root@ && config_view(
                comp.config,
            ) == (seq!["src/**/*.xl"@], Seq::<Seq<char>>::empty(), "out"@, "src"@)),
    {
        match loaded {
            Err(e) => Err(e),
            Ok(Some(config)) => Ok(Compiler { root, config }),
            Ok(None) => Ok(Compiler { root, config: XluauConfig::default_config() }),
        }
    }

    /// Checks that `source` parses as Luau; the error lists the parser's
    /// errors, one per line.
    pub fn validate_luau(&self, source: &str) -> (r: Result<()>)
        ensures
            r is Ok <==> luau_syntax_errors(source@).len() == 0,
            r matches Err(e) ==> (e matches CompilerError::Validation { message } && message@
                == join(luau_syntax_errors(source@), seq!['\n'])),
    {
        let errors = luau_errors(source);
        if errors.len() == 0 {
            Ok(())
        } else {
            let message = join_strings(&errors, "\n");
            proof {
                reveal_strlit("\n");
                assert("\n"@ =~= seq!['\n']);
            }
            Err(CompilerError::Validation { message })
        }
    }

    /// Compiles source text. Source that is already valid Luau is returned
    /// as it is, with a final newline; other source is read as XLuau, and
    /// the program it parses to (see `anchored_to_source`) is compiled as
    /// `compile_program` does. A source that does not lex (see `lex`) is a
    /// lex error with the lexer's message; one that lexes but does not
    /// parse is a parse error about one of its tokens (see
    /// `parse_message`).
    pub fn compile_source(&self, source: &str) -> (r: Result<String>)
        ensures
            luau_syntax_errors(source@).len() == 0 ==> (r matches Ok(s) && s@ == with_trailing_newline(
                source@,
            )),
            luau_syntax_errors(source@).len() > 0 ==> ((r matches Err(e) && e is Lex) <==> lex(
                source@,
            ) is Err),
            luau_syntax_errors(source@).len() > 0 ==> (r matches Err(e) ==> (e matches CompilerError::Lex {
                message,
            } ==> lex(source@) == Err::<Seq<TokenView>, Seq<char>>(message@))),
            luau_syntax_errors(source@).len() > 0 ==> (r matches Err(e) ==> (e matches CompilerError::Parse {
                message,
            } ==> (lex(source@) matches Ok(ts) && exists|k: int, w: Seq<char>|
                0 <= k < ts.len() && #[trigger] parse_message(w, ts[k]) == message@))),
            luau_syntax_errors(source@).len() > 0 ==> ((r matches Err(e) && (e is Lex || e is Parse))
                || exists|p: Program| #[trigger] program_compiles_to(p, r) && anchored_to_source(source@, p)),
            r matches Err(e) ==> (e is Lex || e is Parse || e is Semantic || e is Validation),
    {
        match self.validate_luau(source) {
            Ok(()) => format_luau(source),
            Err(_) => {
                let program = match parse_program(source) {
                    Ok(p) => p,
                    Err(e) => {
                        return Err(e);
                    },
                };
                let r = self.compile_program(&program);
                assert(program_compiles_to(program, r) && anchored_to_source(source@, program));
                r
            },
        }
    }

    /// Compiles a parsed XLuau program: lowers it with a new emitter, checks
    /// that the output is valid Luau and gives it its final newline.
    pub fn compile_program(&self, program: &Program) -> (r: Result<String>)
        ensures
            program_compiles_to(*program, r),
    {
        let mut emitter = Emitter::new();
        let raw = match emitter.emit_program(program) {
            Ok(raw) => raw,
            Err(e) => {
                return Err(e);
            },
        };
        match self.validate_luau(raw.as_str()) {
            Ok(()) => {},
            Err(e) => {
                return Err(e);
            },
        }
        format_luau(raw.as_str())
    }

    /// Whether a path found by the source patterns is skipped: it contains
    /// one of the configured exclusions.
    pub fn is_excluded(&self, path: &str) -> (r: bool)
        ensures
            r == excluded(path@, views(self.config.exclude@)),
    {
        let chars = chars_of(path);
        let ghost ex = views(self.config.exclude@);
        let mut i: usize = 0;
        while i < self.config.exclude.len()
            invariant
                i <= self.config.exclude@.len(),
                ex == views(self.config.exclude@),
                chars@ == path@,
                forall|k: int| 0 <= k < i ==> !contains_text(path@, #[trigger] ex[k]),
            decreases self.config.exclude.len() - i,
        {
            let pattern = chars_of(self.config.exclude[i].as_str());
            assert(ex[i as int] == pattern@);
            match find_chars(chars.as_slice(), pattern.as_slice()) {
                Some(_) => {
                    assert(contains_text(path@, ex[i as int]));
                    return true;
                },
                None => {},
            }
            i = i + 1;
        }
        false
    }
}

/// `input` relative to the directory `dir`, when it lies under it: the
/// path with `dir` and the separator after it removed (`dir` itself gives
/// the empty path; an empty `dir` leaves `input` as it is).
pub open spec fn path_under(input: Seq<char>, dir: Seq<char>) -> Option<Seq<char>> {
    if dir.len() == 0 {
        Some(input)
    } else if input == dir {
        Some(seq![])
    } else if dir.last() != '/' && has_prefix(input, dir.push('/')) {
        Some(input.subrange(dir.len() as int + 1, input.len() as int))
    } else if dir.last() == '/' && has_prefix(input, dir) {
        Some(input.subrange(dir.len() as int, input.len() as int))
    } else {
        None
    }
}

/// `rest` under the directory `base`: `rest` itself when it is absolute
/// or `base` is empty, otherwise joined with one `/`.
pub open spec fn path_joined(base: Seq<char>, rest: Seq<char>) -> Seq<char> {
    if (rest.len() > 0 && rest[0] == '/') || base.len() == 0 {
        rest
    } else if base.last() == '/' {
        base + rest
    } else {
        base.push('/') + rest
    }
}

/// `path` with the extension of its file name replaced by `.luau`, or
/// `.luau` added when the name has none; an empty file name is left alone.
pub open spec fn with_luau_extension(path: Seq<char>) -> Seq<char> {
    let start = match rfind(path, seq!['/']) {
        Some(k) => k + 1,
        None => 0,
    };
    let name = path.subrange(start, path.len() as int);
    if name.len() == 0 {
        path
    } else {
        match rfind(name, seq!['.']) {
            Some(k) => if k > 0 {
                path.subrange(0, start + k) + ".luau"@
            } else {
                path + ".luau"@
            },
            None => path + ".luau"@,
        }
    }
}

/// Where the output of `input` goes: its path relative to the base
/// directory under the root (or else relative to the root, or else as it
/// is), under the output directory under the root, with the extension
/// `.luau`: the base directory is the root of the output layout.
pub open spec fn output_path(root: Seq<char>, out_dir: Seq<char>, base_dir: Seq<char>, input: Seq<char>) -> Seq<char> {
    let relative = match path_under(input, path_joined(root, base_dir)) {
        Some(r) => r,
        None => match path_under(input, root) {
            Some(r) => r,
            None => input,
        },
    };
    with_luau_extension(path_joined(path_joined(root, out_dir), relative))
}

fn under_dir(input: &str, dir: &str) -> (r: Option<String>)
    ensures
        r matches Some(x) ==> path_under(input@, dir@) == Some(x@),
        r is None ==> path_under(input@, dir@) is None,
{
    let ic = chars_of(input);
    let dc = chars_of(dir);
    let n = dc.len();
    if n == 0 {
        return Some(string_from_chars(ic.as_slice()));
    }
    if ic.len() == n && chars_have_prefix(ic.as_slice(), dc.as_slice()) {
        assert(ic@.subrange(0, n as int) =~= ic@);
        return Some(String::new());
    }
    if dc[n - 1] != '/' {
        let mut with_sep = dc.clone();
        with_sep.push('/');
        if chars_have_prefix(ic.as_slice(), with_sep.as_slice()) {
            proof {
                if input@ == dir@ {
                    assert(false);
                }
            }
            return Some(string_from_chars(sub_chars(ic.as_slice(), n + 1, ic.len()).as_slice()));
        }
        proof {
            if input@ == dir@ {
                assert(ic@.subrange(0, n as int) =~= dc@);
            }
        }
        None
    } else {
        if chars_have_prefix(ic.as_slice(), dc.as_slice()) {
            proof {
                if input@ == dir@ {
                    assert(ic@.subrange(0, n as int) =~= ic@);
                }
            }
            return Some(string_from_chars(sub_chars(ic.as_slice(), n, ic.len()).as_slice()));
        }
        proof {
            if input@ == dir@ {
                assert(ic@.subrange(0, n as int) =~= dc@);
            }
        }
        None
    }
}

fn join_path(base: &str, rest: &str) -> (r: String)
    ensures
        r@ == path_joined(base@, rest@),
{
    let bc = chars_of(base);
    let rc = chars_of(rest);
    if (rc.len() > 0 && rc[0] == '/') || bc.len() == 0 {
        return string_from_chars(rc.as_slice());
    }
    let mut r = string_from_chars(bc.as_slice());
    if bc[bc.len() - 1] != '/' {
        push_char(&mut r, '/');
    }
    r.append(rest);
    r
}

fn set_luau_extension(path: &str) -> (r: String)
    ensures
        r@ == with_luau_extension(path@),
{
    let pc = chars_of(path);
    let slash: Vec<char> = vec!['/'];
    assert(slash@ =~= seq!['/']);
    let ss = slash.as_slice();
    let ps = pc.as_slice();
    assert(ss@ == slash@);
    let start = match rfind_chars(ps, ss) {
        Some(k) => {
            assert(ss@.len() == 1);
            assert(k + 1 <= pc@.len());
            if k < pc.len() {
                k + 1
            } else {
                k
            }
        },
        None => 0,
    };
    let name = sub_chars(pc.as_slice(), start, pc.len());
    if name.len() == 0 {
        return string_from_chars(pc.as_slice());
    }
    let dot: Vec<char> = vec!['.'];
    assert(dot@ =~= seq!['.']);
    match rfind_chars(name.as_slice(), dot.as_slice()) {
        Some(k) => {
            if k > 0 {
                let mut r = string_from_chars(sub_chars(pc.as_slice(), 0, start + k).as_slice());
                r.append(".luau");
                r
            } else {
                let mut r = string_from_chars(pc.as_slice());
                r.append(".luau");
                r
            }
        },
        None => {
            let mut r = string_from_chars(pc.as_slice());
            r.append(".luau");
            r
        },
    }
}

impl Compiler {
    /// Where the output of the source file `input` goes (see `output_path`).
    pub fn output_path_for(&self, input: &str) -> (r: String)
        ensures
            r@ == output_path(self.root@, self.config.out_dir@, self.config.base_dir@, input@),
    {
        let base = join_path(self.root.as_str(), self.config.base_dir.as_str());
        let relative = match under_dir(input, base.as_str()) {
            Some(r) => r,
            None => match under_dir(input, self.root.as_str()) {
                Some(r) => r,
                None => input.to_string(),
            },
        };
        let out = join_path(self.root.as_str(), self.config.out_dir.as_str());
        let full = join_path(out.as_str(), relative.as_str());
        set_luau_extension(full.as_str())
    }
}

/// Pure Luau stays pure Luau: source that the Luau parser accepts compiles
/// to itself, with at most a final newline added.
pub proof fn law_valid_luau_passes_through(source: Seq<char>)
    requires
        luau_syntax_errors(source).len() == 0,
    ensures
        has_prefix(with_trailing_newline(source), source),
        with_trailing_newline(source).len() <= source.len() + 1,
{
    law_trailing_newline(source);
}

} // verus!
