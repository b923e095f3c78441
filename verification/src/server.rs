//! The editor server's state and its reaction to each message: the texts
//! of the documents the editor has open, whether a shutdown was requested,
//! and which reply a message calls for. Reading and writing the messages
//! is left to the caller.

use vstd::prelude::*;

use crate::emitter::types::chars_eq;
use crate::formatter::{format_source, formatted};
use crate::text::{chars_of, views};
use crate::tooling::{document_end, full_document_range};

verus! {

/// The open documents, by URI, that a list of (URI, text) pairs holds.
pub open spec fn documents_map(docs: Seq<(String, String)>) -> Map<Seq<char>, Seq<char>>
    decreases docs.len(),
{
    if docs.len() == 0 {
        Map::empty()
    } else {
        documents_map(docs.drop_last()).insert(docs.last().0@, docs.last().1@)
    }
}

/// No URI occurs twice.
pub open spec fn distinct_uris(docs: Seq<(String, String)>) -> bool {
    forall|i: int, j: int| 0 <= i < j < docs.len() ==> docs[i].0@ != docs[j].0@
}

/// With distinct URIs, the map holds exactly the listed URIs, each with
/// its listed text.
proof fn lemma_documents_map(docs: Seq<(String, String)>)
    requires
        distinct_uris(docs),
    ensures
        forall|i: int|
            0 <= i < docs.len() ==> documents_map(docs).contains_key(#[trigger] docs[i].0@)
                && documents_map(docs)[docs[i].0@] == docs[i].1@,
        forall|k: Seq<char>|
            #[trigger] documents_map(docs).contains_key(k) ==> exists|i: int|
                0 <= i < docs.len() && docs[i].0@ == k,
    decreases docs.len(),
{
    if docs.len() > 0 {
        let d = docs.drop_last();
        assert(distinct_uris(d)) by {
            assert forall|i: int, j: int| 0 <= i < j < d.len() implies d[i].0@ != d[j].0@ by {
                assert(d[i] == docs[i] && d[j] == docs[j]);
            }
        }
        lemma_documents_map(d);
        let last = docs.len() - 1;
        assert forall|i: int| 0 <= i < docs.len() implies documents_map(docs).contains_key(
            #[trigger] docs[i].0@,
        ) && documents_map(docs)[docs[i].0@] == docs[i].1@ by {
            if i < last {
                assert(d[i] == docs[i]);
                assert(docs[i].0@ != docs[last].0@);
            }
        }
        assert forall|k: Seq<char>| #[trigger]
            documents_map(docs).contains_key(k) implies exists|i: int|
            0 <= i < docs.len() && docs[i].0@ == k by {
            if k != docs[last].0@ {
                assert(documents_map(d).contains_key(k));
                let i = choose|i: int| 0 <= i < d.len() && d[i].0@ == k;
                assert(docs[i] == d[i]);
            }
        }
    }
}

/// The editor server.
pub struct Server {
    documents: Vec<(String, String)>,
    shutdown_requested: bool,
}

impl View for Server {
    type V = (Map<Seq<char>, Seq<char>>, bool);

    /// The open documents by URI, and whether a shutdown was requested.
    closed spec fn view(&self) -> (Map<Seq<char>, Seq<char>>, bool) {
        (documents_map(self.documents@), self.shutdown_requested)
    }
}

impl Server {
    /// The server keeps each URI once.
    pub closed spec fn wf(&self) -> bool {
        distinct_uris(self.documents@)
    }

    /// A server with no open document and no shutdown requested.
    pub fn new() -> (s: Server)
        ensures
            s.wf(),
            s@ == (Map::<Seq<char>, Seq<char>>::empty(), false),
    {
        Server { documents: Vec::new(), shutdown_requested: false }
    }

    /// Where `uri` is held, if it is.
    fn position_of(&self, uri: &str) -> (r: Option<usize>)
        ensures
            r matches Some(i) ==> i < self.documents@.len() && self.documents@[i as int].0@ == uri@,
            r is None ==> forall|i: int|
                0 <= i < self.documents@.len() ==> #[trigger] self.documents@[i].0@ != uri@,
    {
        let target = chars_of(uri);
        let mut i: usize = 0;
        while i < self.documents.len()
            invariant
                i <= self.documents@.len(),
                target@ == uri@,
                forall|j: int| 0 <= j < i ==> #[trigger] self.documents@[j].0@ != uri@,
            decreases self.documents.len() - i,
        {
            let key = chars_of(self.documents[i].0.as_str());
            if chars_eq(key.as_slice(), target.as_slice()) {
                return Some(i);
            }
            i = i + 1;
        }
        None
    }

    /// The URIs of the open documents, each once.
    pub fn open_uris(&self) -> (r: Vec<String>)
        requires
            self.wf(),
        ensures
            forall|u: Seq<char>| self@.0.contains_key(u) <==> #[trigger] views(r@).contains(u),
    {
        proof {
            lemma_documents_map(self.documents@);
        }
        let mut r: Vec<String> = Vec::new();
        let mut k: usize = 0;
        while k < self.documents.len()
            invariant
                k <= self.documents@.len(),
                r@.len() == k,
                forall|i: int| 0 <= i < k ==> (#[trigger] r@[i])@ == self.documents@[i].0@,
            decreases self.documents.len() - k,
        {
            r.push(self.documents[k].0.clone());
            k = k + 1;
        }
        proof {
            assert forall|u: Seq<char>| self@.0.contains_key(u) <==> #[trigger] views(r@).contains(
                u,
            ) by {
                if self@.0.contains_key(u) {
                    let i = choose|i: int|
                        0 <= i < self.documents@.len() && self.documents@[i].0@ == u;
                    assert(views(r@)[i] == u);
                }
                if views(r@).contains(u) {
                    let i = choose|i: int| 0 <= i < views(r@).len() && views(r@)[i] == u;
                    assert(r@[i]@ == self.documents@[i].0@);
                }
            }
        }
        r
    }

    /// The text of the open document `uri`, if the editor has it open.
    pub fn document_text(&self, uri: &str) -> (r: Option<String>)
        requires
            self.wf(),
        ensures
            r is Some <==> self@.0.contains_key(uri@),
            r matches Some(t) ==> t@ == self@.0[uri@],
    {
        proof {
            lemma_documents_map(self.documents@);
        }
        match self.position_of(uri) {
            Some(i) => Some(self.documents[i].1.clone()),
            None => None,
        }
    }

    /// Records `text` as the text of `uri`, opening it if needed.
    fn store_document(&mut self, uri: &str, text: &str)
        requires
            old(self).wf(),
        ensures
            final(self).wf(),
            final(self)@ == (old(self)@.0.insert(uri@, text@), old(self)@.1),
    {
        let ghost before = self.documents@;
        proof {
            lemma_documents_map(before);
        }
        let entry = (uri.to_string(), text.to_string());
        match self.position_of(uri) {
            Some(i) => {
                self.documents.set(i, entry);
                let ghost after = self.documents@;
                assert(after == before.update(i as int, entry));
                assert(distinct_uris(after)) by {
                    assert forall|a: int, b: int| 0 <= a < b < after.len() implies after[a].0@
                        != after[b].0@ by {
                        if a != i && b != i {
                            assert(after[a] == before[a] && after[b] == before[b]);
                        } else if a == i {
                            assert(after[b] == before[b]);
                        } else {
                            assert(after[a] == before[a]);
                        }
                    }
                }
                proof {
                    lemma_documents_map(after);
                    let m = documents_map(after);
                    let expected = documents_map(before).insert(uri@, text@);
                    assert forall|k: Seq<char>| #[trigger] m.contains_key(k) implies expected.contains_key(
                        k,
                    ) && m[k] == expected[k] by {
                        let j = choose|j: int| 0 <= j < after.len() && after[j].0@ == k;
                        if j != i {
                            assert(after[j] == before[j]);
                            assert(before[j].0@ == k);
                        }
                    }
                    assert forall|k: Seq<char>| #[trigger]
                        expected.contains_key(k) implies m.contains_key(k) by {
                        if k != uri@ {
                            let j = choose|j: int| 0 <= j < before.len() && before[j].0@ == k;
                            assert(j != i);
                            assert(after[j] == before[j]);
                        } else {
                            assert(after[i as int].0@ == k);
                        }
                    }
                    assert(m =~= expected);
                }
            },
            None => {
                self.documents.push(entry);
                let ghost after = self.documents@;
                assert(after.drop_last() =~= before);
                assert(distinct_uris(after)) by {
                    assert forall|a: int, b: int| 0 <= a < b < after.len() implies after[a].0@
                        != after[b].0@ by {
                        assert(after[a] == before[a]);
                        if b < before.len() {
                            assert(after[b] == before[b]);
                        }
                    }
                }
            },
        }
    }

    /// Forgets the text of `uri`.
    fn forget_document(&mut self, uri: &str)
        requires
            old(self).wf(),
        ensures
            final(self).wf(),
            final(self)@ == (old(self)@.0.remove(uri@), old(self)@.1),
    {
        let ghost before = self.documents@;
        proof {
            lemma_documents_map(before);
        }
        match self.position_of(uri) {
            Some(i) => {
                self.documents.remove(i);
                let ghost after = self.documents@;
                assert(after =~= before.subrange(0, i as int) + before.subrange(
                    i + 1,
                    before.len() as int,
                ));
                assert forall|j: int| 0 <= j < after.len() implies #[trigger] after[j] == if j < i {
                    before[j]
                } else {
                    before[j + 1]
                } by {}
                assert(distinct_uris(after)) by {
                    assert forall|a: int, b: int| 0 <= a < b < after.len() implies after[a].0@
                        != after[b].0@ by {
                        let a2 = if a < i {
                            a
                        } else {
                            a + 1
                        };
                        let b2 = if b < i {
                            b
                        } else {
                            b + 1
                        };
                        assert(after[a] == before[a2] && after[b] == before[b2]);
                    }
                }
                proof {
                    lemma_documents_map(after);
                    let m = documents_map(after);
                    let expected = documents_map(before).remove(uri@);
                    assert forall|k: Seq<char>| #[trigger] m.contains_key(k) implies expected.contains_key(
                        k,
                    ) && m[k] == expected[k] by {
                        let j = choose|j: int| 0 <= j < after.len() && after[j].0@ == k;
                        let j2 = if j < i {
                            j
                        } else {
                            j + 1
                        };
                        assert(after[j] == before[j2]);
                        assert(j2 != i);
                    }
                    assert forall|k: Seq<char>| #[trigger]
                        expected.contains_key(k) implies m.contains_key(k) by {
                        let j = choose|j: int| 0 <= j < before.len() && before[j].0@ == k;
                        assert(j != i);
                        if j < i {
                            assert(after[j] == before[j]);
                        } else {
                            assert(after[j - 1] == before[j]);
                        }
                    }
                    assert(m =~= expected);
                }
            },
            None => {
                proof {
                    assert(!documents_map(before).contains_key(uri@)) by {
                        if documents_map(before).contains_key(uri@) {
                            let j = choose|j: int| 0 <= j < before.len() && before[j].0@ == uri@;
                            assert(before[j].0@ != uri@);
                        }
                    }
                    assert(documents_map(before).remove(uri@) =~= documents_map(before));
                }
            },
        }
    }
}

/// The kinds of message that the server tells apart by their method.
#[derive(Clone, Copy, Debug, PartialEq, Eq, Structural)]
pub enum MethodKind {
    /// `initialize`.
    Initialize,
    /// `shutdown`.
    Shutdown,
    /// `exit`.
    Exit,
    /// Notifications that need no answer: `initialized`,
    /// `workspace/didChangeConfiguration`, `workspace/didChangeWatchedFiles`.
    Ignored,
    /// `textDocument/didOpen`.
    DidOpen,
    /// `textDocument/didChange`.
    DidChange,
    /// `textDocument/didClose`.
    DidClose,
    /// `textDocument/formatting`.
    Formatting,
    /// Requests answered from the document's declarations:
    /// `textDocument/documentSymbol`, `completion`, `hover`, `definition`,
    /// `prepareRename`, `rename` and `codeAction`.
    DocumentRequest,
    /// Any other method.
    Unknown,
    /// A message without a method (a response).
    Missing,
}

/// The kind of a message with method `method`.
pub open spec fn method_kind(method: Option<Seq<char>>) -> MethodKind {
    match method {
        None => MethodKind::Missing,
        Some(m) => if m == "initialize"@ {
            MethodKind::Initialize
        } else if m == "shutdown"@ {
            MethodKind::Shutdown
        } else if m == "exit"@ {
            MethodKind::Exit
        } else if m == "initialized"@ || m == "workspace/didChangeConfiguration"@ || m
            == "workspace/didChangeWatchedFiles"@ {
            MethodKind::Ignored
        } else if m == "textDocument/didOpen"@ {
            MethodKind::DidOpen
        } else if m == "textDocument/didChange"@ {
            MethodKind::DidChange
        } else if m == "textDocument/didClose"@ {
            MethodKind::DidClose
        } else if m == "textDocument/formatting"@ {
            MethodKind::Formatting
        } else if m == "textDocument/documentSymbol"@ || m == "textDocument/completion"@ || m
            == "textDocument/hover"@ || m == "textDocument/definition"@ || m
            == "textDocument/prepareRename"@ || m == "textDocument/rename"@ || m
            == "textDocument/codeAction"@ {
            MethodKind::DocumentRequest
        } else {
            MethodKind::Unknown
        },
    }
}

/// The method text as plain values.
pub open spec fn method_view(method: Option<&str>) -> Option<Seq<char>> {
    match method {
        Some(m) => Some(m@),
        None => None,
    }
}

/// Whether `s` is the text `lit`.
fn is_text(s: &[char], lit: &str) -> (b: bool)
    ensures
        b == (s@ == lit@),
{
    let l = chars_of(lit);
    chars_eq(s, l.as_slice())
}

/// Tells the kinds of message apart by their method.
pub fn classify_method(method: Option<&str>) -> (k: MethodKind)
    ensures
        k == method_kind(method_view(method)),
{
    match method {
        None => MethodKind::Missing,
        Some(m) => {
            let c = chars_of(m);
            let s = c.as_slice();
            if is_text(s, "initialize") {
                MethodKind::Initialize
            } else if is_text(s, "shutdown") {
                MethodKind::Shutdown
            } else if is_text(s, "exit") {
                MethodKind::Exit
            } else if is_text(s, "initialized") || is_text(s, "workspace/didChangeConfiguration")
                || is_text(s, "workspace/didChangeWatchedFiles") {
                MethodKind::Ignored
            } else if is_text(s, "textDocument/didOpen") {
                MethodKind::DidOpen
            } else if is_text(s, "textDocument/didChange") {
                MethodKind::DidChange
            } else if is_text(s, "textDocument/didClose") {
                MethodKind::DidClose
            } else if is_text(s, "textDocument/formatting") {
                MethodKind::Formatting
            } else if is_text(s, "textDocument/documentSymbol") || is_text(
                s,
                "textDocument/completion",
            ) || is_text(s, "textDocument/hover") || is_text(s, "textDocument/definition")
                || is_text(s, "textDocument/prepareRename") || is_text(s, "textDocument/rename")
                || is_text(s, "textDocument/codeAction") {
                MethodKind::DocumentRequest
            } else {
                MethodKind::Unknown
            }
        },
    }
}

/// What the server sends in answer to a message.
#[derive(Debug)]
pub enum ServerAction {
    /// Nothing.
    Nothing,
    /// The answer to `initialize`: the server's capabilities.
    Capabilities,
    /// An answer whose result is `null`.
    NullResult,
    /// Stop serving.
    Exit,
    /// The diagnostics of `text`, published for `uri`.
    PublishDiagnostics { uri: String, text: String },
    /// An empty list of diagnostics, published for `uri`.
    ClearDiagnostics { uri: String },
    /// The formatting edit of the document `uri`.
    Formatting { uri: String },
    /// The answer to a request about the document `uri`.
    DocumentRequest { method: String, uri: String },
}

/// The open documents after a message of kind `kind` carrying `uri` and
/// `text`: an open or a change records the text, a close forgets the
/// document, any other message leaves them as they were.
pub open spec fn documents_after(
    docs: Map<Seq<char>, Seq<char>>,
    kind: MethodKind,
    uri: Seq<char>,
    text: Seq<char>,
) -> Map<Seq<char>, Seq<char>> {
    if kind == MethodKind::DidOpen || kind == MethodKind::DidChange {
        docs.insert(uri, text)
    } else if kind == MethodKind::DidClose {
        docs.remove(uri)
    } else {
        docs
    }
}

impl Server {
    /// Handles one message: `method` is its method, `has_id` whether it
    /// carries an id (a request, which gets an answer), `uri` and `text`
    /// the document URI and text it carries (empty when it has none; for a
    /// change, the text of its last change). Opening or changing a document
    /// records its text and publishes its diagnostics; closing forgets it
    /// and clears them; `shutdown` records the request; `exit` stops.
    pub fn handle_message(
        &mut self,
        method: Option<&str>,
        has_id: bool,
        uri: &str,
        text: &str,
    ) -> (r: ServerAction)
        requires
            old(self).wf(),
        ensures
            final(self).wf(),
            ({
                let kind = method_kind(method_view(method));
                let (docs, shut) = old(self)@;
                &&& final(self)@.0 == documents_after(docs, kind, uri@, text@)
                &&& final(self)@.1 == (shut || kind == MethodKind::Shutdown)
                &&& match kind {
                    MethodKind::Initialize => if has_id {
                        r is Capabilities
                    } else {
                        r is Nothing
                    },
                    MethodKind::Shutdown => if has_id {
                        r is NullResult
                    } else {
                        r is Nothing
                    },
                    MethodKind::Exit => r is Exit,
                    MethodKind::DidOpen | MethodKind::DidChange => r matches ServerAction::PublishDiagnostics {
                        uri: u,
                        text: t,
                    } && u@ == uri@ && t@ == text@,
                    MethodKind::DidClose => r matches ServerAction::ClearDiagnostics { uri: u } && u@
                        == uri@,
                    MethodKind::Formatting => if has_id {
                        r matches ServerAction::Formatting { uri: u } && u@ == uri@
                    } else {
                        r is Nothing
                    },
                    MethodKind::DocumentRequest => if has_id {
                        r matches ServerAction::DocumentRequest { method: m, uri: u } && Some(m@)
                            == method_view(method) && u@ == uri@
                    } else {
                        r is Nothing
                    },
                    MethodKind::Unknown => if has_id {
                        r is NullResult
                    } else {
                        r is Nothing
                    },
                    MethodKind::Ignored | MethodKind::Missing => r is Nothing,
                }
            }),
    {
        match classify_method(method) {
            MethodKind::Initialize => if has_id {
                ServerAction::Capabilities
            } else {
                ServerAction::Nothing
            },
            MethodKind::Shutdown => {
                self.shutdown_requested = true;
                if has_id {
                    ServerAction::NullResult
                } else {
                    ServerAction::Nothing
                }
            },
            MethodKind::Exit => ServerAction::Exit,
            MethodKind::Ignored | MethodKind::Missing => ServerAction::Nothing,
            MethodKind::DidOpen | MethodKind::DidChange => {
                self.store_document(uri, text);
                ServerAction::PublishDiagnostics { uri: uri.to_string(), text: text.to_string() }
            },
            MethodKind::DidClose => {
                self.forget_document(uri);
                ServerAction::ClearDiagnostics { uri: uri.to_string() }
            },
            MethodKind::Formatting => if has_id {
                ServerAction::Formatting { uri: uri.to_string() }
            } else {
                ServerAction::Nothing
            },
            MethodKind::DocumentRequest => {
                if has_id {
                    let m = match method {
                        Some(m) => m.to_string(),
                        None => String::new(),
                    };
                    ServerAction::DocumentRequest { method: m, uri: uri.to_string() }
                } else {
                    ServerAction::Nothing
                }
            },
            MethodKind::Unknown => if has_id {
                ServerAction::NullResult
            } else {
                ServerAction::Nothing
            },
        }
    }

    /// Whether a shutdown was requested.
    pub fn shutdown_requested(&self) -> (b: bool)
        ensures
            b == self@.1,
    {
        self.shutdown_requested
    }
}

/// The edit that formats a whole document: the end of the document, where
/// the replaced range ends, and the formatted text.
pub fn formatting_edit(text: &str) -> (r: ((usize, usize), String))
    ensures
        (r.0.0 as int, r.0.1 as int) == document_end(text@),
        r.1@ == formatted(text@),
{
    (full_document_range(text), format_source(text))
}

/// What a read of the documents gives back after a message: after an open
/// or a change of `uri`, the text it carried; after a close, nothing; every
/// other document, and every document after any other kind of message, as
/// before.
pub proof fn law_documents_read_back(
    docs: Map<Seq<char>, Seq<char>>,
    kind: MethodKind,
    uri: Seq<char>,
    text: Seq<char>,
    other: Seq<char>,
)
    requires
        other != uri,
    ensures
        (kind == MethodKind::DidOpen || kind == MethodKind::DidChange) ==> documents_after(
            docs,
            kind,
            uri,
            text,
        ).contains_key(uri) && documents_after(docs, kind, uri, text)[uri] == text,
        kind == MethodKind::DidClose ==> !documents_after(docs, kind, uri, text).contains_key(uri),
        documents_after(docs, kind, uri, text).contains_key(other) == docs.contains_key(other),
        docs.contains_key(other) ==> documents_after(docs, kind, uri, text)[other] == docs[other],
        !(kind == MethodKind::DidOpen || kind == MethodKind::DidChange || kind
            == MethodKind::DidClose) ==> documents_after(docs, kind, uri, text) == docs,
{
}

} // verus!
