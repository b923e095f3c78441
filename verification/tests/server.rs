use xluau::server::{classify_method, formatting_edit, MethodKind, Server, ServerAction};

const URI: &str = "file:///project/src/main.xl";

#[test]
fn new_server_has_no_documents() {
    let server = Server::new();
    assert!(server.document_text(URI).is_none());
    assert!(!server.shutdown_requested());
}

#[test]
fn opened_document_is_read_back_and_diagnosed() {
    let mut server = Server::new();
    let action = server.handle_message(Some("textDocument/didOpen"), false, URI, "local x = 1");
    match action {
        ServerAction::PublishDiagnostics { uri, text } => {
            assert_eq!(uri, URI);
            assert_eq!(text, "local x = 1");
        }
        other => panic!("unexpected action {other:?}"),
    }
    assert_eq!(server.document_text(URI).as_deref(), Some("local x = 1"));
    assert!(server.document_text("file:///other.xl").is_none());
}

#[test]
fn changed_document_replaces_its_text() {
    let mut server = Server::new();
    server.handle_message(Some("textDocument/didOpen"), false, URI, "local x = 1");
    server.handle_message(Some("textDocument/didOpen"), false, "file:///b.xl", "b");
    let action = server.handle_message(Some("textDocument/didChange"), false, URI, "local x = 2");
    assert!(matches!(action, ServerAction::PublishDiagnostics { .. }));
    assert_eq!(server.document_text(URI).as_deref(), Some("local x = 2"));
    assert_eq!(server.document_text("file:///b.xl").as_deref(), Some("b"));
}

#[test]
fn closed_document_is_forgotten_and_cleared() {
    let mut server = Server::new();
    server.handle_message(Some("textDocument/didOpen"), false, URI, "x");
    server.handle_message(Some("textDocument/didOpen"), false, "file:///b.xl", "b");
    let action = server.handle_message(Some("textDocument/didClose"), false, URI, "");
    match action {
        ServerAction::ClearDiagnostics { uri } => assert_eq!(uri, URI),
        other => panic!("unexpected action {other:?}"),
    }
    assert!(server.document_text(URI).is_none());
    assert_eq!(server.document_text("file:///b.xl").as_deref(), Some("b"));
}

#[test]
fn lifecycle_messages_are_answered() {
    let mut server = Server::new();
    assert!(matches!(
        server.handle_message(Some("initialize"), true, "", ""),
        ServerAction::Capabilities
    ));
    assert!(matches!(
        server.handle_message(Some("initialize"), false, "", ""),
        ServerAction::Nothing
    ));
    assert!(matches!(
        server.handle_message(Some("initialized"), false, "", ""),
        ServerAction::Nothing
    ));
    assert!(matches!(
        server.handle_message(Some("shutdown"), true, "", ""),
        ServerAction::NullResult
    ));
    assert!(server.shutdown_requested());
    assert!(matches!(
        server.handle_message(Some("exit"), false, "", ""),
        ServerAction::Exit
    ));
}

#[test]
fn unknown_requests_get_a_null_answer() {
    let mut server = Server::new();
    assert!(matches!(
        server.handle_message(Some("$/cancelRequest"), true, "", ""),
        ServerAction::NullResult
    ));
    assert!(matches!(
        server.handle_message(Some("$/cancelRequest"), false, "", ""),
        ServerAction::Nothing
    ));
    assert!(matches!(
        server.handle_message(None, true, "", ""),
        ServerAction::Nothing
    ));
}

#[test]
fn document_requests_carry_method_and_uri() {
    let mut server = Server::new();
    match server.handle_message(Some("textDocument/hover"), true, URI, "") {
        ServerAction::DocumentRequest { method, uri } => {
            assert_eq!(method, "textDocument/hover");
            assert_eq!(uri, URI);
        }
        other => panic!("unexpected action {other:?}"),
    }
    match server.handle_message(Some("textDocument/formatting"), true, URI, "") {
        ServerAction::Formatting { uri } => assert_eq!(uri, URI),
        other => panic!("unexpected action {other:?}"),
    }
    assert!(matches!(
        server.handle_message(Some("textDocument/rename"), false, URI, ""),
        ServerAction::Nothing
    ));
}

#[test]
fn classifies_methods() {
    assert_eq!(classify_method(Some("textDocument/codeAction")), MethodKind::DocumentRequest);
    assert_eq!(
        classify_method(Some("workspace/didChangeWatchedFiles")),
        MethodKind::Ignored
    );
    assert_eq!(classify_method(Some("textDocument/didClose")), MethodKind::DidClose);
    assert_eq!(classify_method(Some("initialize ")), MethodKind::Unknown);
    assert_eq!(classify_method(None), MethodKind::Missing);
}

#[test]
fn formatting_edit_covers_the_whole_document() {
    let (end, text) = formatting_edit("if x then\nprint(1)\nend");
    assert_eq!(end, (2, 3));
    assert_eq!(text, "if x then\n    print(1)\nend\n");
}

#[test]
fn open_uris_lists_each_open_document_once() {
    let mut server = Server::new();
    server.handle_message(Some("textDocument/didOpen"), false, "file:///a.xl", "x");
    server.handle_message(Some("textDocument/didOpen"), false, "file:///b.xl", "y");
    server.handle_message(Some("textDocument/didChange"), false, "file:///a.xl", "z");
    server.handle_message(Some("textDocument/didClose"), false, "file:///b.xl", "");
    assert_eq!(server.open_uris(), vec!["file:///a.xl".to_string()]);
}
