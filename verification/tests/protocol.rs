use scope_lsp::analysis::diagnostics::{Diagnostic, DiagnosticSeverity, Position, Range};
use scope_lsp::analysis::run_analysis;
use scope_lsp::analysis::scope::ScopeStack;
use scope_lsp::protocol::{
    decode_request, encode_notification, respond, Document, Notification, Request,
};

fn did_open(text: &str) -> String {
    let mut document = serde_json::Map::new();
    document.insert("uri".to_string(), serde_json::Value::from("file:///a.txt"));
    document.insert("languageId".to_string(), serde_json::Value::from("toy"));
    document.insert("version".to_string(), serde_json::Value::from(1u32));
    document.insert("text".to_string(), serde_json::Value::from(text));
    let mut params = serde_json::Map::new();
    params.insert("textDocument".to_string(), serde_json::Value::Object(document));
    let mut message = serde_json::Map::new();
    message.insert("method".to_string(), serde_json::Value::from("textDocument/didOpen"));
    message.insert("params".to_string(), serde_json::Value::Object(params));
    serde_json::Value::Object(message).to_string()
}

fn error_message(message: &str) -> String {
    match decode_request(message) {
        Err(diagnostic) => {
            assert_eq!(diagnostic.range, Range::default());
            assert_eq!(diagnostic.severity, DiagnosticSeverity::Error);
            assert_eq!(diagnostic.source.as_deref(), Some("custom-lsp"));
            diagnostic.message.unwrap()
        }
        Ok(request) => panic!("an error was expected, not {:?}", request),
    }
}

#[test]
fn decode_initialize() {
    let request = decode_request("{\"method\":\"initialize\",\"params\":{\"capabilities\":{}}}");
    assert!(matches!(request, Ok(Request::Initialize)));
    let request = decode_request("{\"method\":\"initialize\",\"params\":{\"capabilities\":null}}");
    assert!(matches!(request, Ok(Request::Initialize)));
}

#[test]
fn decode_did_open() {
    match decode_request(&did_open("let x -> x;")) {
        Ok(Request::DidOpen(document)) => {
            assert_eq!(document.uri, "file:///a.txt");
            assert_eq!(document.language_id, "toy");
            assert_eq!(document.version, 1);
            assert_eq!(document.text, "let x -> x;");
        }
        other => panic!("a document was expected, not {:?}", other),
    }
}

#[test]
fn decode_other_method() {
    match decode_request("{\"method\":\"shutdown\",\"params\":null}") {
        Ok(Request::Other(method)) => assert_eq!(method, "shutdown"),
        other => panic!("another method was expected, not {:?}", other),
    }
}

#[test]
fn decode_rejects_what_is_no_json() {
    assert_eq!(
        error_message("{\"method\":"),
        "Invalid JSON: EOF while parsing a value at line 1 column 10"
    );
    assert_eq!(error_message(""), "Invalid JSON: EOF while parsing a value at line 1 column 0");
    assert_eq!(error_message("{} x"), "Invalid JSON: trailing characters at line 1 column 4");
}

#[test]
fn decode_rejects_a_message_without_method_or_params() {
    assert_eq!(error_message("{}"), "Missing 'method' field");
    assert_eq!(error_message("[1,2]"), "Missing 'method' field");
    assert_eq!(error_message("{\"method\":5,\"params\":{}}"), "Missing 'method' field");
    assert_eq!(error_message("{\"method\":\"initialize\"}"), "Missing 'params' field");
    assert_eq!(error_message("{\"method\":\"unheard\"}"), "Missing 'params' field");
}

#[test]
fn decode_rejects_parameters_that_do_not_fit() {
    assert_eq!(
        error_message("{\"method\":\"initialize\",\"params\":{}}"),
        "Invalid initialize params: missing field `capabilities`"
    );
    assert_eq!(
        error_message("{\"method\":\"textDocument/didOpen\",\"params\":{}}"),
        "Invalid didOpen params: missing field `textDocument`"
    );
    assert_eq!(
        error_message("{\"method\":\"textDocument/didOpen\",\"params\":{\"textDocument\":{}}}"),
        "Invalid didOpen params: missing field `uri`"
    );
    let wrong = |document: &str| {
        error_message(&format!(
            "{{\"method\":\"textDocument/didOpen\",\"params\":{{\"textDocument\":{}}}}}",
            document
        ))
    };
    assert_eq!(
        wrong("{\"uri\":1}"),
        "Invalid didOpen params: expected a string in field `uri`"
    );
    assert_eq!(wrong("{\"uri\":\"u\"}"), "Invalid didOpen params: missing field `languageId`");
    assert_eq!(
        wrong("{\"uri\":\"u\",\"languageId\":\"l\"}"),
        "Invalid didOpen params: missing field `version`"
    );
    for version in ["-1", "1.5", "\"1\"", "4294967296", "null"] {
        assert_eq!(
            wrong(&format!("{{\"uri\":\"u\",\"languageId\":\"l\",\"version\":{}}}", version)),
            "Invalid didOpen params: expected an unsigned 32-bit integer in field `version`"
        );
    }
    assert_eq!(
        wrong("{\"uri\":\"u\",\"languageId\":\"l\",\"version\":4294967295}"),
        "Invalid didOpen params: missing field `text`"
    );
    assert_eq!(
        wrong("{\"uri\":\"u\",\"languageId\":\"l\",\"version\":0,\"text\":[]}"),
        "Invalid didOpen params: expected a string in field `text`"
    );
}

#[test]
fn respond_publishes_the_findings_on_a_document() {
    let mut stack = ScopeStack::new();
    let document = Document {
        uri: "file:///b".to_string(),
        language_id: "toy".to_string(),
        version: 3,
        text: "y;".to_string(),
    };
    let notification = respond(Request::DidOpen(document), &mut stack).unwrap();
    assert_eq!(notification.uri, "file:///b");
    assert_eq!(notification.diagnostics.len(), 1);
    assert_eq!(notification.diagnostics[0].message.as_deref(), Some("Unknown identifier: y"));
}

#[test]
fn respond_publishes_an_empty_list_too() {
    let mut stack = ScopeStack::new();
    let document = Document {
        uri: "file:///c".to_string(),
        language_id: "toy".to_string(),
        version: 1,
        text: "let f a -> a;".to_string(),
    };
    let notification = respond(Request::DidOpen(document), &mut stack).unwrap();
    assert!(notification.diagnostics.is_empty());
    assert!(stack.contains("f"));
}

#[test]
fn respond_is_silent_on_other_requests() {
    let mut stack = ScopeStack::new();
    assert!(respond(Request::Initialize, &mut stack).is_none());
    assert!(respond(Request::Other("shutdown".to_string()), &mut stack).is_none());
    assert_eq!(stack.nesting(), 0);
}

#[test]
fn encode_notification_without_findings() {
    let notification = Notification { uri: "file:///a".to_string(), diagnostics: Vec::new() };
    assert_eq!(
        encode_notification(&notification),
        "{\"jsonrpc\":\"2.0\",\"method\":\"textDocument/publishDiagnostics\",\"params\":{\"uri\":\"file:///a\",\"diagnostics\":[]}}"
    );
}

#[test]
fn encode_notification_with_findings() {
    let first = Diagnostic {
        range: Range {
            start: Position { line: 1, character: 2 },
            end: Position { line: 3, character: 40 },
        },
        severity: DiagnosticSeverity::Warning,
        message: Some("say \"hi\"\n".to_string()),
        source: None,
    };
    let second = Diagnostic {
        range: Range::default(),
        severity: DiagnosticSeverity::Hint,
        message: None,
        source: Some("custom-lsp".to_string()),
    };
    let notification =
        Notification { uri: "u".to_string(), diagnostics: vec![first, second] };
    assert_eq!(
        encode_notification(&notification),
        "{\"jsonrpc\":\"2.0\",\"method\":\"textDocument/publishDiagnostics\",\"params\":{\"uri\":\"u\",\"diagnostics\":[\
{\"range\":{\"start\":{\"line\":1,\"character\":2},\"end\":{\"line\":3,\"character\":40}},\"severity\":2,\"message\":\"say \\\"hi\\\"\\n\",\"source\":null},\
{\"range\":{\"start\":{\"line\":0,\"character\":0},\"end\":{\"line\":0,\"character\":0}},\"severity\":4,\"message\":null,\"source\":\"custom-lsp\"}]}}"
    );
}

fn escaped(c: char) -> String {
    match c {
        '"' => "\\\"".to_string(),
        '\\' => "\\\\".to_string(),
        '\u{8}' => "\\b".to_string(),
        '\t' => "\\t".to_string(),
        '\n' => "\\n".to_string(),
        '\u{c}' => "\\f".to_string(),
        '\r' => "\\r".to_string(),
        c if (c as u32) < 32 => format!("\\u00{:02x}", c as u32),
        c => c.to_string(),
    }
}

#[test]
fn every_character_is_written_as_json_says() {
    let mut uri = String::new();
    let mut expected = String::from(
        "{\"jsonrpc\":\"2.0\",\"method\":\"textDocument/publishDiagnostics\",\"params\":{\"uri\":\"",
    );
    for code in (0u32..0x3000).chain([0xd7ff, 0xe000, 0xffff, 0x10000, 0x1F600, 0x10ffff]) {
        if let Some(c) = char::from_u32(code) {
            uri.push(c);
            expected.push_str(&escaped(c));
        }
    }
    expected.push_str("\",\"diagnostics\":[]}}");
    let notification = Notification { uri, diagnostics: Vec::new() };
    assert_eq!(encode_notification(&notification), expected);
}

#[test]
fn encoded_notification_is_json() {
    let mut stack = ScopeStack::new();
    let reply = run_analysis(did_open("let x -> \"a\tb\"; y;"), &mut stack).unwrap();
    let value: serde_json::Value = serde_json::from_str(&reply).unwrap();
    assert_eq!(value["jsonrpc"], "2.0");
    assert_eq!(value["method"], "textDocument/publishDiagnostics");
    assert_eq!(value["params"]["uri"], "file:///a.txt");
    let diagnostics = value["params"]["diagnostics"].as_array().unwrap();
    assert_eq!(diagnostics.len(), 1);
    assert_eq!(diagnostics[0]["message"], "Unknown identifier: y");
    assert_eq!(diagnostics[0]["severity"], 1);
    assert_eq!(diagnostics[0]["source"], "custom-lsp");
    assert_eq!(diagnostics[0]["range"]["start"]["line"], 1);
    assert_eq!(diagnostics[0]["range"]["start"]["character"], 14);
    assert_eq!(diagnostics[0]["range"]["end"]["line"], 1);
    assert_eq!(diagnostics[0]["range"]["end"]["character"], 14);
}

#[test]
fn run_analysis_answers_every_document() {
    let mut stack = ScopeStack::new();
    let reply = run_analysis(did_open("let f a -> a;"), &mut stack);
    assert_eq!(
        reply.as_deref(),
        Some("{\"jsonrpc\":\"2.0\",\"method\":\"textDocument/publishDiagnostics\",\"params\":{\"uri\":\"file:///a.txt\",\"diagnostics\":[]}}")
    );
}

#[test]
fn run_analysis_keeps_the_scopes_between_documents() {
    let mut stack = ScopeStack::new();
    run_analysis(did_open("let f a -> a;"), &mut stack);
    let reply = run_analysis(did_open("let f a -> a;"), &mut stack).unwrap();
    let value: serde_json::Value = serde_json::from_str(&reply).unwrap();
    assert_eq!(value["params"]["diagnostics"][0]["message"], "Duplicate identifier: f");
}

#[test]
fn run_analysis_is_silent_on_other_methods() {
    let mut stack = ScopeStack::new();
    let initialize = "{\"method\":\"initialize\",\"params\":{\"capabilities\":{}}}".to_string();
    assert_eq!(run_analysis(initialize, &mut stack), None);
    let other = "{\"method\":\"exit\",\"params\":{}}".to_string();
    assert_eq!(run_analysis(other, &mut stack), None);
}

#[test]
fn run_analysis_answers_a_message_that_cannot_be_read() {
    let mut stack = ScopeStack::new();
    let reply = run_analysis("{\"params\":{}}".to_string(), &mut stack);
    assert_eq!(
        reply.as_deref(),
        Some("{\"jsonrpc\":\"2.0\",\"method\":\"textDocument/publishDiagnostics\",\"params\":{\"uri\":\"file://unknown\",\"diagnostics\":[{\"range\":{\"start\":{\"line\":0,\"character\":0},\"end\":{\"line\":0,\"character\":0}},\"severity\":1,\"message\":\"Missing 'method' field\",\"source\":\"custom-lsp\"}]}}")
    );
    let reply = run_analysis("not json".to_string(), &mut stack).unwrap();
    let value: serde_json::Value = serde_json::from_str(&reply).unwrap();
    assert_eq!(value["params"]["uri"], "file://unknown");
    assert_eq!(
        value["params"]["diagnostics"][0]["message"],
        "Invalid JSON: expected ident at line 1 column 2"
    );
    assert_eq!(stack.nesting(), 0);
}
