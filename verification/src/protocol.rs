//! Messages: what an editor sends, and what it is sent back.
//!
//! A message is a JSON object with a `method` and its `params`. Two methods
//! are known. `initialize` asks for nothing. `textDocument/didOpen` brings a
//! document; its text is analysed and the findings go back in a
//! `textDocument/publishDiagnostics` notification.

use crate::analysis::diagnostics::{
    diagnostic_views, severity_code, synthetic, text_view, Diagnostic, DiagnosticView, Position,
    Range,
};
use crate::analysis::lexer::lex_spec;
use crate::analysis::scope::ScopeStack;
use crate::analysis::{check_spec, find_unknown_words};
use crate::decimal::{decimal_chars, decimal_text};
use crate::json::{
    error_text, json_error_text, json_member, json_parsed, json_string, json_text, json_unsigned,
    member, parse, quote, text, unsigned,
};
use vstd::prelude::*;
use vstd::string::*;

verus! {

/// A document as an editor sends it.
#[derive(Clone, Debug)]
pub struct Document {
    pub uri: String,
    pub language_id: String,
    pub version: u32,
    pub text: String,
}

/// What a document is, with its texts as sequences of characters.
pub struct DocumentView {
    pub uri: Seq<char>,
    pub language_id: Seq<char>,
    pub version: u32,
    pub text: Seq<char>,
}

impl View for Document {
    type V = DocumentView;

    open spec fn view(&self) -> DocumentView {
        DocumentView {
            uri: self.uri@,
            language_id: self.language_id@,
            version: self.version,
            text: self.text@,
        }
    }
}

/// What an editor asks for.
#[derive(Clone, Debug)]
pub enum Request {
    /// `initialize`.
    Initialize,
    /// `textDocument/didOpen`, with the document.
    DidOpen(Document),
    /// A method that this library does not know, by its name.
    Other(String),
}

/// What a request is, with its texts as sequences of characters.
pub enum RequestView {
    Initialize,
    DidOpen(DocumentView),
    Other(Seq<char>),
}

impl View for Request {
    type V = RequestView;

    open spec fn view(&self) -> RequestView {
        match self {
            Request::Initialize => RequestView::Initialize,
            Request::DidOpen(document) => RequestView::DidOpen(document@),
            Request::Other(method) => RequestView::Other(method@),
        }
    }
}

/// The findings on one document, as they are published.
#[derive(Clone, Debug)]
pub struct Notification {
    pub uri: String,
    pub diagnostics: Vec<Diagnostic>,
}

/// What a notification is, with its texts as sequences of characters.
pub struct NotificationView {
    pub uri: Seq<char>,
    pub diagnostics: Seq<DiagnosticView>,
}

impl View for Notification {
    type V = NotificationView;

    open spec fn view(&self) -> NotificationView {
        NotificationView { uri: self.uri@, diagnostics: diagnostic_views(self.diagnostics@) }
    }
}

pub open spec fn missing_field(name: Seq<char>) -> Seq<char> {
    "missing field `"@ + name + "`"@
}

pub open spec fn not_a_string(name: Seq<char>) -> Seq<char> {
    "expected a string in field `"@ + name + "`"@
}

pub open spec fn not_a_version() -> Seq<char> {
    "expected an unsigned 32-bit integer in field `version`"@
}

/// The text under `name` in a JSON object, or what is wrong with it.
pub open spec fn text_member(object: serde_json::Value, name: Seq<char>) -> Result<
    Seq<char>,
    Seq<char>,
> {
    match json_member(object, name) {
        None => Err(missing_field(name)),
        Some(value) => match json_text(value) {
            None => Err(not_a_string(name)),
            Some(found) => Ok(found),
        },
    }
}

/// The version of a document in a JSON object, or what is wrong with it.
pub open spec fn version_member(object: serde_json::Value) -> Result<u32, Seq<char>> {
    match json_member(object, "version"@) {
        None => Err(missing_field("version"@)),
        Some(value) => match json_unsigned(value) {
            Some(number) => if number <= u32::MAX {
                Ok(number as u32)
            } else {
                Err(not_a_version())
            },
            None => Err(not_a_version()),
        },
    }
}

/// The document in the parameters of `textDocument/didOpen`, or what is wrong
/// with them: the first of `textDocument`, `uri`, `languageId`, `version` and
/// `text` that is missing or of the wrong kind.
pub open spec fn document_of(params: serde_json::Value) -> Result<DocumentView, Seq<char>> {
    match json_member(params, "textDocument"@) {
        None => Err(missing_field("textDocument"@)),
        Some(document) => match text_member(document, "uri"@) {
            Err(wrong) => Err(wrong),
            Ok(uri) => match text_member(document, "languageId"@) {
                Err(wrong) => Err(wrong),
                Ok(language_id) => match version_member(document) {
                    Err(wrong) => Err(wrong),
                    Ok(version) => match text_member(document, "text"@) {
                        Err(wrong) => Err(wrong),
                        Ok(text) => Ok(DocumentView { uri, language_id, version, text }),
                    },
                },
            },
        },
    }
}

/// The request that a method and its parameters make, or the error that
/// stands for parameters that do not fit the method.
pub open spec fn request_of(method: Seq<char>, params: serde_json::Value) -> Result<
    RequestView,
    DiagnosticView,
> {
    if method == "initialize"@ {
        if json_member(params, "capabilities"@) is Some {
            Ok(RequestView::Initialize)
        } else {
            Err(synthetic("Invalid initialize params: "@ + missing_field("capabilities"@)))
        }
    } else if method == "textDocument/didOpen"@ {
        match document_of(params) {
            Ok(document) => Ok(RequestView::DidOpen(document)),
            Err(wrong) => Err(synthetic("Invalid didOpen params: "@ + wrong)),
        }
    } else {
        Ok(RequestView::Other(method))
    }
}

/// The request that a message makes, or the error that stands for a message
/// that cannot be read: one that is no JSON, has no `method` that is a
/// string, has no `params`, or has parameters that do not fit its method.
pub open spec fn decoded(message: Seq<char>) -> Result<RequestView, DiagnosticView> {
    match json_parsed(message) {
        Err(error) => Err(synthetic("Invalid JSON: "@ + json_error_text(error))),
        Ok(value) => match json_member(value, "method"@) {
            None => Err(synthetic("Missing 'method' field"@)),
            Some(named) => match json_text(named) {
                None => Err(synthetic("Missing 'method' field"@)),
                Some(method) => match json_member(value, "params"@) {
                    None => Err(synthetic("Missing 'params' field"@)),
                    Some(params) => request_of(method, params),
                },
            },
        },
    }
}

/// A `Result` of two texts by their characters.
pub open spec fn text_result(result: Result<String, String>) -> Result<Seq<char>, Seq<char>> {
    match result {
        Ok(found) => Ok(found@),
        Err(wrong) => Err(wrong@),
    }
}

fn text_field(object: &serde_json::Value, name: &str) -> (result: Result<String, String>)
    ensures
        text_result(result) == text_member(*object, name@),
{
    match member(object, name) {
        None => Err("missing field `".to_owned().concat(name).concat("`")),
        Some(value) => match text(value) {
            None => Err("expected a string in field `".to_owned().concat(name).concat("`")),
            Some(found) => Ok(found.to_owned()),
        },
    }
}

fn version_field(object: &serde_json::Value) -> (result: Result<u32, String>)
    ensures
        match result {
            Ok(version) => version_member(*object) == Ok::<u32, Seq<char>>(version),
            Err(wrong) => version_member(*object) == Err::<u32, Seq<char>>(wrong@),
        },
{
    match member(object, "version") {
        None => Err("missing field `".to_owned().concat("version").concat("`")),
        Some(value) => match unsigned(value) {
            Some(number) => if number <= u32::MAX as u64 {
                Ok(number as u32)
            } else {
                Err("expected an unsigned 32-bit integer in field `version`".to_owned())
            },
            None => Err("expected an unsigned 32-bit integer in field `version`".to_owned()),
        },
    }
}

fn document_in(params: &serde_json::Value) -> (result: Result<Document, String>)
    ensures
        match result {
            Ok(document) => document_of(*params) == Ok::<DocumentView, Seq<char>>(document@),
            Err(wrong) => document_of(*params) == Err::<DocumentView, Seq<char>>(wrong@),
        },
{
    let document = match member(params, "textDocument") {
        None => {
            return Err("missing field `".to_owned().concat("textDocument").concat("`"));
        },
        Some(document) => document,
    };
    let uri = match text_field(document, "uri") {
        Err(wrong) => {
            return Err(wrong);
        },
        Ok(uri) => uri,
    };
    let language_id = match text_field(document, "languageId") {
        Err(wrong) => {
            return Err(wrong);
        },
        Ok(language_id) => language_id,
    };
    let version = match version_field(document) {
        Err(wrong) => {
            return Err(wrong);
        },
        Ok(version) => version,
    };
    let text = match text_field(document, "text") {
        Err(wrong) => {
            return Err(wrong);
        },
        Ok(text) => text,
    };
    Ok(Document { uri, language_id, version, text })
}

/// The view of what decoding gives.
pub open spec fn request_result(result: Result<Request, Diagnostic>) -> Result<
    RequestView,
    DiagnosticView,
> {
    match result {
        Ok(request) => Ok(request@),
        Err(diagnostic) => Err(diagnostic@),
    }
}

/// Reads a message. Gives the request that it makes, or, for a message that
/// cannot be read, the error that stands for it: an error without a place
/// whose message says what is wrong.
pub fn decode_request(message: &str) -> (result: Result<Request, Diagnostic>)
    ensures
        request_result(result) == decoded(message@),
{
    let value = match parse(message) {
        Err(error) => {
            let said = error_text(&error);
            return Err(Diagnostic::synthetic("Invalid JSON: ".to_owned().concat(said.as_str())));
        },
        Ok(value) => value,
    };
    let method = match member(&value, "method") {
        None => {
            return Err(Diagnostic::synthetic("Missing 'method' field".to_owned()));
        },
        Some(named) => match text(named) {
            None => {
                return Err(Diagnostic::synthetic("Missing 'method' field".to_owned()));
            },
            Some(method) => method,
        },
    };
    let params = match member(&value, "params") {
        None => {
            return Err(Diagnostic::synthetic("Missing 'params' field".to_owned()));
        },
        Some(params) => params,
    };
    let method = method.to_owned();
    if method == "initialize".to_owned() {
        match member(params, "capabilities") {
            Some(_) => Ok(Request::Initialize),
            None => Err(
                Diagnostic::synthetic(
                    "Invalid initialize params: ".to_owned().concat(
                        "missing field `".to_owned().concat("capabilities").concat("`").as_str(),
                    ),
                ),
            ),
        }
    } else if method == "textDocument/didOpen".to_owned() {
        match document_in(params) {
            Ok(document) => Ok(Request::DidOpen(document)),
            Err(wrong) => Err(
                Diagnostic::synthetic("Invalid didOpen params: ".to_owned().concat(wrong.as_str())),
            ),
        }
    } else {
        Ok(Request::Other(method))
    }
}

/// What goes back for a request: the findings on the document that was
/// opened; nothing for any other request.
pub open spec fn response_to(request: RequestView, scopes: Seq<Set<Seq<char>>>) -> Option<
    NotificationView,
> {
    match request {
        RequestView::DidOpen(document) => Some(
            NotificationView {
                uri: document.uri,
                diagnostics: check_spec(lex_spec(document.text), scopes).diagnostics,
            },
        ),
        _ => None,
    }
}

/// The scopes behind a request: those that checking the document that was
/// opened leaves; for any other request, the scopes as they were.
pub open spec fn scopes_after(request: RequestView, scopes: Seq<Set<Seq<char>>>) -> Seq<
    Set<Seq<char>>,
> {
    match request {
        RequestView::DidOpen(document) => check_spec(lex_spec(document.text), scopes).scopes,
        _ => scopes,
    }
}

/// A notification that may be absent, by its view.
pub open spec fn notification_view(notification: Option<Notification>) -> Option<
    NotificationView,
> {
    match notification {
        Some(n) => Some(n@),
        None => None,
    }
}

/// Serves a request. A document that was opened is tokenized and checked
/// against `scope_stack`, which keeps what the document bound; its findings
/// are returned for publishing, be there any or none. Any other request is
/// served by doing nothing.
pub fn respond(request: Request, scope_stack: &mut ScopeStack) -> (notification: Option<
    Notification,
>)
    ensures
        notification_view(notification) == response_to(request@, old(scope_stack)@),
        final(scope_stack)@ == scopes_after(request@, old(scope_stack)@),
        notification is Some <==> request is DidOpen,
{
    match request {
        Request::DidOpen(document) => {
            let diagnostics = find_unknown_words(&document.text, scope_stack);
            Some(Notification { uri: document.uri, diagnostics })
        },
        _ => None,
    }
}

/// The JSON of a number.
pub open spec fn number_text(n: u32) -> Seq<char> {
    decimal_chars(n as nat)
}

/// The JSON of a text that may be absent: its string literal, or `null`.
pub open spec fn optional_text(text: Option<Seq<char>>) -> Seq<char> {
    match text {
        Some(s) => json_string(s),
        None => "null"@,
    }
}

/// The JSON of a position.
pub open spec fn position_text(position: Position) -> Seq<char> {
    "{\"line\":"@ + number_text(position.line) + ",\"character\":"@ + number_text(
        position.character,
    ) + "}"@
}

/// The JSON of a range.
pub open spec fn range_text(range: Range) -> Seq<char> {
    "{\"start\":"@ + position_text(range.start) + ",\"end\":"@ + position_text(range.end) + "}"@
}

/// The JSON of a diagnostic: its range, the number of its severity, its
/// message and its source.
pub open spec fn diagnostic_text(diagnostic: DiagnosticView) -> Seq<char> {
    "{\"range\":"@ + range_text(diagnostic.range) + ",\"severity\":"@ + number_text(
        severity_code(diagnostic.severity),
    ) + ",\"message\":"@ + optional_text(diagnostic.message) + ",\"source\":"@ + optional_text(
        diagnostic.source,
    ) + "}"@
}

/// The JSON of diagnostics in a row, commas between them.
pub open spec fn diagnostics_text(diagnostics: Seq<DiagnosticView>) -> Seq<char>
    decreases diagnostics.len(),
{
    if diagnostics.len() == 0 {
        seq![]
    } else if diagnostics.len() == 1 {
        diagnostic_text(diagnostics[0])
    } else {
        diagnostics_text(diagnostics.drop_last()) + ","@ + diagnostic_text(diagnostics.last())
    }
}

/// The JSON of a notification, without any blank space.
pub open spec fn notification_text(notification: NotificationView) -> Seq<char> {
    "{\"jsonrpc\":\"2.0\",\"method\":\"textDocument/publishDiagnostics\",\"params\":{\"uri\":"@
        + json_string(notification.uri) + ",\"diagnostics\":["@ + diagnostics_text(
        notification.diagnostics,
    ) + "]}}"@
}

/// The JSON string literal of `text`.
fn quoted(text: &str) -> (literal: String)
    ensures
        literal@ == json_string(text@),
{
    match quote(text) {
        Ok(literal) => literal,
        Err(_) => String::new(),
    }
}

fn encode_optional(text: &Option<String>) -> (json: String)
    ensures
        json@ == optional_text(text_view(*text)),
{
    match text {
        Some(s) => quoted(s.as_str()),
        None => "null".to_owned(),
    }
}

fn encode_position(position: &Position) -> (json: String)
    ensures
        json@ == position_text(*position),
{
    "{\"line\":".to_owned().concat(decimal_text(position.line as usize).as_str()).concat(
        ",\"character\":",
    ).concat(decimal_text(position.character as usize).as_str()).concat("}")
}

fn encode_range(range: &Range) -> (json: String)
    ensures
        json@ == range_text(*range),
{
    "{\"start\":".to_owned().concat(encode_position(&range.start).as_str()).concat(
        ",\"end\":",
    ).concat(encode_position(&range.end).as_str()).concat("}")
}

fn encode_diagnostic(diagnostic: &Diagnostic) -> (json: String)
    ensures
        json@ == diagnostic_text(diagnostic@),
{
    "{\"range\":".to_owned().concat(encode_range(&diagnostic.range).as_str()).concat(
        ",\"severity\":",
    ).concat(decimal_text(diagnostic.severity.code() as usize).as_str()).concat(
        ",\"message\":",
    ).concat(encode_optional(&diagnostic.message).as_str()).concat(",\"source\":").concat(
        encode_optional(&diagnostic.source).as_str(),
    ).concat("}")
}

/// Writes a notification as JSON.
pub fn encode_notification(notification: &Notification) -> (json: String)
    ensures
        json@ == notification_text(notification@),
{
    let ghost views = diagnostic_views(notification.diagnostics@);
    let mut list = String::new();
    let mut i: usize = 0;
    assert(views.take(0) =~= Seq::<DiagnosticView>::empty());
    while i < notification.diagnostics.len()
        invariant
            i <= notification.diagnostics.len(),
            views == diagnostic_views(notification.diagnostics@),
            list@ == diagnostics_text(views.take(i as int)),
        decreases notification.diagnostics.len() - i,
    {
        let item = encode_diagnostic(&notification.diagnostics[i]);
        proof {
            assert(views[i as int] == notification.diagnostics@[i as int]@);
            assert(views.take(i + 1).drop_last() =~= views.take(i as int));
            assert(views.take(i + 1).last() == views[i as int]);
            if i == 0 {
                assert(views.take(1)[0] == views[0]);
                assert(Seq::<char>::empty() + item@ =~= item@);
            }
        }
        if i > 0 {
            list = list.concat(",");
        }
        list = list.concat(item.as_str());
        i += 1;
    }
    assert(views.take(i as int) =~= views);
    "{\"jsonrpc\":\"2.0\",\"method\":\"textDocument/publishDiagnostics\",\"params\":{\"uri\":".to_owned().concat(
        quoted(notification.uri.as_str()).as_str(),
    ).concat(",\"diagnostics\":[").concat(list.as_str()).concat("]}}")
}

/// The address under which a message that cannot be read is answered.
pub open spec fn unknown_uri() -> Seq<char> {
    "file://unknown"@
}

/// What goes back over the channel for a message, if anything: for a
/// message that cannot be read, the error that stands for it, alone, under
/// `file://unknown`; for a document that was opened, its findings; else
/// nothing.
pub open spec fn reply_to(message: Seq<char>, scopes: Seq<Set<Seq<char>>>) -> Option<Seq<char>> {
    match decoded(message) {
        Err(diagnostic) => Some(
            notification_text(
                NotificationView { uri: unknown_uri(), diagnostics: seq![diagnostic] },
            ),
        ),
        Ok(request) => match response_to(request, scopes) {
            Some(notification) => Some(notification_text(notification)),
            None => None,
        },
    }
}

/// The scopes behind a message: a message that cannot be read leaves them as
/// they were.
pub open spec fn scopes_behind(message: Seq<char>, scopes: Seq<Set<Seq<char>>>) -> Seq<
    Set<Seq<char>>,
> {
    match decoded(message) {
        Err(_) => scopes,
        Ok(request) => scopes_after(request, scopes),
    }
}

} // verus!
