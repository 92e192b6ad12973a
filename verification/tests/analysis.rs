use scope_lsp::analysis::diagnostics::{Diagnostic, DiagnosticSeverity, Position};
use scope_lsp::analysis::lexer::{lex, Token, TokenType};
use scope_lsp::analysis::scope::ScopeStack;
use scope_lsp::analysis::{check, find_unknown_words, handle_let_statement};

fn analyse(text: &str) -> Vec<Diagnostic> {
    let mut stack = ScopeStack::new();
    find_unknown_words(&text.to_string(), &mut stack)
}

fn messages(diagnostics: &[Diagnostic]) -> Vec<String> {
    diagnostics.iter().map(|d| d.message.clone().unwrap()).collect()
}

fn span(d: &Diagnostic) -> ((u32, u32), (u32, u32)) {
    ((d.range.start.line, d.range.start.character), (d.range.end.line, d.range.end.character))
}

fn token(token_type: TokenType, lexeme: &str, column: usize) -> Token {
    Token { token_type, lexeme: lexeme.to_string(), line: 1, column }
}

#[test]
fn duplicate_top_level_binding() {
    let found = analyse("let x -> x; let x -> x;");
    assert_eq!(messages(&found), vec!["Unknown identifier: x", "Duplicate identifier: x"]);
    // The duplicate is reported on the second `let`.
    assert_eq!(span(&found[1]), ((1, 10), (1, 12)));
    // The body is looked up in the parameters alone, so `x` is unknown there.
    assert_eq!(span(&found[0]), ((1, 7), (1, 7)));
}

#[test]
fn unknown_identifier_at_top_level() {
    let found = analyse("y;");
    assert_eq!(found.len(), 1);
    assert_eq!(found[0].message.as_deref(), Some("Unknown identifier: y"));
    assert_eq!(found[0].range.start, Position { line: 1, character: 1 });
    assert_eq!(found[0].range.end, Position { line: 1, character: 1 });
    assert_eq!(found[0].severity, DiagnosticSeverity::Error);
    assert_eq!(found[0].source.as_deref(), Some("custom-lsp"));
}

#[test]
fn reserved_words_are_never_unknown() {
    assert!(analyse("if true else false;").is_empty());
}

#[test]
fn reserved_words_as_identifier_tokens_resolve_in_the_global_scope() {
    let tokens = vec![
        token(TokenType::IDENTIFIER, "if", 1),
        token(TokenType::IDENTIFIER, "true", 2),
        token(TokenType::IDENTIFIER, "other", 3),
        token(TokenType::EOF, "", 3),
    ];
    let mut stack = ScopeStack::new();
    let found = check(&tokens, &mut stack);
    assert_eq!(messages(&found), vec!["Unknown identifier: other"]);
}

#[test]
fn empty_text_has_no_findings() {
    assert!(analyse("").is_empty());
    assert!(analyse("1 + 2 * (3 - 4);").is_empty());
}

#[test]
fn parameters_are_known_in_the_body() {
    let found = analyse("let f a b -> a + b;");
    assert!(found.is_empty());
}

#[test]
fn body_is_checked_against_the_parameters_alone() {
    let mut stack = ScopeStack::new();
    let found = find_unknown_words(&"let g -> 1; let f a -> a + g + f;".to_string(), &mut stack);
    // `g` and `f` are bound outside, but the body sees the parameters only.
    assert_eq!(messages(&found), vec!["Unknown identifier: g", "Unknown identifier: f"]);
    // Outside of a statement every scope is asked.
    let found = find_unknown_words(&"g; f; a;".to_string(), &mut stack);
    assert_eq!(messages(&found), vec!["Unknown identifier: a"]);
}

#[test]
fn let_without_an_identifier_ends_the_pass() {
    let found = analyse("let 5 -> x; y;");
    assert_eq!(messages(&found), vec!["Expected identifier after 'let', found: 5"]);
    assert_eq!(span(&found[0]), ((1, 1), (1, 3)));
    let found = analyse("y; let");
    assert_eq!(
        messages(&found),
        vec!["Unknown identifier: y", "Expected identifier after 'let', found: "]
    );
    let found = analyse("let let x;");
    assert_eq!(messages(&found), vec!["Expected identifier after 'let', found: let"]);
}

#[test]
fn duplicate_ends_the_pass() {
    let found = analyse("let x -> 1; let x -> 2; y;");
    assert_eq!(messages(&found), vec!["Duplicate identifier: x"]);
}

#[test]
fn duplicate_parameter_is_reported_and_the_scan_goes_on() {
    let found = analyse("let f a a b -> a; z;");
    assert_eq!(
        messages(&found),
        vec!["Duplicate identifier in let statement: a", "Unknown identifier: z"]
    );
    assert_eq!(span(&found[0]), ((1, 7), (1, 7)));
}

#[test]
fn unexpected_token_in_the_parameters() {
    let found = analyse("let f a , 1 -> a;");
    assert_eq!(
        messages(&found),
        vec!["Unexpected token in let statement: ,", "Unexpected token in let statement: 1"]
    );
}

#[test]
fn parameters_run_to_the_first_arrow_or_to_the_end() {
    // Without an arrow every token behind the name is read as a parameter,
    // the sentinel included; the statement still ends at its semicolon.
    let found = analyse("let f a; b;");
    assert_eq!(
        messages(&found),
        vec![
            "Unexpected token in let statement: ;",
            "Unexpected token in let statement: ;",
            "Unexpected token in let statement: ",
            "Unknown identifier: b",
        ]
    );
}

#[test]
fn unterminated_let_is_reported() {
    let found = analyse("let f a -> a + b");
    assert_eq!(messages(&found), vec!["Unknown identifier: b", "Unterminated let statement"]);
    // Reported on the `let`.
    assert_eq!(span(&found[1]), ((1, 1), (1, 3)));
}

#[test]
fn unterminated_let_leaves_its_parameters_on_the_stack() {
    let mut stack = ScopeStack::new();
    find_unknown_words(&"let f a -> a".to_string(), &mut stack);
    assert_eq!(stack.nesting(), 1);
    assert!(stack.innermost_contains("a"));
    assert!(stack.contains("f"));
    assert!(!stack.innermost_contains("f"));
}

#[test]
fn a_pass_restores_the_depth_of_the_stack() {
    let mut stack = ScopeStack::new();
    find_unknown_words(&"let f a -> a; let g b c -> b;".to_string(), &mut stack);
    assert_eq!(stack.nesting(), 0);
    assert!(stack.contains("f"));
    assert!(stack.contains("g"));
    assert!(!stack.contains("a"));
    assert!(!stack.contains("b"));
}

#[test]
fn bindings_stay_from_one_document_to_the_next() {
    let mut stack = ScopeStack::new();
    assert!(find_unknown_words(&"let f a -> a;".to_string(), &mut stack).is_empty());
    let found = find_unknown_words(&"f; let f -> 1;".to_string(), &mut stack);
    assert_eq!(messages(&found), vec!["Duplicate identifier: f"]);
}

#[test]
fn token_sequences_that_end_early() {
    let mut stack = ScopeStack::new();
    let found = check(&vec![token(TokenType::LET, "let", 1)], &mut stack);
    assert_eq!(messages(&found), vec!["Unexpected termination"]);
    let tokens = vec![token(TokenType::LET, "let", 1), token(TokenType::IDENTIFIER, "q", 2)];
    let found = check(&tokens, &mut stack);
    assert_eq!(
        messages(&found),
        vec!["Unexpected end of input after identifier in let statement"]
    );
    // The name was bound all the same.
    assert!(stack.contains("q"));
    assert!(check(&Vec::new(), &mut stack).is_empty());
}

#[test]
fn check_agrees_with_find_unknown_words() {
    let text = "let f a -> a + b; c; let f -> 1; d;";
    let mut first = ScopeStack::new();
    let mut second = ScopeStack::new();
    let by_text = find_unknown_words(&text.to_string(), &mut first);
    let by_tokens = check(&lex(text.to_string()), &mut second);
    assert_eq!(messages(&by_text), messages(&by_tokens));
    assert_eq!(
        messages(&by_text),
        vec!["Unknown identifier: b", "Unknown identifier: c", "Duplicate identifier: f"]
    );
}

#[test]
fn handle_let_statement_collects_the_parameters() {
    let tokens = lex("a b a + -> c d".to_string());
    let mut diagnostics = Vec::new();
    let names = handle_let_statement(&tokens, &mut diagnostics);
    assert_eq!(names.len(), 2);
    assert!(names.contains("a"));
    assert!(names.contains("b"));
    assert!(!names.contains("c"));
    assert_eq!(
        messages(&diagnostics),
        vec!["Duplicate identifier in let statement: a", "Unexpected token in let statement: +"]
    );
    assert_eq!(span(&diagnostics[0]), ((1, 5), (1, 5)));
}

#[test]
fn handle_let_statement_appends_to_earlier_findings() {
    let mut diagnostics = vec![Diagnostic::synthetic("earlier".to_string())];
    let names = handle_let_statement(&lex("-> a".to_string()), &mut diagnostics);
    assert!(names.is_empty());
    assert_eq!(messages(&diagnostics), vec!["earlier"]);
}

#[test]
fn findings_on_the_sentinel_at_column_zero() {
    let found = analyse("let f\n");
    assert_eq!(
        messages(&found),
        vec!["Unexpected token in let statement: ", "Unterminated let statement"]
    );
    assert_eq!(span(&found[0]), ((2, 0), (2, 0)));
}
