use scope_lsp::analysis::lexer::{
    add_identifier_token, add_number_token, add_string_token, lex, match_char,
    unexpected_characters, Token, TokenType,
};

fn kinds(tokens: &[Token]) -> Vec<TokenType> {
    tokens.iter().map(|t| t.token_type).collect()
}

fn lexemes(tokens: &[Token]) -> Vec<String> {
    tokens.iter().map(|t| t.lexeme.clone()).collect()
}

fn places(tokens: &[Token]) -> Vec<(usize, usize)> {
    tokens.iter().map(|t| (t.line, t.column)).collect()
}

#[test]
fn empty_text_is_the_sentinel_alone() {
    let tokens = lex(String::new());
    assert_eq!(kinds(&tokens), vec![TokenType::EOF]);
    assert_eq!(lexemes(&tokens), vec![String::new()]);
    assert_eq!(places(&tokens), vec![(1, 0)]);
}

#[test]
fn let_statement_tokens() {
    let tokens = lex("let x -> x;".to_string());
    assert_eq!(
        kinds(&tokens),
        vec![
            TokenType::LET,
            TokenType::IDENTIFIER,
            TokenType::ARROW,
            TokenType::IDENTIFIER,
            TokenType::SEMICOLON,
            TokenType::EOF
        ]
    );
    assert_eq!(lexemes(&tokens), vec!["let", "x", "->", "x", ";", ""]);
    // One column for each step of the scan, whatever the length of the lexeme.
    assert_eq!(places(&tokens), vec![(1, 1), (1, 3), (1, 5), (1, 7), (1, 8), (1, 8)]);
}

#[test]
fn comment_leaves_the_newline_to_be_counted() {
    let tokens = lex("// comment\nlet".to_string());
    assert_eq!(kinds(&tokens), vec![TokenType::LET, TokenType::EOF]);
    assert_eq!(tokens[0].line, 2);
    assert_eq!(tokens[0].column, 1);
    assert_eq!(places(&tokens), vec![(2, 1), (2, 1)]);
}

#[test]
fn comment_at_the_end_of_the_text() {
    let tokens = lex("1 // no newline".to_string());
    assert_eq!(kinds(&tokens), vec![TokenType::NUMBER, TokenType::EOF]);
    assert_eq!(places(&tokens), vec![(1, 1), (1, 3)]);
}

#[test]
fn escaped_quote_does_not_end_a_string() {
    let tokens = lex("\"a\\\"b\"".to_string());
    assert_eq!(kinds(&tokens), vec![TokenType::STRING, TokenType::EOF]);
    assert_eq!(tokens[0].lexeme, "\"a\\\"b\"");
    assert_eq!(places(&tokens), vec![(1, 1), (1, 6)]);
}

#[test]
fn string_with_a_newline_keeps_its_starting_place() {
    let tokens = lex("x \"a\nbc\" y".to_string());
    assert_eq!(
        kinds(&tokens),
        vec![TokenType::IDENTIFIER, TokenType::STRING, TokenType::IDENTIFIER, TokenType::EOF]
    );
    assert_eq!(tokens[1].lexeme, "\"a\nbc\"");
    // The string starts on line 1; the counters go on from its closing quote:
    // the newline leaves the column at 1, `b`, `c` and the quote make 4.
    assert_eq!(places(&tokens), vec![(1, 1), (1, 3), (2, 6), (2, 6)]);
}

#[test]
fn escaped_newline_in_a_string_is_not_counted_as_a_line() {
    let tokens = lex("\"a\\\nb\" z".to_string());
    assert_eq!(kinds(&tokens), vec![TokenType::STRING, TokenType::IDENTIFIER, TokenType::EOF]);
    assert_eq!(tokens[0].lexeme, "\"a\\\nb\"");
    assert_eq!(places(&tokens), vec![(1, 1), (1, 8), (1, 8)]);
}

#[test]
fn unterminated_string_runs_to_the_end() {
    let tokens = lex("\"abc".to_string());
    assert_eq!(kinds(&tokens), vec![TokenType::STRING, TokenType::EOF]);
    assert_eq!(tokens[0].lexeme, "\"abc");
    assert_eq!(places(&tokens), vec![(1, 1), (1, 4)]);
}

#[test]
fn string_that_ends_in_a_backslash() {
    let tokens = lex("\"ab\\".to_string());
    assert_eq!(kinds(&tokens), vec![TokenType::STRING, TokenType::EOF]);
    assert_eq!(tokens[0].lexeme, "\"ab\\");
    assert_eq!(places(&tokens), vec![(1, 1), (1, 4)]);
}

#[test]
fn lone_quote_at_the_end() {
    let tokens = lex("\"".to_string());
    assert_eq!(kinds(&tokens), vec![TokenType::STRING, TokenType::EOF]);
    assert_eq!(tokens[0].lexeme, "\"");
    assert_eq!(places(&tokens), vec![(1, 1), (1, 1)]);
}

#[test]
fn single_character_symbols() {
    let tokens = lex("+*^(){}[],.:;-/=!<>".to_string());
    assert_eq!(
        kinds(&tokens),
        vec![
            TokenType::PLUS,
            TokenType::STAR,
            TokenType::CARET,
            TokenType::LeftParen,
            TokenType::RightParen,
            TokenType::LeftBrace,
            TokenType::RightBrace,
            TokenType::LeftBracket,
            TokenType::RightBracket,
            TokenType::COMMA,
            TokenType::DOT,
            TokenType::COLON,
            TokenType::SEMICOLON,
            TokenType::MINUS,
            TokenType::SLASH,
            TokenType::EQUAL,
            TokenType::BANG,
            TokenType::LESS,
            TokenType::GREATER,
            TokenType::EOF
        ]
    );
    for (i, token) in tokens.iter().enumerate().take(19) {
        assert_eq!(token.lexeme.chars().count(), 1);
        assert_eq!((token.line, token.column), (1, i + 1));
    }
}

#[test]
fn two_character_symbols() {
    let tokens = lex("-> |> == != <= >=".to_string());
    assert_eq!(
        kinds(&tokens),
        vec![
            TokenType::ARROW,
            TokenType::ARROW,
            TokenType::EqualEqual,
            TokenType::BangEqual,
            TokenType::LessEqual,
            TokenType::GreaterEqual,
            TokenType::EOF
        ]
    );
    assert_eq!(lexemes(&tokens), vec!["->", "|>", "==", "!=", "<=", ">=", ""]);
    assert_eq!(
        places(&tokens),
        vec![(1, 1), (1, 3), (1, 5), (1, 7), (1, 9), (1, 11), (1, 11)]
    );
}

#[test]
fn lone_bar_is_an_arrow() {
    let tokens = lex("a | b".to_string());
    assert_eq!(
        kinds(&tokens),
        vec![TokenType::IDENTIFIER, TokenType::ARROW, TokenType::IDENTIFIER, TokenType::EOF]
    );
    assert_eq!(tokens[1].lexeme, "|");
}

#[test]
fn munch_takes_the_longest_symbol_once() {
    let tokens = lex("===".to_string());
    assert_eq!(kinds(&tokens), vec![TokenType::EqualEqual, TokenType::EQUAL, TokenType::EOF]);
    let tokens = lex("-->".to_string());
    assert_eq!(kinds(&tokens), vec![TokenType::MINUS, TokenType::ARROW, TokenType::EOF]);
    let tokens = lex("/ /".to_string());
    assert_eq!(kinds(&tokens), vec![TokenType::SLASH, TokenType::SLASH, TokenType::EOF]);
}

#[test]
fn numbers_are_runs_of_digits() {
    let tokens = lex("12 3.5 007a".to_string());
    assert_eq!(
        kinds(&tokens),
        vec![
            TokenType::NUMBER,
            TokenType::NUMBER,
            TokenType::DOT,
            TokenType::NUMBER,
            TokenType::NUMBER,
            TokenType::IDENTIFIER,
            TokenType::EOF
        ]
    );
    assert_eq!(lexemes(&tokens), vec!["12", "3", ".", "5", "007", "a", ""]);
}

#[test]
fn reserved_words_and_identifiers() {
    let tokens = lex("true false if else let lets _x a1_b True".to_string());
    assert_eq!(
        kinds(&tokens),
        vec![
            TokenType::TRUE,
            TokenType::FALSE,
            TokenType::IF,
            TokenType::ELSE,
            TokenType::LET,
            TokenType::IDENTIFIER,
            TokenType::IDENTIFIER,
            TokenType::IDENTIFIER,
            TokenType::IDENTIFIER,
            TokenType::EOF
        ]
    );
    assert_eq!(
        lexemes(&tokens),
        vec!["true", "false", "if", "else", "let", "lets", "_x", "a1_b", "True", ""]
    );
}

#[test]
fn identifiers_hold_ascii_letters_only() {
    let tokens = lex("ab\u{e9}cd".to_string());
    assert_eq!(kinds(&tokens), vec![TokenType::IDENTIFIER, TokenType::IDENTIFIER, TokenType::EOF]);
    assert_eq!(lexemes(&tokens), vec!["ab", "cd", ""]);
    assert_eq!(unexpected_characters(&"ab\u{e9}cd".to_string()), vec!['\u{e9}']);
}

#[test]
fn blank_space_counts_columns_and_newlines_count_lines() {
    let tokens = lex(" \t\ra\n\n  b".to_string());
    assert_eq!(kinds(&tokens), vec![TokenType::IDENTIFIER, TokenType::IDENTIFIER, TokenType::EOF]);
    assert_eq!(places(&tokens), vec![(1, 4), (3, 3), (3, 3)]);
}

#[test]
fn text_that_ends_in_a_newline_ends_at_column_zero() {
    let tokens = lex("a\n".to_string());
    assert_eq!(places(&tokens), vec![(1, 1), (2, 0)]);
}

#[test]
fn unexpected_characters_are_passed_over() {
    let text = "a # b @ \"#\" // $\n?".to_string();
    let tokens = lex(text.clone());
    assert_eq!(
        kinds(&tokens),
        vec![
            TokenType::IDENTIFIER,
            TokenType::IDENTIFIER,
            TokenType::STRING,
            TokenType::EOF
        ]
    );
    // Those inside a string or a comment belong to it.
    assert_eq!(unexpected_characters(&text), vec!['#', '@', '?']);
    assert_eq!(unexpected_characters(&"let x;".to_string()), Vec::<char>::new());
}

fn check_shape(text: &str) {
    let tokens = lex(text.to_string());
    let last = tokens.last().unwrap();
    assert_eq!(last.token_type, TokenType::EOF);
    assert!(last.lexeme.is_empty());
    for token in &tokens[..tokens.len() - 1] {
        assert!(token.token_type != TokenType::EOF);
        assert!(!token.lexeme.is_empty());
    }
}

#[test]
fn every_text_ends_with_the_sentinel_and_has_no_empty_token() {
    for text in [
        "",
        " ",
        "\n",
        "let x -> x;",
        "\"",
        "\"\\",
        "//",
        "/",
        "|",
        "#",
        "a\u{1F600}b",
        "let a b c -> a + b * c; 12 \"s\" == != <= >= -> |>",
    ] {
        check_shape(text);
    }
}

#[test]
fn tokenizing_twice_gives_the_same_tokens() {
    for text in ["", "let x -> x;", "\"a\nb\" // c\n1 + 2", "if true else false;"] {
        let first = lex(text.to_string());
        let second = lex(text.to_string());
        assert_eq!(kinds(&first), kinds(&second));
        assert_eq!(lexemes(&first), lexemes(&second));
        assert_eq!(places(&first), places(&second));
    }
}

#[test]
fn match_char_looks_one_ahead() {
    let source = "->-".to_string();
    let mut current = 0;
    assert!(match_char(&source, &mut current, '>'));
    assert_eq!(current, 1);
    assert!(!match_char(&source, &mut current, '>'));
    assert_eq!(current, 1);
    let mut current = 2;
    assert!(!match_char(&source, &mut current, '>'));
    assert_eq!(current, 2);
    let mut current = 7;
    assert!(!match_char(&source, &mut current, '>'));
    assert_eq!(current, 7);
}

#[test]
fn add_number_token_reads_the_digits() {
    let source = "x 1234+".to_string();
    let mut tokens = Vec::new();
    let mut current = 2;
    let mut column = 3;
    add_number_token(&source, &mut tokens, 2, &mut current, &mut column, 5);
    assert_eq!(current, 6);
    assert_eq!(column, 3);
    assert_eq!(tokens.len(), 1);
    assert_eq!(tokens[0].token_type, TokenType::NUMBER);
    assert_eq!(tokens[0].lexeme, "1234");
    assert_eq!((tokens[0].line, tokens[0].column), (5, 3));
}

#[test]
fn add_identifier_token_classifies_the_word() {
    let source = "let lettuce".to_string();
    let mut tokens = Vec::new();
    let mut current = 0;
    let mut column = 1;
    add_identifier_token(&source, &mut tokens, 0, &mut current, &mut column, 1);
    assert_eq!(current, 3);
    let mut current = 4;
    let mut column = 2;
    add_identifier_token(&source, &mut tokens, 4, &mut current, &mut column, 1);
    assert_eq!(current, 11);
    assert_eq!(column, 2);
    assert_eq!(kinds(&tokens), vec![TokenType::LET, TokenType::IDENTIFIER]);
    assert_eq!(lexemes(&tokens), vec!["let", "lettuce"]);
    assert_eq!(places(&tokens), vec![(1, 1), (1, 2)]);
}

#[test]
fn add_string_token_moves_the_counters() {
    let source = "\"a\nb\" c".to_string();
    let mut tokens = Vec::new();
    let mut current = 0;
    let mut column = 1;
    let mut line = 1;
    add_string_token(&source, &mut tokens, 0, &mut current, &mut column, &mut line);
    assert_eq!(current, 5);
    assert_eq!(line, 2);
    assert_eq!(column, 3);
    assert_eq!(tokens.len(), 1);
    assert_eq!(tokens[0].token_type, TokenType::STRING);
    assert_eq!(tokens[0].lexeme, "\"a\nb\"");
    assert_eq!((tokens[0].line, tokens[0].column), (1, 1));
}
