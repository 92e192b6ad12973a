//! The tokenizer: one left-to-right pass over the characters of a text, with
//! one character of lookahead.
//!
//! The model of a text is its sequence of characters. `lex_spec` says which
//! tokens a text has; `lex` computes them.

use vstd::prelude::*;
use vstd::string::*;

verus! {

/// The kind of a token.
#[derive(Clone, Copy, Debug, PartialEq, Eq, Structural)]
pub enum TokenType {
    PLUS,
    MINUS,
    SLASH,
    STAR,
    CARET,
    LeftParen,
    RightParen,
    LeftBracket,
    RightBracket,
    LeftBrace,
    RightBrace,
    /// `->`, `|>`, and a `|` that no `>` follows.
    ARROW,
    COMMA,
    DOT,
    COLON,
    SEMICOLON,
    EQUAL,
    BANG,
    GREATER,
    LESS,
    EqualEqual,
    BangEqual,
    LessEqual,
    GreaterEqual,
    IDENTIFIER,
    STRING,
    NUMBER,
    TRUE,
    FALSE,
    IF,
    ELSE,
    LET,
    /// The sentinel that ends every token sequence.
    EOF,
}

/// A token: its kind, the text it covers, and where it starts.
#[derive(Clone, Debug)]
pub struct Token {
    pub token_type: TokenType,
    pub lexeme: String,
    /// Line of the token, counted from 1.
    pub line: usize,
    /// Value of the column counter when the token started.
    pub column: usize,
}

/// What a token is, with its lexeme as a sequence of characters.
pub struct TokenView {
    pub token_type: TokenType,
    pub lexeme: Seq<char>,
    pub line: int,
    pub column: int,
}

impl View for Token {
    type V = TokenView;

    open spec fn view(&self) -> TokenView {
        TokenView {
            token_type: self.token_type,
            lexeme: self.lexeme@,
            line: self.line as int,
            column: self.column as int,
        }
    }
}

/// The views of a sequence of tokens, in order.
pub open spec fn token_views(tokens: Seq<Token>) -> Seq<TokenView> {
    tokens.map_values(|t: Token| t@)
}

/// A place in a text together with the two counters the tokenizer keeps.
pub struct Cursor {
    /// Index of the next character to read.
    pub pos: int,
    pub line: int,
    pub column: int,
}

/// The line counter after one more line. It is a machine word and stops at
/// the largest value such a word holds; no text is long enough to bring it
/// there.
pub open spec fn next_line(line: int) -> int {
    if line < usize::MAX {
        line + 1
    } else {
        line
    }
}

pub open spec fn is_digit(c: char) -> bool {
    '0' <= c && c <= '9'
}

pub open spec fn is_identifier_start(c: char) -> bool {
    ('a' <= c && c <= 'z') || ('A' <= c && c <= 'Z') || c == '_'
}

pub open spec fn is_identifier_part(c: char) -> bool {
    is_identifier_start(c) || is_digit(c)
}

pub open spec fn is_not_newline(c: char) -> bool {
    c != '\n'
}

pub open spec fn is_blank(c: char) -> bool {
    c == ' ' || c == '\r' || c == '\t'
}

/// The kind of a character that is a token by itself whatever follows it.
pub open spec fn single_kind(c: char) -> Option<TokenType> {
    if c == '+' {
        Some(TokenType::PLUS)
    } else if c == '*' {
        Some(TokenType::STAR)
    } else if c == '^' {
        Some(TokenType::CARET)
    } else if c == '(' {
        Some(TokenType::LeftParen)
    } else if c == ')' {
        Some(TokenType::RightParen)
    } else if c == '{' {
        Some(TokenType::LeftBrace)
    } else if c == '}' {
        Some(TokenType::RightBrace)
    } else if c == '[' {
        Some(TokenType::LeftBracket)
    } else if c == ']' {
        Some(TokenType::RightBracket)
    } else if c == ',' {
        Some(TokenType::COMMA)
    } else if c == '.' {
        Some(TokenType::DOT)
    } else if c == ':' {
        Some(TokenType::COLON)
    } else if c == ';' {
        Some(TokenType::SEMICOLON)
    } else {
        None
    }
}

/// A character that may join with the one after it.
pub struct Pairing {
    /// The character it joins with.
    pub second: char,
    /// The kind of the two together.
    pub joined: TokenType,
    /// The kind of the first alone.
    pub alone: TokenType,
}

/// The characters that form a two-character symbol with a follower. A `|`
/// is an arrow with or without its `>`.
pub open spec fn pair_kind(c: char) -> Option<Pairing> {
    if c == '-' {
        Some(Pairing { second: '>', joined: TokenType::ARROW, alone: TokenType::MINUS })
    } else if c == '|' {
        Some(Pairing { second: '>', joined: TokenType::ARROW, alone: TokenType::ARROW })
    } else if c == '=' {
        Some(Pairing { second: '=', joined: TokenType::EqualEqual, alone: TokenType::EQUAL })
    } else if c == '!' {
        Some(Pairing { second: '=', joined: TokenType::BangEqual, alone: TokenType::BANG })
    } else if c == '>' {
        Some(Pairing { second: '=', joined: TokenType::GreaterEqual, alone: TokenType::GREATER })
    } else if c == '<' {
        Some(Pairing { second: '=', joined: TokenType::LessEqual, alone: TokenType::LESS })
    } else {
        None
    }
}

/// The five reserved words.
pub open spec fn is_reserved_word(word: Seq<char>) -> bool {
    word == "true"@ || word == "false"@ || word == "if"@ || word == "else"@ || word == "let"@
}

/// The kind of a word: one of the five reserved words, or an identifier.
pub open spec fn word_kind(word: Seq<char>) -> TokenType {
    if word == "true"@ {
        TokenType::TRUE
    } else if word == "false"@ {
        TokenType::FALSE
    } else if word == "if"@ {
        TokenType::IF
    } else if word == "else"@ {
        TokenType::ELSE
    } else if word == "let"@ {
        TokenType::LET
    } else {
        TokenType::IDENTIFIER
    }
}

/// Whether the character after `pos` is `expected`.
pub open spec fn followed_by(s: Seq<char>, pos: int, expected: char) -> bool {
    pos + 1 < s.len() && s[pos + 1] == expected
}

/// The length of the longest run of accepted characters that starts at `from`.
pub open spec fn run_length(s: Seq<char>, from: int, accept: spec_fn(char) -> bool) -> nat
    decreases s.len() - from,
{
    if 0 <= from < s.len() && accept(s[from]) {
        1 + run_length(s, from + 1, accept)
    } else {
        0
    }
}

/// A run ends inside the text, holds accepted characters only, and cannot be
/// made longer.
pub proof fn lemma_run_length(s: Seq<char>, from: int, accept: spec_fn(char) -> bool)
    requires
        0 <= from <= s.len(),
    ensures
        from + run_length(s, from, accept) <= s.len(),
        forall|i: int| from <= i < from + run_length(s, from, accept) ==> accept(#[trigger] s[i]),
        from + run_length(s, from, accept) < s.len() ==> !accept(
            s[from + run_length(s, from, accept)],
        ),
    decreases s.len() - from,
{
    if from < s.len() && accept(s[from]) {
        lemma_run_length(s, from + 1, accept);
    }
}

/// Where the tokenizer stands after a string literal, scanning from `at`, a
/// place behind the opening quote.
///
/// The literal ends behind the first quote that no backslash escapes, or at
/// the end of the text. A backslash and the character behind it are passed
/// over together and count two columns. A newline that is not escaped starts
/// a new line: the column counter falls to zero and then counts the newline
/// itself.
pub open spec fn string_end(s: Seq<char>, at: Cursor) -> Cursor
    decreases s.len() - at.pos,
{
    if at.pos < 0 || at.pos >= s.len() {
        at
    } else if s[at.pos] == '"' {
        Cursor { pos: at.pos + 1, line: at.line, column: at.column + 1 }
    } else if s[at.pos] == '\\' {
        if at.pos + 1 < s.len() {
            string_end(s, Cursor { pos: at.pos + 2, line: at.line, column: at.column + 2 })
        } else {
            Cursor { pos: at.pos + 1, line: at.line, column: at.column + 1 }
        }
    } else if s[at.pos] == '\n' {
        string_end(s, Cursor { pos: at.pos + 1, line: next_line(at.line), column: 1 })
    } else {
        string_end(s, Cursor { pos: at.pos + 1, line: at.line, column: at.column + 1 })
    }
}

/// A string literal ends inside the text, behind at least one character if
/// there is one.
pub proof fn lemma_string_position(s: Seq<char>, at: Cursor)
    requires
        0 <= at.pos <= s.len(),
    ensures
        at.pos <= string_end(s, at).pos <= s.len(),
        at.pos < s.len() ==> at.pos < string_end(s, at).pos,
    decreases s.len() - at.pos,
{
    if at.pos < s.len() {
        if s[at.pos] == '"' {
        } else if s[at.pos] == '\\' {
            if at.pos + 1 < s.len() {
                lemma_string_position(
                    s,
                    Cursor { pos: at.pos + 2, line: at.line, column: at.column + 2 },
                );
            }
        } else if s[at.pos] == '\n' {
            lemma_string_position(
                s,
                Cursor { pos: at.pos + 1, line: next_line(at.line), column: 1 },
            );
        } else {
            lemma_string_position(
                s,
                Cursor { pos: at.pos + 1, line: at.line, column: at.column + 1 },
            );
        }
    }
}

/// A string literal ends inside the text, and neither counter runs ahead of
/// the characters read.
pub proof fn lemma_string_end(s: Seq<char>, at: Cursor)
    requires
        0 <= at.pos <= s.len(),
        0 <= at.line,
        0 <= at.column,
    ensures
        at.pos <= string_end(s, at).pos <= s.len(),
        at.pos < s.len() ==> at.pos < string_end(s, at).pos,
        at.line <= string_end(s, at).line,
        string_end(s, at).line - at.line <= string_end(s, at).pos - at.pos,
        0 <= string_end(s, at).column,
        string_end(s, at).column <= at.column + (string_end(s, at).pos - at.pos),
        at.column <= at.pos ==> string_end(s, at).column <= string_end(s, at).pos,
        at.line <= usize::MAX ==> string_end(s, at).line <= usize::MAX,
    decreases s.len() - at.pos,
{
    if at.pos < s.len() {
        if s[at.pos] == '"' {
        } else if s[at.pos] == '\\' {
            if at.pos + 1 < s.len() {
                lemma_string_end(
                    s,
                    Cursor { pos: at.pos + 2, line: at.line, column: at.column + 2 },
                );
            }
        } else if s[at.pos] == '\n' {
            lemma_string_end(s, Cursor { pos: at.pos + 1, line: next_line(at.line), column: 1 });
        } else {
            lemma_string_end(
                s,
                Cursor { pos: at.pos + 1, line: at.line, column: at.column + 1 },
            );
        }
    }
}

/// What one step of the tokenizer yields.
pub enum Emitted {
    /// A token.
    Token(TokenView),
    /// A character that belongs to no token and is passed over with a warning.
    Unexpected(char),
    /// Nothing: blank space, a newline or a comment.
    Nothing,
}

/// One step of the tokenizer and the place it leaves off.
pub struct Step {
    pub emitted: Emitted,
    pub next: Cursor,
}

/// The token of kind `kind` that starts at `at` and ends before `end`. The
/// column counter has been advanced by one for the token's first character.
pub open spec fn token_at(s: Seq<char>, at: Cursor, end: int, kind: TokenType) -> TokenView {
    TokenView {
        token_type: kind,
        lexeme: s.subrange(at.pos, end),
        line: at.line,
        column: at.column + 1,
    }
}

/// The step that the tokenizer takes at `at`, a place inside the text.
///
/// Every step advances the column counter by one, however many characters
/// it reads; only a newline (back to zero) and a string literal (one more for
/// each character behind the opening quote) move it otherwise.
pub open spec fn step(s: Seq<char>, at: Cursor) -> Step {
    let c = s[at.pos];
    let after = |n: int| Cursor { pos: at.pos + n, line: at.line, column: at.column + 1 };
    if single_kind(c) is Some {
        Step { emitted: Emitted::Token(token_at(s, at, at.pos + 1, single_kind(c)->0)), next: after(1) }
    } else if pair_kind(c) is Some {
        let pairing = pair_kind(c)->0;
        if followed_by(s, at.pos, pairing.second) {
            Step {
                emitted: Emitted::Token(token_at(s, at, at.pos + 2, pairing.joined)),
                next: after(2),
            }
        } else {
            Step {
                emitted: Emitted::Token(token_at(s, at, at.pos + 1, pairing.alone)),
                next: after(1),
            }
        }
    } else if c == '/' {
        if followed_by(s, at.pos, '/') {
            // A comment runs up to the next newline, which is left to be read.
            Step {
                emitted: Emitted::Nothing,
                next: after(2 + run_length(s, at.pos + 2, |c: char| is_not_newline(c)) as int),
            }
        } else {
            Step {
                emitted: Emitted::Token(token_at(s, at, at.pos + 1, TokenType::SLASH)),
                next: after(1),
            }
        }
    } else if is_digit(c) {
        let end = at.pos + run_length(s, at.pos, |c: char| is_digit(c));
        Step {
            emitted: Emitted::Token(token_at(s, at, end, TokenType::NUMBER)),
            next: Cursor { pos: end, line: at.line, column: at.column + 1 },
        }
    } else if c == '"' {
        let next = string_end(s, after(1));
        Step { emitted: Emitted::Token(token_at(s, at, next.pos, TokenType::STRING)), next }
    } else if is_identifier_start(c) {
        let end = at.pos + run_length(s, at.pos, |c: char| is_identifier_part(c));
        Step {
            emitted: Emitted::Token(
                token_at(s, at, end, word_kind(s.subrange(at.pos, end))),
            ),
            next: Cursor { pos: end, line: at.line, column: at.column + 1 },
        }
    } else if is_blank(c) {
        Step { emitted: Emitted::Nothing, next: after(1) }
    } else if c == '\n' {
        Step {
            emitted: Emitted::Nothing,
            next: Cursor { pos: at.pos + 1, line: next_line(at.line), column: 0 },
        }
    } else {
        Step { emitted: Emitted::Unexpected(c), next: after(1) }
    }
}

/// A cursor that the tokenizer can stand at: inside the text or at its end,
/// with counters that have not run ahead of the characters read.
pub open spec fn cursor_ok(s: Seq<char>, at: Cursor) -> bool {
    &&& 0 <= at.pos <= s.len()
    &&& 1 <= at.line <= at.pos + 1
    &&& at.line <= usize::MAX
    &&& 0 <= at.column <= at.pos
}

/// Every step reads at least one character and leaves a cursor that the
/// tokenizer can stand at; a token it yields is not empty and is not the
/// end-of-input sentinel.
pub proof fn lemma_step(s: Seq<char>, at: Cursor)
    requires
        cursor_ok(s, at),
        at.pos < s.len(),
    ensures
        at.pos < step(s, at).next.pos,
        cursor_ok(s, step(s, at).next),
        at.line <= step(s, at).next.line,
        step(s, at).emitted matches Emitted::Token(t) ==> {
            &&& t.lexeme.len() > 0
            &&& t.token_type != TokenType::EOF
            &&& t.lexeme == s.subrange(at.pos, step(s, at).next.pos)
            &&& t.line == at.line
            &&& t.column == at.column + 1
        },
{
    let c = s[at.pos];
    if single_kind(c) is Some {
    } else if pair_kind(c) is Some {
    } else if c == '/' {
        if followed_by(s, at.pos, '/') {
            lemma_run_length(s, at.pos + 2, |c: char| is_not_newline(c));
        }
    } else if is_digit(c) {
        lemma_run_length(s, at.pos, |c: char| is_digit(c));
    } else if c == '"' {
        lemma_string_end(s, Cursor { pos: at.pos + 1, line: at.line, column: at.column + 1 });
    } else if is_identifier_start(c) {
        lemma_run_length(s, at.pos, |c: char| is_identifier_part(c));
        reveal_strlit("true");
        reveal_strlit("false");
        reveal_strlit("if");
        reveal_strlit("else");
        reveal_strlit("let");
    } else {
    }
}

/// Every step reads at least one character and stays inside the text.
pub proof fn lemma_step_advances(s: Seq<char>, at: Cursor)
    requires
        0 <= at.pos < s.len(),
    ensures
        at.pos < step(s, at).next.pos <= s.len(),
{
    if at.pos + 2 <= s.len() {
        lemma_run_length(s, at.pos + 2, |c: char| is_not_newline(c));
    }
    lemma_run_length(s, at.pos, |c: char| is_digit(c));
    lemma_run_length(s, at.pos, |c: char| is_identifier_part(c));
    lemma_string_position(s, Cursor { pos: at.pos + 1, line: at.line, column: at.column + 1 });
}

/// The tokens of the text from `at` on, the end-of-input sentinel last.
pub open spec fn lex_from(s: Seq<char>, at: Cursor) -> Seq<TokenView>
    decreases s.len() - at.pos,
    via lex_from_terminates
{
    if 0 <= at.pos < s.len() {
        let taken = step(s, at);
        match taken.emitted {
            Emitted::Token(t) => seq![t] + lex_from(s, taken.next),
            _ => lex_from(s, taken.next),
        }
    } else {
        seq![
            TokenView {
                token_type: TokenType::EOF,
                lexeme: Seq::<char>::empty(),
                line: at.line,
                column: at.column,
            },
        ]
    }
}

#[via_fn]
proof fn lex_from_terminates(s: Seq<char>, at: Cursor) {
    if 0 <= at.pos < s.len() {
        lemma_step_advances(s, at);
    }
}

/// The characters from `at` on that belong to no token, in order.
pub open spec fn unexpected_from(s: Seq<char>, at: Cursor) -> Seq<char>
    decreases s.len() - at.pos,
    via unexpected_from_terminates
{
    if 0 <= at.pos < s.len() {
        let taken = step(s, at);
        match taken.emitted {
            Emitted::Unexpected(c) => seq![c] + unexpected_from(s, taken.next),
            _ => unexpected_from(s, taken.next),
        }
    } else {
        seq![]
    }
}

#[via_fn]
proof fn unexpected_from_terminates(s: Seq<char>, at: Cursor) {
    if 0 <= at.pos < s.len() {
        lemma_step_advances(s, at);
    }
}

/// Where the tokenizer starts: before the first character, on line 1, with
/// the column counter at zero.
pub open spec fn start_cursor() -> Cursor {
    Cursor { pos: 0, line: 1, column: 0 }
}

/// The tokens of a text.
pub open spec fn lex_spec(s: Seq<char>) -> Seq<TokenView> {
    lex_from(s, start_cursor())
}

/// The characters of a text that belong to no token.
pub open spec fn unexpected_spec(s: Seq<char>) -> Seq<char> {
    unexpected_from(s, start_cursor())
}

/// Appending a token appends its view.
pub proof fn lemma_token_views_push(tokens: Seq<Token>, token: Token)
    ensures
        token_views(tokens.push(token)) == token_views(tokens).push(token@),
{
    assert(token_views(tokens.push(token)) =~= token_views(tokens).push(token@));
}

fn digit(c: char) -> (r: bool)
    ensures
        r == is_digit(c),
{
    '0' <= c && c <= '9'
}

fn identifier_start(c: char) -> (r: bool)
    ensures
        r == is_identifier_start(c),
{
    ('a' <= c && c <= 'z') || ('A' <= c && c <= 'Z') || c == '_'
}

fn single_symbol(c: char) -> (r: Option<TokenType>)
    ensures
        r == single_kind(c),
{
    if c == '+' {
        Some(TokenType::PLUS)
    } else if c == '*' {
        Some(TokenType::STAR)
    } else if c == '^' {
        Some(TokenType::CARET)
    } else if c == '(' {
        Some(TokenType::LeftParen)
    } else if c == ')' {
        Some(TokenType::RightParen)
    } else if c == '{' {
        Some(TokenType::LeftBrace)
    } else if c == '}' {
        Some(TokenType::RightBrace)
    } else if c == '[' {
        Some(TokenType::LeftBracket)
    } else if c == ']' {
        Some(TokenType::RightBracket)
    } else if c == ',' {
        Some(TokenType::COMMA)
    } else if c == '.' {
        Some(TokenType::DOT)
    } else if c == ':' {
        Some(TokenType::COLON)
    } else if c == ';' {
        Some(TokenType::SEMICOLON)
    } else {
        None
    }
}

fn paired_symbol(c: char) -> (r: Option<Pairing>)
    ensures
        r == pair_kind(c),
{
    if c == '-' {
        Some(Pairing { second: '>', joined: TokenType::ARROW, alone: TokenType::MINUS })
    } else if c == '|' {
        Some(Pairing { second: '>', joined: TokenType::ARROW, alone: TokenType::ARROW })
    } else if c == '=' {
        Some(Pairing { second: '=', joined: TokenType::EqualEqual, alone: TokenType::EQUAL })
    } else if c == '!' {
        Some(Pairing { second: '=', joined: TokenType::BangEqual, alone: TokenType::BANG })
    } else if c == '>' {
        Some(Pairing { second: '=', joined: TokenType::GreaterEqual, alone: TokenType::GREATER })
    } else if c == '<' {
        Some(Pairing { second: '=', joined: TokenType::LessEqual, alone: TokenType::LESS })
    } else {
        None
    }
}

/// Classifies a word as one of the reserved words or as an identifier.
fn classify_word(word: &String) -> (kind: TokenType)
    ensures
        kind == word_kind(word@),
{
    if *word == String::from_str("true") {
        TokenType::TRUE
    } else if *word == String::from_str("false") {
        TokenType::FALSE
    } else if *word == String::from_str("if") {
        TokenType::IF
    } else if *word == String::from_str("else") {
        TokenType::ELSE
    } else if *word == String::from_str("let") {
        TokenType::LET
    } else {
        TokenType::IDENTIFIER
    }
}

/// Appends the token that covers the characters from `start` up to `end`.
fn push_token(
    tokens: &mut Vec<Token>,
    token_type: TokenType,
    source: &String,
    start: usize,
    end: usize,
    line: usize,
    column: usize,
)
    requires
        start <= end <= source@.len(),
    ensures
        token_views(final(tokens)@) == token_views(old(tokens)@).push(
            TokenView {
                token_type,
                lexeme: source@.subrange(start as int, end as int),
                line: line as int,
                column: column as int,
            },
        ),
{
    let lexeme = source.as_str().substring_char(start, end).to_owned();
    let token = Token { token_type, lexeme, line, column };
    proof {
        lemma_token_views_push(tokens@, token);
    }
    tokens.push(token);
}

/// Looks one character ahead: if the character behind `current` is
/// `expected`, moves `current` onto it.
pub fn match_char(source: &String, current: &mut usize, expected: char) -> (matched: bool)
    ensures
        matched == followed_by(source@, *old(current) as int, expected),
        *final(current) == *old(current) + (if matched { 1int } else { 0int }),
{
    let text = source.as_str();
    let len = text.unicode_len();
    if *current < len && len - *current > 1 && text.get_char(*current + 1) == expected {
        *current += 1;
        true
    } else {
        false
    }
}

/// Reads the digits from `current` on and appends the number token that
/// starts at `start`. The column counter stays as it is.
pub fn add_number_token(
    source: &String,
    tokens: &mut Vec<Token>,
    start: usize,
    current: &mut usize,
    column: &mut usize,
    line: usize,
)
    requires
        start <= *old(current) <= source@.len(),
    ensures
        *final(current) == *old(current) + run_length(
            source@,
            *old(current) as int,
            |c: char| is_digit(c),
        ),
        *final(column) == *old(column),
        token_views(final(tokens)@) == token_views(old(tokens)@).push(
            TokenView {
                token_type: TokenType::NUMBER,
                lexeme: source@.subrange(start as int, *final(current) as int),
                line: line as int,
                column: *old(column) as int,
            },
        ),
{
    let start_col = *column;
    let text = source.as_str();
    let len = text.unicode_len();
    let ghost first = *current as int;
    let ghost accept = |c: char| is_digit(c);
    while *current < len && digit(text.get_char(*current))
        invariant
            text@ == source@,
            len == source@.len(),
            first <= *current <= len,
            accept == (|c: char| is_digit(c)),
            (*current - first) + run_length(source@, *current as int, accept) == run_length(
                source@,
                first,
                accept,
            ),
        decreases len - *current,
    {
        *current += 1;
    }
    push_token(tokens, TokenType::NUMBER, source, start, *current, line, start_col);
}

/// Reads the word from `current` on and appends its token, which starts at
/// `start`: one of the reserved words, or an identifier. The column counter
/// stays as it is.
pub fn add_identifier_token(
    source: &String,
    tokens: &mut Vec<Token>,
    start: usize,
    current: &mut usize,
    column: &mut usize,
    line: usize,
)
    requires
        start <= *old(current) <= source@.len(),
    ensures
        *final(current) == *old(current) + run_length(
            source@,
            *old(current) as int,
            |c: char| is_identifier_part(c),
        ),
        *final(column) == *old(column),
        token_views(final(tokens)@) == token_views(old(tokens)@).push(
            TokenView {
                token_type: word_kind(source@.subrange(start as int, *final(current) as int)),
                lexeme: source@.subrange(start as int, *final(current) as int),
                line: line as int,
                column: *old(column) as int,
            },
        ),
{
    let start_col = *column;
    let text = source.as_str();
    let len = text.unicode_len();
    let ghost first = *current as int;
    let ghost accept = |c: char| is_identifier_part(c);
    loop
        invariant
            text@ == source@,
            len == source@.len(),
            first <= *current <= len,
            accept == (|c: char| is_identifier_part(c)),
            (*current - first) + run_length(source@, *current as int, accept) == run_length(
                source@,
                first,
                accept,
            ),
        ensures
            run_length(source@, *current as int, accept) == 0,
        decreases len - *current,
    {
        if *current >= len {
            break ;
        }
        let c = text.get_char(*current);
        if !(identifier_start(c) || digit(c)) {
            break ;
        }
        *current += 1;
    }
    let word = text.substring_char(start, *current).to_owned();
    let token_type = classify_word(&word);
    let token = Token { token_type, lexeme: word, line, column: start_col };
    proof {
        lemma_token_views_push(tokens@, token);
    }
    tokens.push(token);
}

/// Reads a string literal whose opening quote stands at `start`, with
/// `current` on that quote, and appends its token. The token carries the
/// line and the column at which the literal starts; the two counters move on
/// as `string_end` says.
pub fn add_string_token(
    source: &String,
    tokens: &mut Vec<Token>,
    start: usize,
    current: &mut usize,
    column: &mut usize,
    line: &mut usize,
)
    requires
        start == *old(current),
        start < source@.len(),
        *old(column) <= start + 1,
    ensures
        ({
            let end = string_end(
                source@,
                Cursor {
                    pos: start + 1,
                    line: *old(line) as int,
                    column: *old(column) as int,
                },
            );
            &&& *final(current) == end.pos
            &&& *final(line) == end.line
            &&& *final(column) == end.column
        }),
        token_views(final(tokens)@) == token_views(old(tokens)@).push(
            TokenView {
                token_type: TokenType::STRING,
                lexeme: source@.subrange(start as int, *final(current) as int),
                line: *old(line) as int,
                column: *old(column) as int,
            },
        ),
{
    let start_col = *column;
    let start_line = *line;
    let text = source.as_str();
    let len = text.unicode_len();
    let ghost opened = Cursor { pos: start + 1, line: start_line as int, column: start_col as int };
    *current += 1;
    loop
        invariant_except_break
            string_end(
                source@,
                Cursor { pos: *current as int, line: *line as int, column: *column as int },
            ) == string_end(source@, opened),
        invariant
            text@ == source@,
            len == source@.len(),
            start < *current <= len,
            *column <= *current,
        ensures
            start < *current <= len,
            string_end(source@, opened) == (Cursor {
                pos: *current as int,
                line: *line as int,
                column: *column as int,
            }),
        decreases len - *current,
    {
        if *current >= len {
            break ;
        }
        let c = text.get_char(*current);
        if c == '"' {
            *current += 1;
            *column += 1;
            break ;
        } else if c == '\\' {
            if len - *current > 1 {
                *current += 2;
                *column += 2;
            } else {
                *current += 1;
                *column += 1;
                break ;
            }
        } else if c == '\n' {
            if *line < usize::MAX {
                *line += 1;
            }
            *column = 1;
            *current += 1;
        } else {
            *current += 1;
            *column += 1;
        }
    }
    push_token(tokens, TokenType::STRING, source, start, *current, start_line, start_col);
}

/// The cursor made of the tokenizer's three counters.
pub open spec fn cursor_of(pos: usize, line: usize, column: usize) -> Cursor {
    Cursor { pos: pos as int, line: line as int, column: column as int }
}

/// Tokenizes `source` and collects, beside the tokens, the characters that
/// belong to no token.
fn scan(source: &String) -> (out: (Vec<Token>, Vec<char>))
    ensures
        token_views(out.0@) == lex_spec(source@),
        out.1@ == unexpected_spec(source@),
{
    let text = source.as_str();
    let len = text.unicode_len();
    let mut tokens: Vec<Token> = Vec::new();
    let mut unexpected: Vec<char> = Vec::new();
    let mut current: usize = 0;
    let mut column: usize = 0;
    let mut line: usize = 1;
    assert(token_views(tokens@) + lex_from(source@, start_cursor()) =~= lex_spec(source@));
    while current < len
        invariant
            text@ == source@,
            len == source@.len(),
            cursor_ok(source@, cursor_of(current, line, column)),
            token_views(tokens@) + lex_from(source@, cursor_of(current, line, column))
                == lex_spec(source@),
            unexpected@ + unexpected_from(source@, cursor_of(current, line, column))
                == unexpected_spec(source@),
        decreases len - current,
    {
        let ghost at = cursor_of(current, line, column);
        let ghost before = token_views(tokens@);
        let ghost passed = unexpected@;
        proof {
            lemma_step(source@, at);
        }
        column += 1;
        let start = current;
        let c = text.get_char(current);
        if let Some(kind) = single_symbol(c) {
            push_token(&mut tokens, kind, source, start, start + 1, line, column);
            current += 1;
        } else if let Some(pairing) = paired_symbol(c) {
            if match_char(source, &mut current, pairing.second) {
                push_token(&mut tokens, pairing.joined, source, start, start + 2, line, column);
            } else {
                push_token(&mut tokens, pairing.alone, source, start, start + 1, line, column);
            }
            current += 1;
        } else if c == '/' {
            if match_char(source, &mut current, '/') {
                current += 1;
                let ghost accept = |c: char| is_not_newline(c);
                let ghost first = current as int;
                while current < len && text.get_char(current) != '\n'
                    invariant
                        text@ == source@,
                        len == source@.len(),
                        first <= current <= len,
                        accept == (|c: char| is_not_newline(c)),
                        (current - first) + run_length(source@, current as int, accept)
                            == run_length(source@, first, accept),
                    decreases len - current,
                {
                    current += 1;
                }
            } else {
                push_token(&mut tokens, TokenType::SLASH, source, start, start + 1, line, column);
                current += 1;
            }
        } else if digit(c) {
            add_number_token(source, &mut tokens, start, &mut current, &mut column, line);
        } else if c == '"' {
            add_string_token(source, &mut tokens, start, &mut current, &mut column, &mut line);
        } else if identifier_start(c) {
            add_identifier_token(source, &mut tokens, start, &mut current, &mut column, line);
        } else if c == ' ' || c == '\r' || c == '\t' {
            current += 1;
        } else if c == '\n' {
            if line < usize::MAX {
                line += 1;
            }
            column = 0;
            current += 1;
        } else {
            unexpected.push(c);
            current += 1;
        }
        proof {
            let taken = step(source@, at);
            assert(cursor_of(current, line, column) == taken.next);
            match taken.emitted {
                Emitted::Token(t) => {
                    assert(token_views(tokens@) == before.push(t));
                    assert(before.push(t) + lex_from(source@, taken.next) =~= before + (seq![t]
                        + lex_from(source@, taken.next)));
                    assert(unexpected@ == passed);
                },
                Emitted::Unexpected(u) => {
                    assert(token_views(tokens@) == before);
                    assert(unexpected@ == passed.push(u));
                    assert(passed.push(u) + unexpected_from(source@, taken.next) =~= passed + (
                    seq![u] + unexpected_from(source@, taken.next)));
                },
                Emitted::Nothing => {
                    assert(token_views(tokens@) == before);
                    assert(unexpected@ == passed);
                },
            }
        }
    }
    let eof = Token { token_type: TokenType::EOF, lexeme: String::new(), line, column };
    proof {
        lemma_token_views_push(tokens@, eof);
        assert(token_views(tokens@).push(eof@) =~= token_views(tokens@) + lex_from(
            source@,
            cursor_of(current, line, column),
        ));
        assert(unexpected@ + unexpected_from(source@, cursor_of(current, line, column))
            =~= unexpected@);
    }
    tokens.push(eof);
    (tokens, unexpected)
}

/// The tokens of a text end with the end-of-input sentinel, which stands
/// nowhere else, and no other token is empty.
pub proof fn lemma_lex_from_shape(s: Seq<char>, at: Cursor)
    requires
        cursor_ok(s, at),
    ensures
        lex_from(s, at).len() >= 1,
        lex_from(s, at).last().token_type == TokenType::EOF,
        lex_from(s, at).last().lexeme.len() == 0,
        forall|i: int|
            0 <= i < lex_from(s, at).len() - 1 ==> {
                &&& (#[trigger] lex_from(s, at)[i]).lexeme.len() > 0
                &&& lex_from(s, at)[i].token_type != TokenType::EOF
            },
        forall|i: int|
            0 <= i < lex_from(s, at).len() ==> (#[trigger] lex_from(s, at)[i]).line >= at.line,
    decreases s.len() - at.pos,
{
    if at.pos < s.len() {
        lemma_step(s, at);
        lemma_lex_from_shape(s, step(s, at).next);
    }
}

/// The tokens of any text end with the end-of-input sentinel, and every
/// token before it has a lexeme that is not empty.
pub proof fn lemma_lex_ends_with_sentinel(s: Seq<char>)
    ensures
        lex_spec(s).len() >= 1,
        lex_spec(s).last().token_type == TokenType::EOF,
        forall|i: int|
            0 <= i < lex_spec(s).len() - 1 ==> {
                &&& (#[trigger] lex_spec(s)[i]).lexeme.len() > 0
                &&& lex_spec(s)[i].token_type != TokenType::EOF
            },
{
    lemma_lex_from_shape(s, start_cursor());
}

/// Tokenizing is a function of the text alone: two token sequences obtained
/// for the same text are the same, token by token.
pub proof fn lemma_lex_is_repeatable(text: Seq<char>, first: Seq<Token>, second: Seq<Token>)
    requires
        token_views(first) == lex_spec(text),
        token_views(second) == lex_spec(text),
    ensures
        first.len() == second.len(),
        forall|i: int| 0 <= i < first.len() ==> (#[trigger] first[i])@ == second[i]@,
{
    assert(token_views(first).len() == first.len());
    assert(token_views(second).len() == second.len());
    assert forall|i: int| 0 <= i < first.len() implies (#[trigger] first[i])@ == second[i]@ by {
        assert(token_views(first)[i] == first[i]@);
        assert(token_views(second)[i] == second[i]@);
    }
}

/// A word that the tokenizer classifies as an identifier is none of the
/// reserved words, and each reserved kind stands for its own word.
pub proof fn lemma_reserved_words(word: Seq<char>)
    ensures
        word_kind(word) == TokenType::IDENTIFIER <==> !is_reserved_word(word),
        word_kind(word) == TokenType::TRUE <==> word == "true"@,
        word_kind(word) == TokenType::FALSE <==> word == "false"@,
        word_kind(word) == TokenType::IF <==> word == "if"@,
        word_kind(word) == TokenType::ELSE <==> word == "else"@,
        word_kind(word) == TokenType::LET <==> word == "let"@,
{
    reveal_strlit("true");
    reveal_strlit("false");
    reveal_strlit("if");
    reveal_strlit("else");
    reveal_strlit("let");
    assert("true"@.len() == 4 && "true"@[0] == 't');
    assert("else"@.len() == 4 && "else"@[0] == 'e');
    assert("false"@.len() == 5);
    assert("if"@.len() == 2);
    assert("let"@.len() == 3);
}

/// A token whose kind agrees with its lexeme: an identifier is none of the
/// reserved words, and a token of a reserved kind is that word.
pub open spec fn well_classified(token: TokenView) -> bool {
    &&& token.token_type == TokenType::IDENTIFIER ==> !is_reserved_word(token.lexeme)
    &&& token.token_type == TokenType::TRUE ==> token.lexeme == "true"@
    &&& token.token_type == TokenType::FALSE ==> token.lexeme == "false"@
    &&& token.token_type == TokenType::IF ==> token.lexeme == "if"@
    &&& token.token_type == TokenType::ELSE ==> token.lexeme == "else"@
    &&& token.token_type == TokenType::LET ==> token.lexeme == "let"@
}

/// Every token from `at` on is well classified.
pub proof fn lemma_lex_from_classifies(s: Seq<char>, at: Cursor)
    ensures
        forall|i: int|
            0 <= i < lex_from(s, at).len() ==> well_classified(#[trigger] lex_from(s, at)[i]),
    decreases s.len() - at.pos,
{
    let tokens = lex_from(s, at);
    if 0 <= at.pos < s.len() {
        lemma_step_advances(s, at);
        let taken = step(s, at);
        let rest = lex_from(s, taken.next);
        lemma_lex_from_classifies(s, taken.next);
        match taken.emitted {
            Emitted::Token(t) => {
                lemma_reserved_words(t.lexeme);
                assert(well_classified(t));
                assert forall|i: int| 0 <= i < tokens.len() implies well_classified(
                    #[trigger] tokens[i],
                ) by {
                    if i > 0 {
                        assert(tokens[i] == rest[i - 1]);
                    }
                }
            },
            _ => {
                assert(tokens == rest);
            },
        }
    } else {
        assert(well_classified(tokens[0]));
    }
}

/// In the tokens of any text a reserved word is never an identifier: each
/// of the five words has its own kind, and no identifier spells one of them.
pub proof fn lemma_lex_classifies(s: Seq<char>)
    ensures
        forall|i: int| 0 <= i < lex_spec(s).len() ==> well_classified(#[trigger] lex_spec(s)[i]),
{
    lemma_lex_from_classifies(s, start_cursor());
}

/// Tokenizes a text. Never fails: a character that belongs to no token is
/// passed over (`unexpected_characters` lists those).
pub fn lex(source: String) -> (tokens: Vec<Token>)
    ensures
        token_views(tokens@) == lex_spec(source@),
        tokens@.len() >= 1,
        tokens@.last().token_type == TokenType::EOF,
        forall|i: int|
            0 <= i < tokens@.len() - 1 ==> {
                &&& (#[trigger] tokens@[i]).lexeme@.len() > 0
                &&& tokens@[i].token_type != TokenType::EOF
            },
{
    let (tokens, _) = scan(&source);
    proof {
        lemma_lex_ends_with_sentinel(source@);
        assert(token_views(tokens@).len() == tokens@.len());
        assert(token_views(tokens@).last() == tokens@.last()@);
        assert forall|i: int| 0 <= i < tokens@.len() - 1 implies {
            &&& (#[trigger] tokens@[i]).lexeme@.len() > 0
            &&& tokens@[i].token_type != TokenType::EOF
        } by {
            assert(token_views(tokens@)[i] == tokens@[i]@);
        }
    }
    tokens
}

/// The characters of a text that the tokenizer passes over because they
/// belong to no token, in the order in which they stand.
pub fn unexpected_characters(source: &String) -> (unexpected: Vec<char>)
    ensures
        unexpected@ == unexpected_spec(source@),
{
    let (_, unexpected) = scan(source);
    unexpected
}

} // verus!
