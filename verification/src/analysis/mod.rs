//! Analysis of one document: its tokens are walked once, names are resolved
//! against a stack of scopes, and what does not resolve is reported.
//!
//! A `let` binds the name behind it in the innermost scope, opens a scope for
//! the parameters that stand before the arrow, and closes it at the
//! semicolon. Inside the statement a name is looked up in the parameters
//! alone; outside of one, in every scope of the stack.

pub mod diagnostics;
pub mod lexer;
pub mod scope;

use crate::protocol::{
    decode_request, encode_notification, reply_to, respond, scopes_behind, Notification,
};
use diagnostics::{
    diagnostic_views, generated, lemma_diagnostic_views_push, text_view, Diagnostic,
    DiagnosticView,
};
use lexer::{is_reserved_word, lex, lex_spec, token_views, Token, TokenType, TokenView};
use scope::{declared, global_names, known, ScopeStack};
use vstd::hash_set::StringHashSet;
use vstd::prelude::*;
use vstd::slice::slice_subrange;
use vstd::string::*;

verus! {

pub open spec fn unknown_message(name: Seq<char>) -> Seq<char> {
    "Unknown identifier: "@ + name
}

pub open spec fn duplicate_message(name: Seq<char>) -> Seq<char> {
    "Duplicate identifier: "@ + name
}

pub open spec fn duplicate_parameter_message(name: Seq<char>) -> Seq<char> {
    "Duplicate identifier in let statement: "@ + name
}

pub open spec fn expected_identifier_message(found: Seq<char>) -> Seq<char> {
    "Expected identifier after 'let', found: "@ + found
}

pub open spec fn unexpected_token_message(found: Seq<char>) -> Seq<char> {
    "Unexpected token in let statement: "@ + found
}

pub open spec fn unterminated_message() -> Seq<char> {
    "Unterminated let statement"@
}

pub open spec fn nothing_after_let_message() -> Seq<char> {
    "Unexpected termination"@
}

pub open spec fn nothing_after_name_message() -> Seq<char> {
    "Unexpected end of input after identifier in let statement"@
}

/// How many tokens stand from `from` on before the first of kind `kind`, or
/// before the end where there is none.
pub open spec fn leading(tokens: Seq<TokenView>, from: int, kind: TokenType) -> nat
    decreases tokens.len() - from,
{
    if 0 <= from < tokens.len() && tokens[from].token_type != kind {
        1 + leading(tokens, from + 1, kind)
    } else {
        0
    }
}

/// The first token of the kind stands right behind the leading ones, if
/// there is one at all.
pub proof fn lemma_leading(tokens: Seq<TokenView>, from: int, kind: TokenType)
    requires
        0 <= from <= tokens.len(),
    ensures
        from + leading(tokens, from, kind) <= tokens.len(),
        forall|i: int|
            from <= i < from + leading(tokens, from, kind) ==> (#[trigger] tokens[i]).token_type
                != kind,
        from + leading(tokens, from, kind) < tokens.len() ==> tokens[from + leading(
            tokens,
            from,
            kind,
        )].token_type == kind,
    decreases tokens.len() - from,
{
    if from < tokens.len() && tokens[from].token_type != kind {
        lemma_leading(tokens, from + 1, kind);
    }
}

/// The names among the first `count` tokens: the parameters of a `let`
/// whose arrow stands behind them.
pub open spec fn parameter_names(tokens: Seq<TokenView>, count: int) -> Set<Seq<char>>
    decreases count,
{
    if count <= 0 {
        Set::empty()
    } else if tokens[count - 1].token_type == TokenType::IDENTIFIER {
        parameter_names(tokens, count - 1).insert(tokens[count - 1].lexeme)
    } else {
        parameter_names(tokens, count - 1)
    }
}

/// What the token at `index` of a parameter list gives rise to: a name that
/// stands earlier in the list is a duplicate, and what is no name at all is
/// unexpected.
pub open spec fn parameter_finding(tokens: Seq<TokenView>, index: int) -> Seq<DiagnosticView> {
    let token = tokens[index];
    if token.token_type == TokenType::IDENTIFIER {
        if parameter_names(tokens, index).contains(token.lexeme) {
            seq![generated(token, duplicate_parameter_message(token.lexeme))]
        } else {
            seq![]
        }
    } else {
        seq![generated(token, unexpected_token_message(token.lexeme))]
    }
}

/// The findings on the first `count` tokens read as a parameter list, in the
/// order of the tokens.
pub open spec fn parameter_findings(tokens: Seq<TokenView>, count: int) -> Seq<DiagnosticView>
    decreases count,
{
    if count <= 0 {
        seq![]
    } else {
        parameter_findings(tokens, count - 1) + parameter_finding(tokens, count - 1)
    }
}

/// What the token at `index` of a statement gives rise to: a name that is no
/// parameter is unknown. No other scope is asked.
pub open spec fn body_finding(
    tokens: Seq<TokenView>,
    index: int,
    parameters: Set<Seq<char>>,
) -> Seq<DiagnosticView> {
    let token = tokens[index];
    if token.token_type == TokenType::IDENTIFIER && !parameters.contains(token.lexeme) {
        seq![generated(token, unknown_message(token.lexeme))]
    } else {
        seq![]
    }
}

/// The findings on the first `count` tokens of a statement, in the order of
/// the tokens.
pub open spec fn body_findings(
    tokens: Seq<TokenView>,
    count: int,
    parameters: Set<Seq<char>>,
) -> Seq<DiagnosticView>
    decreases count,
{
    if count <= 0 {
        seq![]
    } else {
        body_findings(tokens, count - 1, parameters) + body_finding(tokens, count - 1, parameters)
    }
}

/// How a `let` statement ends.
pub struct LetOutcome {
    /// The findings on the statement.
    pub diagnostics: Seq<DiagnosticView>,
    /// The scopes behind the statement.
    pub scopes: Seq<Set<Seq<char>>>,
    /// The index of the token behind the statement's semicolon; none where
    /// the statement is ill-formed, which ends the whole pass.
    pub resume: Option<int>,
}

/// The outcome of the `let` statement whose `let` stands at `at`.
///
/// Behind the `let` an identifier must follow that the innermost scope does
/// not hold yet; it is added to that scope. The tokens behind it, up to the
/// first arrow, are the parameters; the tokens up to the first semicolon are
/// the statement, parameters included, and each name in it must be a
/// parameter. Without a semicolon the statement is unterminated, and the
/// scope of its parameters stays on the stack.
pub open spec fn let_statement(
    tokens: Seq<TokenView>,
    at: int,
    scopes: Seq<Set<Seq<char>>>,
) -> LetOutcome {
    let anchor = tokens[at];
    if at + 1 >= tokens.len() {
        LetOutcome {
            diagnostics: seq![generated(anchor, nothing_after_let_message())],
            scopes,
            resume: None,
        }
    } else if tokens[at + 1].token_type != TokenType::IDENTIFIER {
        LetOutcome {
            diagnostics: seq![
                generated(anchor, expected_identifier_message(tokens[at + 1].lexeme)),
            ],
            scopes,
            resume: None,
        }
    } else if scopes.last().contains(tokens[at + 1].lexeme) {
        LetOutcome {
            diagnostics: seq![generated(anchor, duplicate_message(tokens[at + 1].lexeme))],
            scopes,
            resume: None,
        }
    } else if at + 2 >= tokens.len() {
        LetOutcome {
            diagnostics: seq![generated(anchor, nothing_after_name_message())],
            scopes: declared(scopes, tokens[at + 1].lexeme),
            resume: None,
        }
    } else {
        let bound = declared(scopes, tokens[at + 1].lexeme);
        let rest = tokens.subrange(at + 2, tokens.len() as int);
        let arrow = leading(rest, 0, TokenType::ARROW) as int;
        let semicolon = leading(rest, 0, TokenType::SEMICOLON) as int;
        let parameters = parameter_names(rest, arrow);
        let findings = parameter_findings(rest, arrow) + body_findings(
            rest,
            semicolon,
            parameters,
        );
        if semicolon >= rest.len() {
            LetOutcome {
                diagnostics: findings.push(generated(anchor, unterminated_message())),
                scopes: bound.push(parameters),
                resume: None,
            }
        } else {
            LetOutcome { diagnostics: findings, scopes: bound, resume: Some(at + 3 + semicolon) }
        }
    }
}

/// What a pass over a text leaves: its findings, in order, and the scopes.
pub struct Pass {
    pub diagnostics: Seq<DiagnosticView>,
    pub scopes: Seq<Set<Seq<char>>>,
}

/// A pass with `earlier` findings before its own.
pub open spec fn after(earlier: Seq<DiagnosticView>, pass: Pass) -> Pass {
    Pass { diagnostics: earlier + pass.diagnostics, scopes: pass.scopes }
}

/// The pass over the tokens from `at` on, with `scopes` on the stack.
pub open spec fn check_from(tokens: Seq<TokenView>, at: int, scopes: Seq<Set<Seq<char>>>) -> Pass
    decreases tokens.len() - at,
{
    if at < 0 || at >= tokens.len() {
        Pass { diagnostics: seq![], scopes }
    } else if tokens[at].token_type == TokenType::LET {
        let outcome = let_statement(tokens, at, scopes);
        match outcome.resume {
            Some(next) => after(outcome.diagnostics, check_from(tokens, next, outcome.scopes)),
            None => Pass { diagnostics: outcome.diagnostics, scopes: outcome.scopes },
        }
    } else if tokens[at].token_type == TokenType::IDENTIFIER && !known(scopes, tokens[at].lexeme) {
        after(
            seq![generated(tokens[at], unknown_message(tokens[at].lexeme))],
            check_from(tokens, at + 1, scopes),
        )
    } else {
        check_from(tokens, at + 1, scopes)
    }
}

/// The pass over a whole sequence of tokens.
pub open spec fn check_spec(tokens: Seq<TokenView>, scopes: Seq<Set<Seq<char>>>) -> Pass {
    check_from(tokens, 0, scopes)
}

/// Tokens among which is neither a `let` nor an identifier give no findings
/// and leave the scopes as they are.
pub proof fn lemma_nothing_to_resolve(
    tokens: Seq<TokenView>,
    at: int,
    scopes: Seq<Set<Seq<char>>>,
)
    requires
        0 <= at,
        forall|i: int|
            at <= i < tokens.len() ==> (#[trigger] tokens[i]).token_type != TokenType::LET
                && tokens[i].token_type != TokenType::IDENTIFIER,
    ensures
        check_from(tokens, at, scopes) == (Pass { diagnostics: seq![], scopes }),
    decreases tokens.len() - at,
{
    if at < tokens.len() {
        lemma_nothing_to_resolve(tokens, at + 1, scopes);
    }
}

/// A reserved word is known on every stack whose bottom is the global scope
/// as it was made: outside of a `let` statement it is never unknown, even
/// where it comes as an identifier.
pub proof fn lemma_reserved_words_are_known(scopes: Seq<Set<Seq<char>>>, word: Seq<char>)
    requires
        scopes.len() >= 1,
        global_names().subset_of(scopes[0]),
        is_reserved_word(word),
    ensures
        known(scopes, word),
{
    assert(global_names().contains(word));
    assert(scopes[0].contains(word));
}

/// A pass never empties the stack nor takes a name out of a scope that was
/// there before. It leaves the stack as deep as it found it, unless it ends
/// at a `let` statement without a semicolon: then the scope of that
/// statement's parameters is left on top.
pub proof fn lemma_pass_keeps_scopes(tokens: Seq<TokenView>, at: int, scopes: Seq<Set<Seq<char>>>)
    requires
        0 <= at,
        scopes.len() >= 1,
    ensures
        ({
            let pass = check_from(tokens, at, scopes);
            &&& pass.scopes.len() == scopes.len() || pass.scopes.len() == scopes.len() + 1
            &&& forall|i: int|
                0 <= i < scopes.len() ==> (#[trigger] scopes[i]).subset_of(pass.scopes[i])
            &&& pass.scopes.len() == scopes.len() + 1 ==> pass.diagnostics.len() > 0
                && pass.diagnostics.last().message == Some(unterminated_message())
        }),
    decreases tokens.len() - at,
{
    if at < tokens.len() {
        if tokens[at].token_type == TokenType::LET {
            let outcome = let_statement(tokens, at, scopes);
            match outcome.resume {
                Some(next) => {
                    lemma_pass_keeps_scopes(tokens, next, outcome.scopes);
                    let pass = check_from(tokens, next, outcome.scopes);
                    assert forall|i: int| 0 <= i < scopes.len() implies (#[trigger] scopes[i]).subset_of(
                        pass.scopes[i],
                    ) by {
                        assert(scopes[i].subset_of(outcome.scopes[i]));
                        assert(outcome.scopes[i].subset_of(pass.scopes[i]));
                    }
                },
                None => {},
            }
        } else {
            lemma_pass_keeps_scopes(tokens, at + 1, scopes);
        }
    }
}

/// The views of a part of a token sequence are that part of its views.
pub proof fn lemma_token_views_subrange(tokens: Seq<Token>, from: int, to: int)
    requires
        0 <= from <= to <= tokens.len(),
    ensures
        token_views(tokens.subrange(from, to)) == token_views(tokens).subrange(from, to),
{
    assert(token_views(tokens.subrange(from, to)) =~= token_views(tokens).subrange(from, to));
}

/// Appends to `diagnostics` the error with the message `prefix` followed by
/// `detail`, on the span of `token`.
fn report(diagnostics: &mut Vec<Diagnostic>, token: &Token, prefix: &str, detail: &str)
    ensures
        diagnostic_views(final(diagnostics)@) == diagnostic_views(old(diagnostics)@).push(
            generated(token@, prefix@ + detail@),
        ),
{
    let message = prefix.to_owned().concat(detail);
    let diagnostic = Diagnostic::generate(token, message.as_str());
    proof {
        lemma_diagnostic_views_push(diagnostics@, diagnostic);
    }
    diagnostics.push(diagnostic);
}

/// Reads `tokens` as the parameter list of a `let`, up to the first arrow or
/// to the end where there is none. Returns the names in it, and appends a
/// finding for each name that stands twice and for each token that is not a
/// name.
pub fn handle_let_statement(tokens: &[Token], diagnostics: &mut Vec<Diagnostic>) -> (added_words:
    StringHashSet)
    ensures
        added_words@ == parameter_names(
            token_views(tokens@),
            leading(token_views(tokens@), 0, TokenType::ARROW) as int,
        ),
        diagnostic_views(final(diagnostics)@) == diagnostic_views(old(diagnostics)@)
            + parameter_findings(
            token_views(tokens@),
            leading(token_views(tokens@), 0, TokenType::ARROW) as int,
        ),
{
    let ghost views = token_views(tokens@);
    let ghost earlier = diagnostic_views(diagnostics@);
    let mut current: usize = 0;
    let mut added_words = StringHashSet::new();
    assert(earlier + parameter_findings(views, 0) =~= earlier);
    loop
        invariant
            views == token_views(tokens@),
            current <= tokens.len(),
            current + leading(views, current as int, TokenType::ARROW) == leading(
                views,
                0,
                TokenType::ARROW,
            ),
            added_words@ == parameter_names(views, current as int),
            diagnostic_views(diagnostics@) == earlier + parameter_findings(views, current as int),
        ensures
            leading(views, current as int, TokenType::ARROW) == 0,
        decreases tokens.len() - current,
    {
        if current >= tokens.len() {
            break ;
        }
        let token = &tokens[current];
        assert(views[current as int] == token@);
        let ghost so_far = diagnostic_views(diagnostics@);
        if token.token_type == TokenType::IDENTIFIER {
            if !added_words.contains(token.lexeme.as_str()) {
                added_words.insert(token.lexeme.clone());
            } else {
                report(
                    diagnostics,
                    token,
                    "Duplicate identifier in let statement: ",
                    token.lexeme.as_str(),
                );
            }
        } else if token.token_type == TokenType::ARROW {
            break ;
        } else {
            report(diagnostics, token, "Unexpected token in let statement: ", token.lexeme.as_str());
        }
        assert(diagnostic_views(diagnostics@) == so_far + parameter_finding(
            views,
            current as int,
        ));
        assert(earlier + parameter_findings(views, current + 1) =~= (earlier + parameter_findings(
            views,
            current as int,
        )) + parameter_finding(views, current as int));
        current += 1;
    }
    added_words
}

/// Checks a sequence of tokens against the scopes of `scope_stack`.
///
/// Returns the findings in the order of the tokens. A `let` that is
/// ill-formed ends the pass: nothing behind it is looked at. The name that a
/// `let` binds stays in the scope that was innermost; the scope of its
/// parameters is left again at the semicolon, unless there is none.
pub fn check(tokens: &Vec<Token>, scope_stack: &mut ScopeStack) -> (diagnostics: Vec<Diagnostic>)
    ensures
        diagnostic_views(diagnostics@) == check_spec(
            token_views(tokens@),
            old(scope_stack)@,
        ).diagnostics,
        final(scope_stack)@ == check_spec(token_views(tokens@), old(scope_stack)@).scopes,
{
    let ghost all = token_views(tokens@);
    let ghost whole = check_spec(all, old(scope_stack)@);
    let mut diagnostics: Vec<Diagnostic> = Vec::new();
    let mut i: usize = 0;
    let len = tokens.len();
    assert(after(diagnostic_views(diagnostics@), check_from(all, 0, scope_stack@)).diagnostics
        =~= whole.diagnostics);
    while i < len
        invariant
            all == token_views(tokens@),
            len == tokens.len(),
            i <= len,
            whole == check_spec(all, old(scope_stack)@),
            after(diagnostic_views(diagnostics@), check_from(all, i as int, scope_stack@))
                == whole,
        decreases len - i,
    {
        let token = &tokens[i];
        let ghost earlier = diagnostic_views(diagnostics@);
        let ghost scopes = scope_stack@;
        let ghost outcome = let_statement(all, i as int, scopes);
        assert(all[i as int] == token@);
        proof {
            scope_stack.lemma_never_empty();
        }
        if token.token_type == TokenType::LET {
            if len - i <= 1 {
                report(&mut diagnostics, token, "Unexpected termination", "");
                assert("Unexpected termination"@ + ""@ =~= nothing_after_let_message()) by {
                    reveal_strlit("");
                }
                assert(earlier.push(outcome.diagnostics[0]) =~= earlier + outcome.diagnostics);
                return diagnostics;
            }
            let name_token = &tokens[i + 1];
            assert(all[i + 1] == name_token@);
            if name_token.token_type != TokenType::IDENTIFIER {
                report(
                    &mut diagnostics,
                    token,
                    "Expected identifier after 'let', found: ",
                    name_token.lexeme.as_str(),
                );
                assert(earlier.push(outcome.diagnostics[0]) =~= earlier + outcome.diagnostics);
                return diagnostics;
            }
            if scope_stack.innermost_contains(name_token.lexeme.as_str()) {
                report(
                    &mut diagnostics,
                    token,
                    "Duplicate identifier: ",
                    name_token.lexeme.as_str(),
                );
                assert(earlier.push(outcome.diagnostics[0]) =~= earlier + outcome.diagnostics);
                return diagnostics;
            }
            scope_stack.declare(name_token.lexeme.clone());
            if len - i <= 2 {
                report(
                    &mut diagnostics,
                    token,
                    "Unexpected end of input after identifier in let statement",
                    "",
                );
                assert("Unexpected end of input after identifier in let statement"@ + ""@
                    =~= nothing_after_name_message()) by {
                    reveal_strlit("");
                }
                assert(earlier.push(outcome.diagnostics[0]) =~= earlier + outcome.diagnostics);
                return diagnostics;
            }
            let ghost bound = scope_stack@;
            let ghost rest = all.subrange(i + 2, len as int);
            let ghost semicolon = leading(rest, 0, TokenType::SEMICOLON) as int;
            let ghost arrow = leading(rest, 0, TokenType::ARROW) as int;
            let ghost parameters = parameter_names(rest, arrow);
            let statement = slice_subrange(tokens.as_slice(), i + 2, len);
            proof {
                lemma_token_views_subrange(tokens@, i + 2, len as int);
                lemma_leading(rest, 0, TokenType::SEMICOLON);
            }
            let added_words = handle_let_statement(statement, &mut diagnostics);
            scope_stack.push(added_words);
            let ghost listed = diagnostic_views(diagnostics@);
            let first = i + 2;
            let mut j: usize = first;
            assert(listed + body_findings(rest, 0, parameters) =~= listed);
            while j < len && tokens[j].token_type != TokenType::SEMICOLON
                invariant
                    all == token_views(tokens@),
                    len == tokens.len(),
                    rest == all.subrange(first as int, len as int),
                    first <= j <= len,
                    scope_stack@ == bound.push(parameters),
                    (j - first) + leading(rest, j - first, TokenType::SEMICOLON) == semicolon,
                    diagnostic_views(diagnostics@) == listed + body_findings(
                        rest,
                        j - first,
                        parameters,
                    ),
                decreases len - j,
            {
                let inner = &tokens[j];
                assert(all[j as int] == inner@);
                assert(rest[j - first] == inner@);
                let ghost so_far = diagnostic_views(diagnostics@);
                if inner.token_type == TokenType::IDENTIFIER && !scope_stack.innermost_contains(
                    inner.lexeme.as_str(),
                ) {
                    report(&mut diagnostics, inner, "Unknown identifier: ", inner.lexeme.as_str());
                }
                assert(diagnostic_views(diagnostics@) == so_far + body_finding(
                    rest,
                    j - first,
                    parameters,
                ));
                assert(listed + body_findings(rest, j - first + 1, parameters) =~= (listed
                    + body_findings(rest, j - first, parameters)) + body_finding(
                    rest,
                    j - first,
                    parameters,
                ));
                j += 1;
            }
            assert(j - first == semicolon) by {
                if j < len {
                    assert(rest[j - first] == all[j as int]);
                    assert(all[j as int] == tokens@[j as int]@);
                }
            }
            let ghost findings = parameter_findings(rest, arrow) + body_findings(
                rest,
                semicolon,
                parameters,
            );
            assert(diagnostic_views(diagnostics@) =~= earlier + findings);
            if j >= len {
                report(&mut diagnostics, token, "Unterminated let statement", "");
                assert("Unterminated let statement"@ + ""@ =~= unterminated_message()) by {
                    reveal_strlit("");
                }
                assert((earlier + findings).push(generated(token@, unterminated_message()))
                    =~= earlier + outcome.diagnostics);
                return diagnostics;
            }
            scope_stack.pop();
            assert(scope_stack@ =~= bound);
            i = j + 1;
            assert(outcome.resume == Some(i as int));
            assert(after(earlier + outcome.diagnostics, check_from(all, i as int, bound)).diagnostics
                =~= after(earlier, after(outcome.diagnostics, check_from(all, i as int, bound))).diagnostics);
        } else {
            if token.token_type == TokenType::IDENTIFIER && !scope_stack.contains(
                token.lexeme.as_str(),
            ) {
                report(&mut diagnostics, token, "Unknown identifier: ", token.lexeme.as_str());
                let ghost finding = generated(token@, unknown_message(token@.lexeme));
                assert(after(earlier.push(finding), check_from(all, i + 1, scopes)).diagnostics
                    =~= after(earlier, after(seq![finding], check_from(all, i + 1, scopes))).diagnostics);
            }
            i += 1;
        }
    }
    assert(diagnostic_views(diagnostics@) + Seq::<DiagnosticView>::empty() =~= diagnostic_views(
        diagnostics@,
    ));
    diagnostics
}

/// Tokenizes `text` and checks its tokens against the scopes of
/// `scope_stack`: the findings on the text, in order.
pub fn find_unknown_words(text: &String, scope_stack: &mut ScopeStack) -> (diagnostics: Vec<
    Diagnostic,
>)
    ensures
        diagnostic_views(diagnostics@) == check_spec(lex_spec(text@), old(scope_stack)@).diagnostics,
        final(scope_stack)@ == check_spec(lex_spec(text@), old(scope_stack)@).scopes,
{
    let tokens = lex(text.clone());
    check(&tokens, scope_stack)
}

/// Handles one message of the editor: reads it, serves it against
/// `scope_stack`, and returns the JSON to send back, if there is any.
///
/// A document that is opened is always answered with its findings, be there
/// any or none. A message that cannot be read is answered with the error
/// that stands for it and changes nothing. Any other message is not
/// answered.
pub fn run_analysis(message: String, scope_stack: &mut ScopeStack) -> (reply: Option<String>)
    ensures
        text_view(reply) == reply_to(message@, old(scope_stack)@),
        final(scope_stack)@ == scopes_behind(message@, old(scope_stack)@),
{
    match decode_request(message.as_str()) {
        Err(diagnostic) => {
            let mut diagnostics: Vec<Diagnostic> = Vec::new();
            diagnostics.push(diagnostic);
            let notification = Notification { uri: "file://unknown".to_owned(), diagnostics };
            assert(notification@.diagnostics =~= seq![diagnostic@]);
            Some(encode_notification(&notification))
        },
        Ok(request) => match respond(request, scope_stack) {
            Some(notification) => Some(encode_notification(&notification)),
            None => None,
        },
    }
}

} // verus!
