//! Lexical analysis: turns source text into an ordered sequence of
//! classified tokens.
//!
//! The scanner walks the source left to right and emits one token per
//! maximal recognized lexeme (longest match for identifiers, numbers and
//! keywords; keywords are reserved identifiers).  Whitespace separates
//! tokens and is never emitted.  The first character run matching no token
//! rule aborts the whole call with [`TokenizeError::UnrecognizedToken`].
//!
//! The meaning of the scanner is given by the specification function
//! [`spec_tokenize`]; the executable [`tokenize`] is proved to return
//! exactly its result.
use vstd::prelude::*;
use vstd::string::StrSliceExecFns;

verus! {

/// The classification of a token: the closed vocabulary of the language.
#[derive(Clone, Copy, Debug, PartialEq, Eq, Structural)]
pub enum TokenType {
    Identifier,
    StringLiteral,
    NumberLiteral,
    Keyword(Keyword),
    Operator(Operator),
    Punctuation(Punctuation),
}

/// The reserved words of the language.
#[derive(Clone, Copy, Debug, PartialEq, Eq, Structural)]
pub enum Keyword {
    For,
    In,
    If,
    Else,
    And,
    Or,
}

/// The operator tokens: `==`, `+`, `-`, `*`, `/` and the method-call dot.
#[derive(Clone, Copy, Debug, PartialEq, Eq, Structural)]
pub enum Operator {
    Equals,
    Plus,
    Minus,
    Star,
    Slash,
    Dot,
}

/// The punctuation tokens: braces, parentheses, comma and semicolon.
#[derive(Clone, Copy, Debug, PartialEq, Eq, Structural)]
pub enum Punctuation {
    LeftBrace,
    RightBrace,
    LeftParen,
    RightParen,
    Comma,
    Semicolon,
}

/// A classified lexeme: its kind, its exact text as it stands in the
/// source, and the character offset at which it starts.  Immutable once
/// produced.
#[derive(Clone, Debug, PartialEq, Eq)]
pub struct Token {
    pub token_type: TokenType,
    pub value: String,
    pub position: usize,
}

/// The mathematical model of a [`Token`]: the same data over `Seq<char>`
/// and `int`.
pub struct TokenModel {
    pub token_type: TokenType,
    pub text: Seq<char>,
    pub position: int,
}

impl View for Token {
    type V = TokenModel;

    open spec fn view(&self) -> TokenModel {
        TokenModel { token_type: self.token_type, text: self.value@, position: self.position as int }
    }
}

/// The model of a whole token vector.
pub open spec fn tokens_view(tokens: Seq<Token>) -> Seq<TokenModel> {
    tokens.map_values(|t: Token| t@)
}

/// A lexical failure: the offending character run matched no token rule.
#[derive(Clone, Debug, PartialEq, Eq)]
pub enum TokenizeError {
    UnrecognizedToken(String),
}

// ---------------------------------------------------------------------------
// Character classes
// ---------------------------------------------------------------------------
/// Whitespace: a discardable separator, never emitted as a token.
pub open spec fn is_space_char(c: char) -> bool {
    c == ' ' || c == '\t' || c == '\n' || c == '\r'
}

/// A decimal digit.
pub open spec fn is_digit_char(c: char) -> bool {
    48 <= c as u32 <= 57
}

/// A character that may begin an identifier: an ASCII letter or `_`.
pub open spec fn is_ident_start_char(c: char) -> bool {
    (97 <= c as u32 <= 122) || (65 <= c as u32 <= 90) || c == '_'
}

/// A character that may continue an identifier.
pub open spec fn is_ident_char(c: char) -> bool {
    is_ident_start_char(c) || is_digit_char(c)
}

/// The token made of the single character `c`, if there is one.
pub open spec fn punct_token_type(c: char) -> Option<TokenType> {
    if c == '+' {
        Some(TokenType::Operator(Operator::Plus))
    } else if c == '-' {
        Some(TokenType::Operator(Operator::Minus))
    } else if c == '*' {
        Some(TokenType::Operator(Operator::Star))
    } else if c == '/' {
        Some(TokenType::Operator(Operator::Slash))
    } else if c == '.' {
        Some(TokenType::Operator(Operator::Dot))
    } else if c == '{' {
        Some(TokenType::Punctuation(Punctuation::LeftBrace))
    } else if c == '}' {
        Some(TokenType::Punctuation(Punctuation::RightBrace))
    } else if c == '(' {
        Some(TokenType::Punctuation(Punctuation::LeftParen))
    } else if c == ')' {
        Some(TokenType::Punctuation(Punctuation::RightParen))
    } else if c == ',' {
        Some(TokenType::Punctuation(Punctuation::Comma))
    } else if c == ';' {
        Some(TokenType::Punctuation(Punctuation::Semicolon))
    } else {
        None
    }
}

/// Keywords are reserved identifiers, matched after the longest identifier
/// has been found.
pub open spec fn keyword_or_identifier(text: Seq<char>) -> TokenType {
    if text == "for"@ {
        TokenType::Keyword(Keyword::For)
    } else if text == "in"@ {
        TokenType::Keyword(Keyword::In)
    } else if text == "if"@ {
        TokenType::Keyword(Keyword::If)
    } else if text == "else"@ {
        TokenType::Keyword(Keyword::Else)
    } else if text == "and"@ {
        TokenType::Keyword(Keyword::And)
    } else if text == "or"@ {
        TokenType::Keyword(Keyword::Or)
    } else {
        TokenType::Identifier
    }
}

// ---------------------------------------------------------------------------
// Maximal runs
// ---------------------------------------------------------------------------
/// First position at or after `i` that does not continue an identifier.
pub open spec fn ident_end(s: Seq<char>, i: int) -> int
    decreases s.len() - i,
{
    if 0 <= i < s.len() && is_ident_char(s[i]) {
        ident_end(s, i + 1)
    } else {
        i
    }
}

/// First position at or after `i` that is not a digit.
pub open spec fn digit_end(s: Seq<char>, i: int) -> int
    decreases s.len() - i,
{
    if 0 <= i < s.len() && is_digit_char(s[i]) {
        digit_end(s, i + 1)
    } else {
        i
    }
}

/// Position of the first `"` at or after `i`, or the length of `s` if the
/// literal opened before `i` is never closed.
pub open spec fn string_close(s: Seq<char>, i: int) -> int
    decreases s.len() - i,
{
    if 0 <= i < s.len() {
        if s[i] == '"' {
            i
        } else {
            string_close(s, i + 1)
        }
    } else {
        i
    }
}

/// Whether some token rule matches at position `i` of `s` (an unterminated
/// string literal counts as a match here; it fails later, when the closing
/// quote is missed).
pub open spec fn starts_token_at(s: Seq<char>, i: int) -> bool {
    ||| is_ident_start_char(s[i])
    ||| is_digit_char(s[i])
    ||| s[i] == '"'
    ||| punct_token_type(s[i]) is Some
    ||| (s[i] == '=' && i + 1 < s.len() && s[i + 1] == '=')
}

/// A position belonging to an unrecognized character run: no token rule
/// matches and the character is not whitespace.
pub open spec fn is_bad_at(s: Seq<char>, i: int) -> bool {
    !is_space_char(s[i]) && !starts_token_at(s, i)
}

/// First position at or after `i` that leaves the unrecognized run.
pub open spec fn bad_end(s: Seq<char>, i: int) -> int
    decreases s.len() - i,
{
    if 0 <= i < s.len() && is_bad_at(s, i) {
        bad_end(s, i + 1)
    } else {
        i
    }
}

// ---------------------------------------------------------------------------
// The specification scanner
// ---------------------------------------------------------------------------
/// The token starting at position `i` (not whitespace): its kind and its
/// end position, or `None` if no rule matches there.
pub open spec fn token_at(s: Seq<char>, i: int) -> Option<(TokenType, int)> {
    let c = s[i];
    if is_ident_start_char(c) {
        let j = ident_end(s, i);
        Some((keyword_or_identifier(s.subrange(i, j)), j))
    } else if is_digit_char(c) {
        Some((TokenType::NumberLiteral, digit_end(s, i)))
    } else if c == '"' {
        let j = string_close(s, i + 1);
        if j < s.len() {
            Some((TokenType::StringLiteral, j + 1))
        } else {
            None
        }
    } else if c == '=' {
        if i + 1 < s.len() && s[i + 1] == '=' {
            Some((TokenType::Operator(Operator::Equals), i + 2))
        } else {
            None
        }
    } else {
        match punct_token_type(c) {
            Some(tt) => Some((tt, i + 1)),
            None => None,
        }
    }
}

/// The offending text reported when no token rule matches at `i`: the rest
/// of the source for an unterminated string literal, otherwise the maximal
/// unrecognized run.
pub open spec fn offending_text(s: Seq<char>, i: int) -> Seq<char> {
    if s[i] == '"' {
        s.subrange(i, s.len() as int)
    } else {
        s.subrange(i, bad_end(s, i))
    }
}

/// The tokens of `s` from position `i` on, or the offending text of the
/// first lexical failure.  This is the meaning of the scanner: whitespace
/// is skipped, each recognized token covers `[i, j)` of the source, and
/// the first failure aborts the whole scan.
pub open spec fn spec_tokenize_from(s: Seq<char>, i: int) -> Result<Seq<TokenModel>, Seq<char>>
    decreases s.len() - i,
        when 0 <= i
{
    if i >= s.len() {
        Ok(Seq::empty())
    } else if is_space_char(s[i]) {
        spec_tokenize_from(s, i + 1)
    } else {
        match token_at(s, i) {
            Some(scan) => {
                proof {
                    lemma_token_at_advances(s, i);
                }
                match spec_tokenize_from(s, scan.1) {
                    Ok(rest) => Ok(
                        seq![
                            TokenModel {
                                token_type: scan.0,
                                text: s.subrange(i, scan.1),
                                position: i,
                            },
                        ] + rest,
                    ),
                    Err(e) => Err(e),
                }
            },
            None => Err(offending_text(s, i)),
        }
    }
}

/// The meaning of `tokenize`: the token sequence of the whole source, or
/// the offending text of the first lexical failure.
pub open spec fn spec_tokenize(s: Seq<char>) -> Result<Seq<TokenModel>, Seq<char>> {
    spec_tokenize_from(s, 0)
}

/// Tokens already emitted, followed by the outcome of the remaining scan.
pub open spec fn prepend_tokens(
    done: Seq<TokenModel>,
    rest: Result<Seq<TokenModel>, Seq<char>>,
) -> Result<Seq<TokenModel>, Seq<char>> {
    match rest {
        Ok(more) => Ok(done + more),
        Err(e) => Err(e),
    }
}

// ---------------------------------------------------------------------------
// Facts about the maximal runs
// ---------------------------------------------------------------------------
pub proof fn lemma_ident_end(s: Seq<char>, i: int)
    requires
        0 <= i <= s.len(),
    ensures
        i <= ident_end(s, i) <= s.len(),
        forall|k: int| i <= k < ident_end(s, i) ==> is_ident_char(#[trigger] s[k]),
        ident_end(s, i) < s.len() ==> !is_ident_char(s[ident_end(s, i)]),
    decreases s.len() - i,
{
    if i < s.len() && is_ident_char(s[i]) {
        lemma_ident_end(s, i + 1);
    }
}

pub proof fn lemma_digit_end(s: Seq<char>, i: int)
    requires
        0 <= i <= s.len(),
    ensures
        i <= digit_end(s, i) <= s.len(),
        forall|k: int| i <= k < digit_end(s, i) ==> is_digit_char(#[trigger] s[k]),
        digit_end(s, i) < s.len() ==> !is_digit_char(s[digit_end(s, i)]),
    decreases s.len() - i,
{
    if i < s.len() && is_digit_char(s[i]) {
        lemma_digit_end(s, i + 1);
    }
}

pub proof fn lemma_string_close(s: Seq<char>, i: int)
    requires
        0 <= i <= s.len(),
    ensures
        i <= string_close(s, i) <= s.len(),
        forall|k: int| i <= k < string_close(s, i) ==> #[trigger] s[k] != '"',
        string_close(s, i) < s.len() ==> s[string_close(s, i)] == '"',
    decreases s.len() - i,
{
    if i < s.len() && s[i] != '"' {
        lemma_string_close(s, i + 1);
    }
}

pub proof fn lemma_bad_end(s: Seq<char>, i: int)
    requires
        0 <= i <= s.len(),
    ensures
        i <= bad_end(s, i) <= s.len(),
        forall|k: int| i <= k < bad_end(s, i) ==> is_bad_at(s, k),
    decreases s.len() - i,
{
    if i < s.len() && is_bad_at(s, i) {
        lemma_bad_end(s, i + 1);
    }
}

/// A recognized token is never empty and never runs past the source.
pub proof fn lemma_token_at_advances(s: Seq<char>, i: int)
    requires
        0 <= i < s.len(),
        token_at(s, i) is Some,
    ensures
        i < token_at(s, i)->Some_0.1 <= s.len(),
{
    let c = s[i];
    if is_ident_start_char(c) {
        assert(ident_end(s, i) == ident_end(s, i + 1));
        lemma_ident_end(s, i + 1);
    } else if is_digit_char(c) {
        assert(digit_end(s, i) == digit_end(s, i + 1));
        lemma_digit_end(s, i + 1);
    } else if c == '"' {
        lemma_string_close(s, i + 1);
    }
}

// ---------------------------------------------------------------------------
// Stepping the scan: one token consumed, one failure reported
// ---------------------------------------------------------------------------
proof fn lemma_consume_token(s: Seq<char>, done: Seq<TokenModel>, i: int, tt: TokenType, j: int)
    requires
        0 <= i < s.len(),
        !is_space_char(s[i]),
        token_at(s, i) == Some((tt, j)),
        prepend_tokens(done, spec_tokenize_from(s, i)) == spec_tokenize(s),
    ensures
        prepend_tokens(
            done.push(TokenModel { token_type: tt, text: s.subrange(i, j), position: i }),
            spec_tokenize_from(s, j),
        ) == spec_tokenize(s),
{
    lemma_token_at_advances(s, i);
    let tok = TokenModel { token_type: tt, text: s.subrange(i, j), position: i };
    match spec_tokenize_from(s, j) {
        Ok(rest) => {
            assert(spec_tokenize_from(s, i) == Ok::<Seq<TokenModel>, Seq<char>>(seq![tok] + rest));
            assert(done + (seq![tok] + rest) =~= done.push(tok) + rest);
        },
        Err(e) => {
            assert(spec_tokenize_from(s, i) == Err::<Seq<TokenModel>, Seq<char>>(e));
        },
    }
}

proof fn lemma_scan_fails(s: Seq<char>, done: Seq<TokenModel>, i: int)
    requires
        0 <= i < s.len(),
        !is_space_char(s[i]),
        token_at(s, i) is None,
        prepend_tokens(done, spec_tokenize_from(s, i)) == spec_tokenize(s),
    ensures
        spec_tokenize(s) == Err::<Seq<TokenModel>, Seq<char>>(offending_text(s, i)),
{
    assert(spec_tokenize_from(s, i) == Err::<Seq<TokenModel>, Seq<char>>(offending_text(s, i)));
}

// ---------------------------------------------------------------------------
// The covering law
// ---------------------------------------------------------------------------
/// The token's text stands verbatim in the source at the token's position,
/// is nonempty, and ends within the source.
pub open spec fn token_in_place(s: Seq<char>, t: TokenModel) -> bool {
    &&& 0 <= t.position
    &&& t.position + t.text.len() <= s.len()
    &&& t.text.len() > 0
    &&& t.text == s.subrange(t.position, t.position + t.text.len())
}

/// Whether source position `p` lies inside some token of `toks`.
pub open spec fn covered_by_token(toks: Seq<TokenModel>, p: int) -> bool {
    exists|k: int|
        0 <= k < toks.len() && (#[trigger] toks[k]).position <= p < toks[k].position
            + toks[k].text.len()
}

/// The tokens cover the source: each token's text is a verbatim, nonempty
/// slice of the source at its position; the tokens stand in order and do
/// not overlap; and every source character outside all tokens is
/// whitespace.  Concatenating the token texts therefore reconstructs the
/// source with only whitespace removed — nothing is skipped and nothing
/// is read twice.
pub open spec fn tokens_cover_source(s: Seq<char>, toks: Seq<TokenModel>) -> bool {
    &&& forall|k: int| 0 <= k < toks.len() ==> token_in_place(s, #[trigger] toks[k])
    &&& forall|k: int|
        0 <= k < toks.len() - 1 ==> (#[trigger] toks[k]).position + toks[k].text.len() <= toks[k
            + 1].position
    &&& forall|p: int|
        0 <= p < s.len() && !covered_by_token(toks, p) ==> is_space_char(#[trigger] s[p])
}

#[verifier::rlimit(100)]
proof fn lemma_tokenize_from_in_place(s: Seq<char>, i: int)
    requires
        0 <= i,
        spec_tokenize_from(s, i) is Ok,
    ensures
        ({
            let toks = spec_tokenize_from(s, i)->Ok_0;
            forall|k: int|
                0 <= k < toks.len() ==> token_in_place(s, #[trigger] toks[k]) && i
                    <= toks[k].position
        }),
    decreases s.len() - i,
{
    let toks = spec_tokenize_from(s, i)->Ok_0;
    if i >= s.len() {
        // No tokens: vacuous.
    } else if is_space_char(s[i]) {
        lemma_tokenize_from_in_place(s, i + 1);
    } else {
        lemma_token_at_advances(s, i);
        let scan = token_at(s, i)->Some_0;
        let j = scan.1;
        let tok = TokenModel { token_type: scan.0, text: s.subrange(i, j), position: i };
        lemma_tokenize_from_in_place(s, j);
        let rest = spec_tokenize_from(s, j)->Ok_0;
        assert(toks == seq![tok] + rest);
        assert(toks[0] == tok);
        assert(token_in_place(s, tok));
        assert forall|k: int|
            0 <= k < toks.len() implies token_in_place(s, #[trigger] toks[k]) && i
            <= toks[k].position by {
            if k > 0 {
                assert(toks[k] == rest[k - 1]);
            }
        }
    }
}

#[verifier::rlimit(100)]
proof fn lemma_tokenize_from_ordered(s: Seq<char>, i: int)
    requires
        0 <= i,
        spec_tokenize_from(s, i) is Ok,
    ensures
        ({
            let toks = spec_tokenize_from(s, i)->Ok_0;
            forall|k: int|
                0 <= k < toks.len() - 1 ==> (#[trigger] toks[k]).position + toks[k].text.len()
                    <= toks[k + 1].position
        }),
    decreases s.len() - i,
{
    let toks = spec_tokenize_from(s, i)->Ok_0;
    if i >= s.len() {
        // No tokens: vacuous.
    } else if is_space_char(s[i]) {
        lemma_tokenize_from_ordered(s, i + 1);
    } else {
        lemma_token_at_advances(s, i);
        let scan = token_at(s, i)->Some_0;
        let j = scan.1;
        let tok = TokenModel { token_type: scan.0, text: s.subrange(i, j), position: i };
        lemma_tokenize_from_ordered(s, j);
        lemma_tokenize_from_in_place(s, j);
        let rest = spec_tokenize_from(s, j)->Ok_0;
        assert(toks == seq![tok] + rest);
        assert(toks[0] == tok);
        assert forall|k: int|
            0 <= k < toks.len() - 1 implies (#[trigger] toks[k]).position + toks[k].text.len()
            <= toks[k + 1].position by {
            if k == 0 {
                assert(toks[1] == rest[0]);
            } else {
                assert(toks[k] == rest[k - 1]);
                assert(toks[k + 1] == rest[k]);
            }
        }
    }
}

#[verifier::rlimit(100)]
proof fn lemma_tokenize_from_gaps(s: Seq<char>, i: int)
    requires
        0 <= i,
        spec_tokenize_from(s, i) is Ok,
    ensures
        ({
            let toks = spec_tokenize_from(s, i)->Ok_0;
            forall|p: int|
                i <= p < s.len() && !covered_by_token(toks, p) ==> is_space_char(#[trigger] s[p])
        }),
    decreases s.len() - i,
{
    let toks = spec_tokenize_from(s, i)->Ok_0;
    if i >= s.len() {
        // No positions: vacuous.
    } else if is_space_char(s[i]) {
        lemma_tokenize_from_gaps(s, i + 1);
    } else {
        lemma_token_at_advances(s, i);
        let scan = token_at(s, i)->Some_0;
        let j = scan.1;
        let tok = TokenModel { token_type: scan.0, text: s.subrange(i, j), position: i };
        lemma_tokenize_from_gaps(s, j);
        let rest = spec_tokenize_from(s, j)->Ok_0;
        assert(toks == seq![tok] + rest);
        assert(toks[0] == tok);
        assert forall|p: int|
            i <= p < s.len() && !covered_by_token(toks, p) implies is_space_char(
            #[trigger] s[p],
        ) by {
            if p < j {
                assert(toks[0].position <= p < toks[0].position + toks[0].text.len());
                assert(covered_by_token(toks, p));
            } else {
                if covered_by_token(rest, p) {
                    let k = choose|k: int|
                        0 <= k < rest.len() && (#[trigger] rest[k]).position <= p < rest[k].position
                            + rest[k].text.len();
                    assert(toks[k + 1] == rest[k]);
                    assert(covered_by_token(toks, p));
                }
            }
        }
    }
}

/// Law: a successful tokenization reconstructs the source.  Every token's
/// text is the verbatim slice of the source at its position, the tokens
/// stand in source order without overlapping, and every character the
/// tokens skip is whitespace.
#[verifier::rlimit(100)]
pub proof fn lemma_tokenize_covers_source(s: Seq<char>)
    requires
        spec_tokenize(s) is Ok,
    ensures
        tokens_cover_source(s, spec_tokenize(s)->Ok_0),
{
    lemma_tokenize_from_in_place(s, 0);
    lemma_tokenize_from_ordered(s, 0);
    lemma_tokenize_from_gaps(s, 0);
}

proof fn lemma_tokenize_from_err_nonempty(s: Seq<char>, i: int)
    requires
        0 <= i,
        spec_tokenize_from(s, i) is Err,
    ensures
        spec_tokenize_from(s, i)->Err_0.len() > 0,
    decreases s.len() - i,
{
    if i >= s.len() {
        // Scanning past the end always succeeds: no error to consider.
    } else if is_space_char(s[i]) {
        lemma_tokenize_from_err_nonempty(s, i + 1);
    } else {
        match token_at(s, i) {
            Some(scan) => {
                lemma_token_at_advances(s, i);
                lemma_tokenize_from_err_nonempty(s, scan.1);
            },
            None => {
                if s[i] != '"' {
                    assert(is_bad_at(s, i));
                    assert(bad_end(s, i) == bad_end(s, i + 1));
                    lemma_bad_end(s, i + 1);
                }
            },
        }
    }
}

/// Law: a lexical failure always reports a nonempty offending lexeme.
pub proof fn lemma_tokenize_error_nonempty(s: Seq<char>)
    requires
        spec_tokenize(s) is Err,
    ensures
        spec_tokenize(s)->Err_0.len() > 0,
{
    lemma_tokenize_from_err_nonempty(s, 0);
}

// ---------------------------------------------------------------------------
// Executable character classes
// ---------------------------------------------------------------------------
fn is_space_exec(c: char) -> (b: bool)
    ensures
        b == is_space_char(c),
{
    c == ' ' || c == '\t' || c == '\n' || c == '\r'
}

pub(crate) fn is_digit_exec(c: char) -> (b: bool)
    ensures
        b == is_digit_char(c),
{
    let u = c as u32;
    48 <= u && u <= 57
}

fn is_ident_start_exec(c: char) -> (b: bool)
    ensures
        b == is_ident_start_char(c),
{
    let u = c as u32;
    (97 <= u && u <= 122) || (65 <= u && u <= 90) || c == '_'
}

fn is_ident_exec(c: char) -> (b: bool)
    ensures
        b == is_ident_char(c),
{
    is_ident_start_exec(c) || is_digit_exec(c)
}

fn punct_exec(c: char) -> (r: Option<TokenType>)
    ensures
        r == punct_token_type(c),
{
    if c == '+' {
        Some(TokenType::Operator(Operator::Plus))
    } else if c == '-' {
        Some(TokenType::Operator(Operator::Minus))
    } else if c == '*' {
        Some(TokenType::Operator(Operator::Star))
    } else if c == '/' {
        Some(TokenType::Operator(Operator::Slash))
    } else if c == '.' {
        Some(TokenType::Operator(Operator::Dot))
    } else if c == '{' {
        Some(TokenType::Punctuation(Punctuation::LeftBrace))
    } else if c == '}' {
        Some(TokenType::Punctuation(Punctuation::RightBrace))
    } else if c == '(' {
        Some(TokenType::Punctuation(Punctuation::LeftParen))
    } else if c == ')' {
        Some(TokenType::Punctuation(Punctuation::RightParen))
    } else if c == ',' {
        Some(TokenType::Punctuation(Punctuation::Comma))
    } else if c == ';' {
        Some(TokenType::Punctuation(Punctuation::Semicolon))
    } else {
        None
    }
}

/// Whether the character views of `a` and `b` are equal.
pub(crate) fn str_eq(a: &str, b: &str) -> (r: bool)
    ensures
        r == (a@ == b@),
{
    let sa = a.to_owned();
    let sb = b.to_owned();
    sa == sb
}

fn classify_word(text: &str) -> (tt: TokenType)
    ensures
        tt == keyword_or_identifier(text@),
{
    if str_eq(text, "for") {
        TokenType::Keyword(Keyword::For)
    } else if str_eq(text, "in") {
        TokenType::Keyword(Keyword::In)
    } else if str_eq(text, "if") {
        TokenType::Keyword(Keyword::If)
    } else if str_eq(text, "else") {
        TokenType::Keyword(Keyword::Else)
    } else if str_eq(text, "and") {
        TokenType::Keyword(Keyword::And)
    } else if str_eq(text, "or") {
        TokenType::Keyword(Keyword::Or)
    } else {
        TokenType::Identifier
    }
}

// ---------------------------------------------------------------------------
// Executable maximal-run scanners
// ---------------------------------------------------------------------------
fn scan_ident(code: &str, len: usize, start: usize) -> (end: usize)
    requires
        len == code@.len(),
        start <= len,
    ensures
        end == ident_end(code@, start as int),
        start <= end <= len,
{
    let ghost s = code@;
    let mut j = start;
    while j < len && is_ident_exec(code.get_char(j))
        invariant
            len == s.len(),
            s == code@,
            start <= j <= len,
            ident_end(s, start as int) == ident_end(s, j as int),
        decreases len - j,
    {
        j += 1;
    }
    j
}

fn scan_digits(code: &str, len: usize, start: usize) -> (end: usize)
    requires
        len == code@.len(),
        start <= len,
    ensures
        end == digit_end(code@, start as int),
        start <= end <= len,
{
    let ghost s = code@;
    let mut j = start;
    while j < len && is_digit_exec(code.get_char(j))
        invariant
            len == s.len(),
            s == code@,
            start <= j <= len,
            digit_end(s, start as int) == digit_end(s, j as int),
        decreases len - j,
    {
        j += 1;
    }
    j
}

fn scan_string_close(code: &str, len: usize, start: usize) -> (end: usize)
    requires
        len == code@.len(),
        start <= len,
    ensures
        end == string_close(code@, start as int),
        start <= end <= len,
{
    let ghost s = code@;
    let mut j = start;
    while j < len && code.get_char(j) != '"'
        invariant
            len == s.len(),
            s == code@,
            start <= j <= len,
            string_close(s, start as int) == string_close(s, j as int),
        decreases len - j,
    {
        j += 1;
    }
    j
}

fn is_bad_exec(code: &str, len: usize, j: usize) -> (b: bool)
    requires
        len == code@.len(),
        j < len,
    ensures
        b == is_bad_at(code@, j as int),
{
    let c = code.get_char(j);
    if is_space_exec(c) {
        return false;
    }
    if is_ident_start_exec(c) || is_digit_exec(c) || c == '"' {
        return false;
    }
    if punct_exec(c).is_some() {
        return false;
    }
    if c == '=' && j + 1 < len && code.get_char(j + 1) == '=' {
        return false;
    }
    true
}

fn scan_bad_run(code: &str, len: usize, start: usize) -> (end: usize)
    requires
        len == code@.len(),
        start <= len,
    ensures
        end == bad_end(code@, start as int),
        start <= end <= len,
{
    let ghost s = code@;
    let mut j = start;
    while j < len && is_bad_exec(code, len, j)
        invariant
            len == s.len(),
            s == code@,
            start <= j <= len,
            bad_end(s, start as int) == bad_end(s, j as int),
        decreases len - j,
    {
        j += 1;
    }
    j
}

// ---------------------------------------------------------------------------
// The tokenizer
// ---------------------------------------------------------------------------
/// Converts source text into its token sequence.
///
/// The result is exactly what [`spec_tokenize`] assigns to the source: on
/// success the ordered sequence of classified lexemes, on failure the
/// first character run matching no token rule, as
/// [`TokenizeError::UnrecognizedToken`].  The whole call fails on the
/// first such run: there is no partial-result recovery.  An empty source
/// tokenizes to an empty sequence.
pub fn tokenize(code: &str) -> (r: Result<Vec<Token>, TokenizeError>)
    ensures
        r is Ok <==> spec_tokenize(code@) is Ok,
        r matches Ok(tokens) ==> tokens_view(tokens@) == spec_tokenize(code@)->Ok_0,
        r matches Err(TokenizeError::UnrecognizedToken(text)) ==> text@ == spec_tokenize(
            code@,
        )->Err_0,
        r matches Ok(tokens) ==> tokens_cover_source(code@, tokens_view(tokens@)),
        code@.len() == 0 ==> (r matches Ok(tokens) && tokens@.len() == 0),
{
    let ghost s = code@;
    let len = code.unicode_len();
    let mut tokens: Vec<Token> = Vec::new();
    let mut pos: usize = 0;
    proof {
        assert(tokens_view(tokens@) =~= Seq::<TokenModel>::empty());
        assert(Seq::<TokenModel>::empty() + spec_tokenize_from(s, 0)->Ok_0 =~= spec_tokenize_from(
            s,
            0,
        )->Ok_0);
    }
    while pos < len
        invariant
            len == s.len(),
            s == code@,
            pos <= len,
            prepend_tokens(tokens_view(tokens@), spec_tokenize_from(s, pos as int))
                == spec_tokenize(s),
        decreases len - pos,
    {
        let c = code.get_char(pos);
        if is_space_exec(c) {
            proof {
                assert(spec_tokenize_from(s, pos as int) == spec_tokenize_from(s, pos as int + 1));
            }
            pos += 1;
        } else if is_ident_start_exec(c) {
            let end = scan_ident(code, len, pos);
            proof {
                assert(ident_end(s, pos as int) == ident_end(s, pos as int + 1));
                lemma_ident_end(s, pos as int + 1);
            }
            let text = code.substring_char(pos, end);
            let token_type = classify_word(text);
            let tok = Token { token_type, value: text.to_owned(), position: pos };
            proof {
                assert(token_at(s, pos as int) == Some((token_type, end as int)));
                lemma_consume_token(s, tokens_view(tokens@), pos as int, token_type, end as int);
                assert(tokens_view(tokens@.push(tok)) =~= tokens_view(tokens@).push(tok@));
            }
            tokens.push(tok);
            pos = end;
        } else if is_digit_exec(c) {
            let end = scan_digits(code, len, pos);
            proof {
                assert(digit_end(s, pos as int) == digit_end(s, pos as int + 1));
                lemma_digit_end(s, pos as int + 1);
            }
            let text = code.substring_char(pos, end);
            let tok = Token {
                token_type: TokenType::NumberLiteral,
                value: text.to_owned(),
                position: pos,
            };
            proof {
                assert(token_at(s, pos as int) == Some((TokenType::NumberLiteral, end as int)));
                lemma_consume_token(
                    s,
                    tokens_view(tokens@),
                    pos as int,
                    TokenType::NumberLiteral,
                    end as int,
                );
                assert(tokens_view(tokens@.push(tok)) =~= tokens_view(tokens@).push(tok@));
            }
            tokens.push(tok);
            pos = end;
        } else if c == '"' {
            let close = scan_string_close(code, len, pos + 1);
            proof {
                lemma_string_close(s, pos as int + 1);
            }
            if close < len {
                let end = close + 1;
                let text = code.substring_char(pos, end);
                let tok = Token {
                    token_type: TokenType::StringLiteral,
                    value: text.to_owned(),
                    position: pos,
                };
                proof {
                    assert(token_at(s, pos as int) == Some((TokenType::StringLiteral, end as int)));
                    lemma_consume_token(
                        s,
                        tokens_view(tokens@),
                        pos as int,
                        TokenType::StringLiteral,
                        end as int,
                    );
                    assert(tokens_view(tokens@.push(tok)) =~= tokens_view(tokens@).push(tok@));
                }
                tokens.push(tok);
                pos = end;
            } else {
                let text = code.substring_char(pos, len);
                proof {
                    assert(token_at(s, pos as int) is None);
                    lemma_scan_fails(s, tokens_view(tokens@), pos as int);
                }
                return Err(TokenizeError::UnrecognizedToken(text.to_owned()));
            }
        } else if c == '=' && pos + 1 < len && code.get_char(pos + 1) == '=' {
            let end = pos + 2;
            let text = code.substring_char(pos, end);
            let tok = Token {
                token_type: TokenType::Operator(Operator::Equals),
                value: text.to_owned(),
                position: pos,
            };
            proof {
                assert(token_at(s, pos as int) == Some(
                    (TokenType::Operator(Operator::Equals), end as int),
                ));
                lemma_consume_token(
                    s,
                    tokens_view(tokens@),
                    pos as int,
                    TokenType::Operator(Operator::Equals),
                    end as int,
                );
                assert(tokens_view(tokens@.push(tok)) =~= tokens_view(tokens@).push(tok@));
            }
            tokens.push(tok);
            pos = end;
        } else {
            let punct = punct_exec(c);
            match punct {
                Some(token_type) => {
                    let end = pos + 1;
                    let text = code.substring_char(pos, end);
                    let tok = Token { token_type, value: text.to_owned(), position: pos };
                    proof {
                        assert(token_at(s, pos as int) == Some((token_type, end as int)));
                        lemma_consume_token(
                            s,
                            tokens_view(tokens@),
                            pos as int,
                            token_type,
                            end as int,
                        );
                        assert(tokens_view(tokens@.push(tok)) =~= tokens_view(tokens@).push(tok@));
                    }
                    tokens.push(tok);
                    pos = end;
                },
                None => {
                    let end = scan_bad_run(code, len, pos);
                    proof {
                        assert(is_bad_at(s, pos as int));
                        assert(bad_end(s, pos as int) == bad_end(s, pos as int + 1));
                        lemma_bad_end(s, pos as int + 1);
                        assert(token_at(s, pos as int) is None);
                        lemma_scan_fails(s, tokens_view(tokens@), pos as int);
                    }
                    let text = code.substring_char(pos, end);
                    return Err(TokenizeError::UnrecognizedToken(text.to_owned()));
                },
            }
        }
    }
    proof {
        assert(spec_tokenize_from(s, pos as int) == Ok::<Seq<TokenModel>, Seq<char>>(Seq::empty()));
        assert(tokens_view(tokens@) + Seq::<TokenModel>::empty() =~= tokens_view(tokens@));
        lemma_tokenize_covers_source(s);
    }
    Ok(tokens)
}

} // verus!
