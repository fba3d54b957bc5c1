//! The scanner: turns source text into tokens.
use vstd::prelude::*;
use vstd::string::*;

use crate::text::{push_char, push_str, string_of};
use crate::tokens::{Literal, LiteralView, Token, TokenType, TokenView};

verus! {

/// A character the scanner could not turn into a token.
#[derive(Debug, Clone)]
pub struct ScanErr {
    pub message: String,
    pub column: usize,
    pub line: usize,
}

/// The mathematical value of a [`ScanErr`].
pub struct ScanErrView {
    pub message: Seq<char>,
    pub column: usize,
    pub line: usize,
}

impl View for ScanErr {
    type V = ScanErrView;

    open spec fn view(&self) -> ScanErrView {
        ScanErrView { message: self.message@, column: self.column, line: self.line }
    }
}

// ---------------------------------------------------------------------
// Character classes and keywords.

/// `c` is an ASCII letter or an underscore.
pub open spec fn spec_is_alpha(c: char) -> bool {
    ('a' <= c && c <= 'z') || ('A' <= c && c <= 'Z') || c == '_'
}

/// `c` is an ASCII decimal digit.
pub open spec fn spec_is_digit(c: char) -> bool {
    '0' <= c && c <= '9'
}

/// `c` is an ASCII letter, an underscore or an ASCII digit.
pub open spec fn spec_is_alphanumeric(c: char) -> bool {
    spec_is_alpha(c) || spec_is_digit(c)
}

/// Whether `c` may start an identifier.
pub fn is_alpha(c: char) -> (r: bool)
    ensures
        r == spec_is_alpha(c),
{
    ('a' <= c && c <= 'z') || ('A' <= c && c <= 'Z') || c == '_'
}

/// Whether `c` is a decimal digit.
pub fn is_digit(c: char) -> (r: bool)
    ensures
        r == spec_is_digit(c),
{
    '0' <= c && c <= '9'
}

/// Whether `c` may continue an identifier.
pub fn is_alphanumeric(c: char) -> (r: bool)
    ensures
        r == spec_is_alphanumeric(c),
{
    is_alpha(c) || is_digit(c)
}

/// The token kind a reserved word is scanned as, if `s` is one.
/// ("class" is scanned as `And`, and "print" is not reserved.)
pub open spec fn keyword(s: Seq<char>) -> Option<TokenType> {
    if s == "and"@ { Some(TokenType::And) }
    else if s == "class"@ { Some(TokenType::And) }
    else if s == "else"@ { Some(TokenType::Else) }
    else if s == "false"@ { Some(TokenType::False) }
    else if s == "for"@ { Some(TokenType::For) }
    else if s == "fun"@ { Some(TokenType::Fun) }
    else if s == "if"@ { Some(TokenType::If) }
    else if s == "nil"@ { Some(TokenType::Nil) }
    else if s == "or"@ { Some(TokenType::Or) }
    else if s == "return"@ { Some(TokenType::Return) }
    else if s == "super"@ { Some(TokenType::Super) }
    else if s == "this"@ { Some(TokenType::This) }
    else if s == "true"@ { Some(TokenType::True) }
    else if s == "var"@ { Some(TokenType::Var) }
    else if s == "while"@ { Some(TokenType::While) }
    else { None }
}

fn same_text(s: &String, lit: &str) -> (r: bool)
    ensures
        r == (s@ == lit@),
{
    let other = string_of(lit);
    *s == other
}

/// The token kind a reserved word is scanned as, or `None` for a
/// word that is not reserved.
pub fn keyword_type(s: &String) -> (r: Option<TokenType>)
    ensures
        r == keyword(s@),
{
    if same_text(s, "and") { Some(TokenType::And) }
    else if same_text(s, "class") { Some(TokenType::And) }
    else if same_text(s, "else") { Some(TokenType::Else) }
    else if same_text(s, "false") { Some(TokenType::False) }
    else if same_text(s, "for") { Some(TokenType::For) }
    else if same_text(s, "fun") { Some(TokenType::Fun) }
    else if same_text(s, "if") { Some(TokenType::If) }
    else if same_text(s, "nil") { Some(TokenType::Nil) }
    else if same_text(s, "or") { Some(TokenType::Or) }
    else if same_text(s, "return") { Some(TokenType::Return) }
    else if same_text(s, "super") { Some(TokenType::Super) }
    else if same_text(s, "this") { Some(TokenType::This) }
    else if same_text(s, "true") { Some(TokenType::True) }
    else if same_text(s, "var") { Some(TokenType::Var) }
    else if same_text(s, "while") { Some(TokenType::While) }
    else { None }
}

// ---------------------------------------------------------------------
// The scanning process, as a function of the source characters.

/// Where the scanner stands: the first character of the lexeme being
/// scanned (`start`), the character being looked at (`current`), the
/// line and column counters, and what has been produced so far.
pub struct ScanState {
    pub start: int,
    pub current: int,
    pub line: int,
    pub column: int,
    pub tokens: Seq<TokenView>,
    pub errors: Seq<ScanErrView>,
}

/// The state before anything is scanned.
pub open spec fn initial_state() -> ScanState {
    ScanState { start: 0, current: 0, line: 1, column: 1, tokens: seq![], errors: seq![] }
}

/// The current character is the last one of the source (or beyond).
pub open spec fn spec_at_end(src: Seq<char>, st: ScanState) -> bool {
    st.current >= src.len() - 1
}

/// The character `d` places after the current one, or `'\0'` past the end.
pub open spec fn spec_peek(src: Seq<char>, st: ScanState, d: int) -> char {
    if st.current + d >= src.len() || st.current + d < 0 { '\0' } else { src[st.current + d] }
}

/// The characters from `a` to `b`, both included.
pub open spec fn spec_substr(src: Seq<char>, a: int, b: int) -> Seq<char> {
    src.subrange(a, b + 1)
}

pub open spec fn spec_advance(st: ScanState) -> ScanState {
    ScanState { current: st.current + 1, column: st.column + 1, ..st }
}

pub open spec fn spec_add_literal_token(
    src: Seq<char>,
    st: ScanState,
    t: TokenType,
    lit: LiteralView,
) -> ScanState {
    ScanState {
        tokens: st.tokens.push(
            TokenView {
                token_type: t,
                lexeme: spec_substr(src, st.start, st.current),
                literal: lit,
                line: st.line as usize,
                column: st.column as usize,
            },
        ),
        ..st
    }
}

pub open spec fn spec_add_token(src: Seq<char>, st: ScanState, t: TokenType) -> ScanState {
    spec_add_literal_token(src, st, t, LiteralView::Nil)
}

pub open spec fn spec_add_error(st: ScanState, message: Seq<char>) -> ScanState {
    ScanState {
        errors: st.errors.push(
            ScanErrView { message, column: st.column as usize, line: st.line as usize },
        ),
        ..st
    }
}

/// Consumes the next character when it is `expected` (the column is
/// not moved), and tells whether it did.
pub open spec fn spec_match_next(src: Seq<char>, st: ScanState, expected: char) -> (bool, ScanState) {
    if spec_at_end(src, st) {
        (false, st)
    } else if spec_peek(src, st, 1) == expected {
        (true, ScanState { current: st.current + 1, ..st })
    } else {
        (false, st)
    }
}

/// A one- or two-character token: `two` when the next character is '='.
pub open spec fn spec_one_or_two(src: Seq<char>, st: ScanState, one: TokenType, two: TokenType) -> ScanState {
    let (m, st1) = spec_match_next(src, st, '=');
    spec_add_token(src, st1, if m { two } else { one })
}

/// Skips to the last character before the end of the line.
pub open spec fn spec_skip_comment(src: Seq<char>, st: ScanState) -> ScanState
    decreases src.len() - st.current,
{
    if spec_peek(src, st, 1) != '\n' && !spec_at_end(src, st) {
        spec_skip_comment(src, spec_advance(st))
    } else {
        st
    }
}

/// Skips over the characters after the current one while `digits_only`
/// ones are digits (or, when not `digits_only`, letters and digits).
pub open spec fn spec_skip_while(src: Seq<char>, st: ScanState, digits_only: bool) -> ScanState
    decreases src.len() - st.current,
{
    let c = spec_peek(src, st, 1);
    if (if digits_only { spec_is_digit(c) } else { spec_is_alphanumeric(c) }) {
        spec_skip_while(src, spec_advance(st), digits_only)
    } else {
        st
    }
}

pub open spec fn spec_identifier(src: Seq<char>, st: ScanState) -> ScanState {
    let st1 = spec_skip_while(src, st, false);
    let text = spec_substr(src, st1.start, st1.current);
    let t = match keyword(text) {
        Some(t) => t,
        None => TokenType::Identifier,
    };
    spec_add_token(src, st1, t)
}

pub open spec fn spec_number(src: Seq<char>, st: ScanState) -> ScanState {
    let st1 = spec_skip_while(src, st, true);
    let st2 = if spec_peek(src, st1, 1) == '.' && spec_is_digit(spec_peek(src, st1, 2)) {
        spec_skip_while(src, spec_advance(st1), true)
    } else {
        st1
    };
    spec_add_literal_token(
        src,
        st2,
        TokenType::Num,
        LiteralView::Num(spec_substr(src, st2.start, st2.current)),
    )
}

/// Moves to the character before the closing quote (or to the last
/// character), counting the line breaks passed.
pub open spec fn spec_skip_string(src: Seq<char>, st: ScanState) -> ScanState
    decreases src.len() - st.current,
{
    if spec_peek(src, st, 1) != '"' && !spec_at_end(src, st) {
        let st1 = if spec_peek(src, st, 1) == '\n' { ScanState { line: st.line + 1, ..st } } else { st };
        spec_skip_string(src, spec_advance(st1))
    } else {
        st
    }
}

pub open spec fn spec_string(src: Seq<char>, st: ScanState) -> ScanState {
    let st1 = spec_skip_string(src, st);
    if spec_at_end(src, st1) {
        spec_add_error(st1, "Unterminated string"@)
    } else {
        let st2 = spec_advance(st1);
        spec_add_literal_token(
            src,
            st2,
            TokenType::Str,
            LiteralView::Str(spec_substr(src, st2.start + 1, st2.current - 1)),
        )
    }
}

/// The message for a character that starts no token.
pub open spec fn unrecognized_message(c: char) -> Seq<char> {
    "Unrecognized character: '"@ + seq![c] + "'"@
}

/// Scans the lexeme that starts at the current character.
pub open spec fn spec_scan_token(src: Seq<char>, st: ScanState) -> ScanState {
    let c = src[st.current];
    if c == '(' { spec_add_token(src, st, TokenType::LeftParen) }
    else if c == ')' { spec_add_token(src, st, TokenType::RightParen) }
    else if c == '{' { spec_add_token(src, st, TokenType::LeftBrace) }
    else if c == '}' { spec_add_token(src, st, TokenType::RightBrace) }
    else if c == ',' { spec_add_token(src, st, TokenType::Comma) }
    else if c == '.' { spec_add_token(src, st, TokenType::Dot) }
    else if c == '-' { spec_add_token(src, st, TokenType::Minus) }
    else if c == '+' { spec_add_token(src, st, TokenType::Plus) }
    else if c == ';' { spec_add_token(src, st, TokenType::Semicolon) }
    else if c == '*' { spec_add_token(src, st, TokenType::Star) }
    else if c == '!' { spec_one_or_two(src, st, TokenType::Bang, TokenType::BangEqual) }
    else if c == '=' { spec_one_or_two(src, st, TokenType::Equal, TokenType::EqualEqual) }
    else if c == '<' { spec_one_or_two(src, st, TokenType::Less, TokenType::LessEqual) }
    else if c == '>' { spec_one_or_two(src, st, TokenType::Greater, TokenType::GreaterEqual) }
    else if c == '/' {
        let (m, st1) = spec_match_next(src, st, '/');
        if m { spec_skip_comment(src, st1) } else { spec_add_token(src, st1, TokenType::Slash) }
    }
    else if c == '"' { spec_string(src, st) }
    else if spec_is_digit(c) { spec_number(src, st) }
    else if c == ' ' || c == '\r' || c == '\t' { st }
    else if c == '\n' { ScanState { line: st.line + 1, column: 1, ..st } }
    else if spec_is_alpha(c) { spec_identifier(src, st) }
    else { spec_add_error(st, unrecognized_message(c)) }
}

/// The bounds every reachable state keeps.
pub open spec fn state_wf(src: Seq<char>, st: ScanState) -> bool {
    &&& 0 <= st.start <= st.current < src.len()
    &&& 1 <= st.line <= st.current + 2
    &&& 1 <= st.column <= st.current + 1
}

pub proof fn lemma_skip_while(src: Seq<char>, st: ScanState, digits_only: bool)
    requires
        state_wf(src, st),
    ensures
        state_wf(src, spec_skip_while(src, st, digits_only)),
        spec_skip_while(src, st, digits_only).current >= st.current,
        spec_skip_while(src, st, digits_only).start == st.start,
        spec_skip_while(src, st, digits_only).line == st.line,
        spec_skip_while(src, st, digits_only).tokens == st.tokens,
        spec_skip_while(src, st, digits_only).errors == st.errors,
    decreases src.len() - st.current,
{
    let c = spec_peek(src, st, 1);
    if (if digits_only { spec_is_digit(c) } else { spec_is_alphanumeric(c) }) {
        lemma_skip_while(src, spec_advance(st), digits_only);
    }
}

pub proof fn lemma_skip_comment(src: Seq<char>, st: ScanState)
    requires
        state_wf(src, st),
    ensures
        state_wf(src, spec_skip_comment(src, st)),
        spec_skip_comment(src, st).current >= st.current,
        spec_skip_comment(src, st).tokens == st.tokens,
    decreases src.len() - st.current,
{
    if spec_peek(src, st, 1) != '\n' && !spec_at_end(src, st) {
        lemma_skip_comment(src, spec_advance(st));
    }
}

pub proof fn lemma_skip_string(src: Seq<char>, st: ScanState)
    requires
        state_wf(src, st),
    ensures
        state_wf(src, spec_skip_string(src, st)),
        spec_skip_string(src, st).current >= st.current,
        spec_skip_string(src, st).start == st.start,
        spec_skip_string(src, st).tokens == st.tokens,
        spec_skip_string(src, st).errors == st.errors,
    decreases src.len() - st.current,
{
    if spec_peek(src, st, 1) != '"' && !spec_at_end(src, st) {
        let st1 = if spec_peek(src, st, 1) == '\n' { ScanState { line: st.line + 1, ..st } } else { st };
        lemma_skip_string(src, spec_advance(st1));
    }
}

pub proof fn lemma_scan_token(src: Seq<char>, st: ScanState)
    requires
        state_wf(src, st),
        st.line <= st.current + 1,
    ensures
        state_wf(src, spec_scan_token(src, st)),
        spec_scan_token(src, st).current >= st.current,
{
    let c = src[st.current];
    if c == '/' {
        let (m, st1) = spec_match_next(src, st, '/');
        if m { lemma_skip_comment(src, st1); }
    } else if c == '"' {
        lemma_skip_string(src, st);
    } else if spec_is_digit(c) {
        lemma_skip_while(src, st, true);
        let st1 = spec_skip_while(src, st, true);
        if spec_peek(src, st1, 1) == '.' && spec_is_digit(spec_peek(src, st1, 2)) {
            lemma_skip_while(src, spec_advance(st1), true);
        }
    } else if spec_is_alpha(c) {
        lemma_skip_while(src, st, false);
    }
}

/// A letter, digit or underscore: a character a word of the source (an
/// identifier or keyword) may go on with.
pub open spec fn word_char(c: char) -> bool {
    ('a' <= c && c <= 'z') || ('A' <= c && c <= 'Z') || c == '_' || ('0' <= c && c <= '9')
}

proof fn lemma_skip_word(src: Seq<char>, st: ScanState)
    requires
        state_wf(src, st),
    ensures
        ({
            let st1 = spec_skip_while(src, st, false);
            &&& forall|i: int| st.current < i <= st1.current ==> word_char(#[trigger] src[i])
            &&& (st1.current + 1 >= src.len() || !word_char(src[st1.current + 1]))
        }),
    decreases src.len() - st.current,
{
    lemma_skip_while(src, st, false);
    let c = spec_peek(src, st, 1);
    if spec_is_alphanumeric(c) {
        lemma_skip_word(src, spec_advance(st));
    }
}

/// Scanning a word that starts with a letter or underscore makes one
/// token whose lexeme is the longest run of letters, digits and
/// underscores from there: every character of it is one, and the
/// character after it (if any) is not.  The token is the keyword the
/// lexeme spells, or an identifier.
pub proof fn law_word_is_maximal(src: Seq<char>, st: ScanState)
    requires
        state_wf(src, st),
        st.start == st.current,
        ({
            let c = src[st.current];
            ('a' <= c && c <= 'z') || ('A' <= c && c <= 'Z') || c == '_'
        }),
    ensures
        ({
            let st2 = spec_scan_token(src, st);
            let j = st2.current;
            let tok = st2.tokens.last();
            &&& st2.tokens == st.tokens.push(tok)
            &&& st.current <= j < src.len()
            &&& tok.lexeme == src.subrange(st.current, j + 1)
            &&& forall|i: int| st.current <= i <= j ==> word_char(#[trigger] src[i])
            &&& (j + 1 >= src.len() || !word_char(src[j + 1]))
            &&& tok.token_type == match keyword(tok.lexeme) {
                Some(k) => k,
                None => TokenType::Identifier,
            }
        }),
{
    lemma_skip_word(src, st);
    lemma_skip_while(src, st, false);
    let st1 = spec_skip_while(src, st, false);
    assert(spec_scan_token(src, st) == spec_identifier(src, st));
    assert(spec_scan_token(src, st).tokens == st.tokens.push(spec_scan_token(src, st).tokens.last()));
}

/// Scans lexeme after lexeme until the current character is the last one.
pub open spec fn spec_scan_rest(src: Seq<char>, st: ScanState) -> ScanState
    decreases src.len() - st.current,
{
    if spec_at_end(src, st) || !state_wf(src, st) {
        st
    } else {
        let st1 = spec_advance(st);
        let st2 = ScanState { start: st1.current, ..st1 };
        proof {
            lemma_scan_token(src, st2);
        }
        spec_scan_rest(src, spec_scan_token(src, st2))
    }
}

/// The end-of-input token placed after the last lexeme.
pub open spec fn eof_token(st: ScanState) -> TokenView {
    TokenView {
        token_type: TokenType::Eof,
        lexeme: Seq::empty(),
        literal: LiteralView::Nil,
        line: st.line as usize,
        column: st.column as usize,
    }
}

/// The state after scanning all of `src`.  An empty source produces
/// nothing at all, not even an end-of-input token.
pub open spec fn spec_scan_all(src: Seq<char>) -> ScanState {
    if src.len() == 0 {
        initial_state()
    } else {
        let st = spec_scan_rest(src, spec_scan_token(src, initial_state()));
        ScanState { tokens: st.tokens.push(eof_token(st)), ..st }
    }
}

/// The tokens scanned from `src`.
pub open spec fn spec_scan(src: Seq<char>) -> Seq<TokenView> {
    spec_scan_all(src).tokens
}

/// The tokens of a non-empty source end with the end-of-input token, so
/// the parser can take them as soon as there is another token before it.
pub proof fn law_scan_ends_with_eof(src: Seq<char>)
    requires
        src.len() > 0,
    ensures
        spec_scan(src).len() > 0,
        spec_scan(src).last().token_type == TokenType::Eof,
        spec_scan(src).len() >= 2 ==> crate::grammar::parsable(spec_scan(src)),
{
}

// ---------------------------------------------------------------------
// The scanner.

/// Scans a source text into tokens, collecting the errors it meets.
pub struct Scanner {
    pub tokens: Vec<Token>,
    pub errors: Vec<ScanErr>,
    source: String,
    len: usize,
    start: usize,
    current: usize,
    line: usize,
    column: usize,
}

impl Scanner {
    /// Where the scanner stands, as a [`ScanState`].
    pub closed spec fn state(&self) -> ScanState {
        ScanState {
            start: self.start as int,
            current: self.current as int,
            line: self.line as int,
            column: self.column as int,
            tokens: self.tokens@.map_values(|t: Token| t@),
            errors: self.errors@.map_values(|e: ScanErr| e@),
        }
    }

    /// The tokens scanned so far (the public field `tokens`).
    pub fn tokens(&self) -> (r: &Vec<Token>)
        ensures
            r@.map_values(|t: Token| t@) == self.state().tokens,
    {
        &self.tokens
    }

    /// The errors found so far (the public field `errors`).
    pub fn errors(&self) -> (r: &Vec<ScanErr>)
        ensures
            r@.map_values(|e: ScanErr| e@) == self.state().errors,
    {
        &self.errors
    }

    /// The characters being scanned.
    pub closed spec fn source(&self) -> Seq<char> {
        self.source@
    }

    /// The fields agree with the source, and the state is in bounds.
    pub closed spec fn wf(&self) -> bool {
        &&& self.len as int == self.source@.len()
        &&& self.source@.len() + 3 <= usize::MAX
        &&& vstd::utf8::is_ascii_chars(self.source@)
        &&& (self.source@.len() > 0 ==> state_wf(self.source@, self.state()))
    }

    /// A scanner standing at the beginning of `source`.
    pub fn new(source: String) -> (r: Scanner)
        requires
            vstd::utf8::is_ascii_chars(source@),
            source@.len() + 3 <= usize::MAX,
        ensures
            r.wf(),
            r.source() == source@,
            r.state() == initial_state(),
    {
        let len = source.as_str().unicode_len();
        let r = Scanner {
            source,
            len,
            tokens: Vec::new(),
            errors: Vec::new(),
            start: 0,
            current: 0,
            line: 1,
            column: 1,
        };
        assert(r.state().tokens =~= Seq::<TokenView>::empty());
        assert(r.state().errors =~= Seq::<ScanErrView>::empty());
        r
    }

    /// The tokens of `source`, ending with an end-of-input token (an
    /// empty source gives no tokens).  Scanning errors are dropped.
    pub fn scan(source: String) -> (r: Vec<Token>)
        requires
            vstd::utf8::is_ascii_chars(source@),
            source@.len() + 3 <= usize::MAX,
        ensures
            r@.map_values(|t: Token| t@) == spec_scan(source@),
    {
        let mut scanner = Scanner::new(source);
        scanner.start();
        scanner.tokens
    }

    /// Scans the whole source, from the beginning.
    pub fn start(&mut self)
        requires
            old(self).wf(),
            old(self).state() == initial_state(),
        ensures
            final(self).wf(),
            final(self).source() == old(self).source(),
            final(self).state().tokens == spec_scan_all(old(self).source()).tokens,
            final(self).state().errors == spec_scan_all(old(self).source()).errors,
    {
        if self.len == 0 {
            return;
        }
        self.scan_token();
        while !self.is_at_end()
            invariant
                self.wf(),
                self.len > 0,
                self.source() == old(self).source(),
                spec_scan_rest(self.source(), self.state()) == spec_scan_rest(
                    self.source(),
                    spec_scan_token(self.source(), initial_state()),
                ),
            decreases self.len - self.current,
        {
            self.advance_char();
            self.start = self.current;
            self.scan_token();
        }
        let lexeme = String::new();
        let ghost before = self.state();
        self.tokens.push(
            Token {
                token_type: TokenType::Eof,
                lexeme,
                literal: Literal::Nil,
                line: self.line,
                column: self.column,
            },
        );
        assert(self.state().tokens =~= before.tokens.push(eof_token(before)));
    }

    fn scan_token(&mut self)
        requires
            old(self).wf(),
            old(self).len > 0,
            old(self).line <= old(self).current + 1,
        ensures
            final(self).current >= old(self).current,
            final(self).wf(),
            final(self).len == old(self).len,
            final(self).source() == old(self).source(),
            final(self).state() == spec_scan_token(old(self).source(), old(self).state()),
    {
        proof {
            lemma_scan_token(self.source(), self.state());
        }
        let ghost st0 = self.state();
        let c = self.current_char();
        if c == '(' { self.add_token(TokenType::LeftParen) }
        else if c == ')' { self.add_token(TokenType::RightParen) }
        else if c == '{' { self.add_token(TokenType::LeftBrace) }
        else if c == '}' { self.add_token(TokenType::RightBrace) }
        else if c == ',' { self.add_token(TokenType::Comma) }
        else if c == '.' { self.add_token(TokenType::Dot) }
        else if c == '-' { self.add_token(TokenType::Minus) }
        else if c == '+' { self.add_token(TokenType::Plus) }
        else if c == ';' { self.add_token(TokenType::Semicolon) }
        else if c == '*' { self.add_token(TokenType::Star) }
        else if c == '!' { self.one_or_two(TokenType::Bang, TokenType::BangEqual) }
        else if c == '=' { self.one_or_two(TokenType::Equal, TokenType::EqualEqual) }
        else if c == '<' { self.one_or_two(TokenType::Less, TokenType::LessEqual) }
        else if c == '>' { self.one_or_two(TokenType::Greater, TokenType::GreaterEqual) }
        else if c == '/' {
            if self.match_next_char('/') {
                self.skip_comment();
            } else {
                self.add_token(TokenType::Slash);
            }
        }
        else if c == '"' { self.string() }
        else if is_digit(c) { self.number() }
        else if c == ' ' || c == '\r' || c == '\t' { }
        else if c == '\n' {
            self.line = self.line + 1;
            self.column = 1;
        }
        else if is_alpha(c) { self.identifier() }
        else {
            let mut message = string_of("Unrecognized character: '");
            push_char(&mut message, c);
            push_str(&mut message, "'");
            assert(message@ =~= unrecognized_message(c));
            self.add_error(message);
        }
    }

    fn one_or_two(&mut self, one: TokenType, two: TokenType)
        requires
            old(self).wf(),
            old(self).len > 0,
        ensures
            final(self).wf(),
            final(self).len == old(self).len,
            final(self).source() == old(self).source(),
            final(self).state() == spec_one_or_two(old(self).source(), old(self).state(), one, two),
    {
        let t = if self.match_next_char('=') { two } else { one };
        self.add_token(t);
    }

    fn skip_comment(&mut self)
        requires
            old(self).wf(),
            old(self).len > 0,
        ensures
            final(self).wf(),
            final(self).len == old(self).len,
            final(self).source() == old(self).source(),
            final(self).state() == spec_skip_comment(old(self).source(), old(self).state()),
    {
        while self.peek(1) != '\n' && !self.is_at_end()
            invariant
                self.wf(),
                self.len > 0,
                self.len == old(self).len,
                self.source() == old(self).source(),
                spec_skip_comment(self.source(), self.state()) == spec_skip_comment(
                    old(self).source(),
                    old(self).state(),
                ),
            decreases self.len - self.current,
        {
            self.advance_char();
        }
    }

    fn skip_while(&mut self, digits_only: bool)
        requires
            old(self).wf(),
            old(self).len > 0,
        ensures
            final(self).wf(),
            final(self).len == old(self).len,
            final(self).source() == old(self).source(),
            final(self).state() == spec_skip_while(old(self).source(), old(self).state(), digits_only),
    {
        loop
            invariant
                self.wf(),
                self.len > 0,
                self.len == old(self).len,
                self.source() == old(self).source(),
                spec_skip_while(self.source(), self.state(), digits_only) == spec_skip_while(
                    old(self).source(),
                    old(self).state(),
                    digits_only,
                ),
            ensures
                self.wf(),
                self.len == old(self).len,
                self.source() == old(self).source(),
                self.state() == spec_skip_while(old(self).source(), old(self).state(), digits_only),
            decreases self.len - self.current,
        {
            let c = self.peek(1);
            let more = if digits_only { is_digit(c) } else { is_alphanumeric(c) };
            if !more {
                break;
            }
            self.advance_char();
        }
    }

    fn identifier(&mut self)
        requires
            old(self).wf(),
            old(self).len > 0,
        ensures
            final(self).wf(),
            final(self).len == old(self).len,
            final(self).source() == old(self).source(),
            final(self).state() == spec_identifier(old(self).source(), old(self).state()),
    {
        self.skip_while(false);
        let text = self.get_current_substr();
        let token_type = match keyword_type(&text) {
            Some(t) => t,
            None => TokenType::Identifier,
        };
        self.add_token(token_type);
    }

    fn number(&mut self)
        requires
            old(self).wf(),
            old(self).len > 0,
        ensures
            final(self).wf(),
            final(self).len == old(self).len,
            final(self).source() == old(self).source(),
            final(self).state() == spec_number(old(self).source(), old(self).state()),
    {
        self.skip_while(true);
        if self.peek(1) == '.' && is_digit(self.peek(2)) {
            self.advance_char();
            self.skip_while(true);
        }
        let digits = self.get_current_substr();
        self.add_literal_token(TokenType::Num, Literal::Num(digits));
    }

    fn string(&mut self)
        requires
            old(self).wf(),
            old(self).len > 0,
        ensures
            final(self).wf(),
            final(self).len == old(self).len,
            final(self).source() == old(self).source(),
            final(self).state() == spec_string(old(self).source(), old(self).state()),
    {
        while self.peek(1) != '"' && !self.is_at_end()
            invariant
                self.wf(),
                self.len > 0,
                self.len == old(self).len,
                self.source() == old(self).source(),
                spec_skip_string(self.source(), self.state()) == spec_skip_string(
                    old(self).source(),
                    old(self).state(),
                ),
            decreases self.len - self.current,
        {
            let newline = self.peek(1) == '\n';
            self.advance_char();
            if newline {
                self.line = self.line + 1;
            }
        }
        if self.is_at_end() {
            self.add_error(string_of("Unterminated string"));
            return;
        }
        self.advance_char();
        let value = get_char_substr(&self.source, self.start + 1, self.current - 1);
        self.add_literal_token(TokenType::Str, Literal::Str(value));
    }

    fn add_error(&mut self, message: String)
        requires
            old(self).wf(),
        ensures
            final(self).wf(),
            final(self).len == old(self).len,
            final(self).source() == old(self).source(),
            final(self).state() == spec_add_error(old(self).state(), message@),
    {
        let e = ScanErr { message, line: self.line, column: self.column };
        self.errors.push(e);
        assert(self.state().errors =~= old(self).state().errors.push(e@));
        assert(self.state().tokens =~= old(self).state().tokens);
    }

    fn is_at_end(&self) -> (r: bool)
        requires
            self.wf(),
            self.len > 0,
        ensures
            r == spec_at_end(self.source(), self.state()),
    {
        self.current >= self.len - 1
    }

    fn match_next_char(&mut self, expected: char) -> (r: bool)
        requires
            old(self).wf(),
            old(self).len > 0,
        ensures
            final(self).wf(),
            final(self).len == old(self).len,
            final(self).source() == old(self).source(),
            (r, final(self).state()) == spec_match_next(old(self).source(), old(self).state(), expected),
    {
        if self.is_at_end() {
            return false;
        }
        if self.peek(1) == expected {
            self.current = self.current + 1;
            true
        } else {
            false
        }
    }

    fn advance_char(&mut self) -> (c: char)
        requires
            old(self).wf(),
            old(self).current + 1 < old(self).len,
        ensures
            final(self).wf(),
            final(self).len == old(self).len,
            final(self).source() == old(self).source(),
            final(self).state() == spec_advance(old(self).state()),
            c == old(self).source()[old(self).current + 1],
    {
        self.current = self.current + 1;
        self.column = self.column + 1;
        self.current_char()
    }

    fn peek(&self, distance: usize) -> (c: char)
        requires
            self.wf(),
            self.len > 0,
            distance <= 2,
        ensures
            c == spec_peek(self.source(), self.state(), distance as int),
    {
        if self.current + distance >= self.len {
            '\0'
        } else {
            self.char_at(self.current + distance)
        }
    }

    fn add_token(&mut self, token_type: TokenType)
        requires
            old(self).wf(),
            old(self).len > 0,
        ensures
            final(self).wf(),
            final(self).len == old(self).len,
            final(self).source() == old(self).source(),
            final(self).state() == spec_add_token(old(self).source(), old(self).state(), token_type),
    {
        self.add_literal_token(token_type, Literal::Nil);
    }

    fn add_literal_token(&mut self, token_type: TokenType, literal: Literal)
        requires
            old(self).wf(),
            old(self).len > 0,
        ensures
            final(self).wf(),
            final(self).len == old(self).len,
            final(self).source() == old(self).source(),
            final(self).state() == spec_add_literal_token(
                old(self).source(),
                old(self).state(),
                token_type,
                literal@,
            ),
    {
        let text = get_char_substr(&self.source, self.start, self.current);
        let t = Token { token_type, literal, lexeme: text, line: self.line, column: self.column };
        self.tokens.push(t);
        assert(self.state().tokens =~= old(self).state().tokens.push(t@));
        assert(self.state().errors =~= old(self).state().errors);
    }

    fn char_at(&self, idx: usize) -> (c: char)
        requires
            self.wf(),
            idx < self.len,
        ensures
            c == self.source()[idx as int],
    {
        self.source.as_str().get_char(idx)
    }

    fn current_char(&self) -> (c: char)
        requires
            self.wf(),
            self.len > 0,
        ensures
            c == self.source()[self.current as int],
    {
        self.char_at(self.current)
    }

    fn get_current_substr(&self) -> (r: String)
        requires
            self.wf(),
            self.len > 0,
        ensures
            r@ == spec_substr(self.source(), self.start as int, self.current as int),
    {
        get_char_substr(&self.source, self.start, self.current)
    }
}

/// The characters of `s` from `start` to `end`, both included.
pub fn get_char_substr(s: &String, start: usize, end: usize) -> (r: String)
    requires
        end < usize::MAX,
        start <= end + 1,
        end < s@.len(),
    ensures
        r@ == s@.subrange(start as int, end + 1),
{
    s.as_str().substring_char(start, end + 1).to_owned()
}

} // verus!
