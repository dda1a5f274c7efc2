use vstd::prelude::*;
use crate::token::{keyword_kind, Kind, Token, TokenType, TokenView};

verus! {

/// The two lexical errors. Neither stops the scan.
#[derive(Clone, Copy, Debug, PartialEq, Eq)]
pub enum LexErrorKind {
    /// A string literal whose closing quote never came.
    UnterminatedString,
    /// A character that starts no token.
    UnrecognizedCharacter(char),
}

/// A lexical error and the 1-based line on which it was found.
#[derive(Clone, Copy, Debug, PartialEq, Eq)]
pub struct LexError {
    pub kind: LexErrorKind,
    pub line: usize,
}

pub ghost struct LexErrorView {
    pub kind: LexErrorKind,
    pub line: nat,
}

impl View for LexError {
    type V = LexErrorView;

    open spec fn view(&self) -> LexErrorView {
        LexErrorView { kind: self.kind, line: self.line as nat }
    }
}

pub open spec fn token_views(v: Seq<Token>) -> Seq<TokenView> {
    v.map_values(|t: Token| t@)
}

pub open spec fn error_views(v: Seq<LexError>) -> Seq<LexErrorView> {
    v.map_values(|e: LexError| e@)
}

pub open spec fn is_digit(c: char) -> bool {
    '0' <= c && c <= '9'
}

pub open spec fn is_alpha(c: char) -> bool {
    ('a' <= c && c <= 'z') || ('A' <= c && c <= 'Z') || c == '_'
}

pub open spec fn is_alpha_numeric(c: char) -> bool {
    is_alpha(c) || is_digit(c)
}

/// The classes of characters that a lexeme's tail runs over.
pub ghost enum CharClass {
    AlphaNumeric,
    Digit,
    NotNewline,
    NotQuote,
}

pub open spec fn in_class(c: char, k: CharClass) -> bool {
    match k {
        CharClass::AlphaNumeric => is_alpha_numeric(c),
        CharClass::Digit => is_digit(c),
        CharClass::NotNewline => c != '\n',
        CharClass::NotQuote => c != '"',
    }
}

/// The end of the longest run of class `k` that starts at `i`.
pub open spec fn run_end(s: Seq<char>, i: int, k: CharClass) -> int
    decreases s.len() - i,
{
    if 0 <= i < s.len() && in_class(s[i], k) {
        run_end(s, i + 1, k)
    } else {
        i
    }
}

/// The character at `i`, or NUL past either end.
pub open spec fn char_at(s: Seq<char>, i: int) -> char {
    if 0 <= i < s.len() {
        s[i]
    } else {
        '\0'
    }
}

/// The number of newlines in `s[lo..hi]`.
pub open spec fn newlines_in(s: Seq<char>, lo: int, hi: int) -> nat
    decreases hi - lo,
{
    if hi <= lo {
        0
    } else {
        newlines_in(s, lo, hi - 1) + if s[hi - 1] == '\n' {
            1nat
        } else {
            0nat
        }
    }
}

/// The end of a number literal starting at `start`: digits, then a dot and
/// more digits only where a digit follows the dot.
pub open spec fn number_end(s: Seq<char>, start: int) -> int {
    let e = run_end(s, start, CharClass::Digit);
    if char_at(s, e) == '.' && is_digit(char_at(s, e + 1)) {
        run_end(s, e + 1, CharClass::Digit)
    } else {
        e
    }
}

/// The kind of a word: its reserved kind, else `Identifier`.
pub open spec fn word_kind(w: Seq<char>) -> TokenType {
    match keyword_kind(w) {
        Some(t) => t,
        None => TokenType::Identifier,
    }
}

pub open spec fn single_char_kind(c: char) -> Option<TokenType> {
    if c == '(' {
        Some(TokenType::LeftParen)
    } else if c == ')' {
        Some(TokenType::RightParen)
    } else if c == '{' {
        Some(TokenType::LeftBrace)
    } else if c == '}' {
        Some(TokenType::RightBrace)
    } else if c == ',' {
        Some(TokenType::Comma)
    } else if c == '.' {
        Some(TokenType::Dot)
    } else if c == '-' {
        Some(TokenType::Minus)
    } else if c == '+' {
        Some(TokenType::Plus)
    } else if c == ';' {
        Some(TokenType::Semicolon)
    } else if c == '*' {
        Some(TokenType::Star)
    } else {
        None
    }
}

/// For a character that may start a two-character operator: the kind alone
/// and the kind followed by `=`.
pub open spec fn operator_kinds(c: char) -> Option<(TokenType, TokenType)> {
    if c == '!' {
        Some((TokenType::Bang, TokenType::BangEqual))
    } else if c == '=' {
        Some((TokenType::Equal, TokenType::EqualEqual))
    } else if c == '>' {
        Some((TokenType::Greater, TokenType::GreaterEqual))
    } else if c == '<' {
        Some((TokenType::Less, TokenType::LessEqual))
    } else {
        None
    }
}

/// The outcome of scanning one lexeme: where it ends, and the token or the
/// error it gives.
pub ghost struct Step {
    pub end: int,
    pub token: Option<Kind>,
    pub error: Option<LexErrorKind>,
}

/// Scanning the lexeme that starts at `start` (with `start < s.len()`).
pub open spec fn step(s: Seq<char>, start: int) -> Step {
    let c = s[start];
    if single_char_kind(c) is Some {
        Step { end: start + 1, token: Some(single_char_kind(c)->0.kind()), error: None }
    } else if operator_kinds(c) is Some {
        let (one, two) = operator_kinds(c)->0;
        if char_at(s, start + 1) == '=' {
            Step { end: start + 2, token: Some(two.kind()), error: None }
        } else {
            Step { end: start + 1, token: Some(one.kind()), error: None }
        }
    } else if c == '/' {
        if char_at(s, start + 1) == '/' {
            Step { end: run_end(s, start + 2, CharClass::NotNewline), token: None, error: None }
        } else {
            Step { end: start + 1, token: Some(TokenType::Slash.kind()), error: None }
        }
    } else if c == ' ' || c == '\t' || c == '\r' || c == '\n' {
        Step { end: start + 1, token: None, error: None }
    } else if c == '"' {
        let q = run_end(s, start + 1, CharClass::NotQuote);
        if q >= s.len() {
            Step { end: s.len() as int, token: None, error: Some(LexErrorKind::UnterminatedString) }
        } else {
            Step { end: q + 1, token: Some(Kind::Str(s.subrange(start + 1, q))), error: None }
        }
    } else if is_digit(c) {
        let e = number_end(s, start);
        Step { end: e, token: Some(Kind::Num(s.subrange(start, e))), error: None }
    } else if is_alpha(c) {
        let e = run_end(s, start + 1, CharClass::AlphaNumeric);
        Step { end: e, token: Some(word_kind(s.subrange(start, e)).kind()), error: None }
    } else {
        Step { end: start + 1, token: None, error: Some(LexErrorKind::UnrecognizedCharacter(c)) }
    }
}

/// The tokens that the lexeme at `start`, begun on `line`, contributes.
pub open spec fn step_tokens(s: Seq<char>, start: int, line: nat) -> Seq<TokenView> {
    let st = step(s, start);
    match st.token {
        Some(k) => seq![TokenView { kind: k, lexeme: s.subrange(start, st.end), line: line }],
        None => seq![],
    }
}

/// The errors that the lexeme at `start`, begun on `line`, contributes; an
/// error carries the line reached at the end of the lexeme.
pub open spec fn step_errors(s: Seq<char>, start: int, line: nat) -> Seq<LexErrorView> {
    let st = step(s, start);
    match st.error {
        Some(e) => seq![LexErrorView { kind: e, line: line + newlines_in(s, start, st.end) }],
        None => seq![],
    }
}

/// The outcome of a scan: tokens and errors, each in source order.
pub ghost struct Scan {
    pub tokens: Seq<TokenView>,
    pub errors: Seq<LexErrorView>,
}

pub open spec fn end_token(line: nat) -> TokenView {
    TokenView { kind: Kind::Plain(TokenType::End), lexeme: seq![], line: line }
}

/// Scanning `s` from `pos`, with `line` the line of `pos`.
pub open spec fn scan_from(s: Seq<char>, pos: int, line: nat) -> Scan
    decreases s.len() - pos,
    via scan_from_decreases
{
    if pos < 0 || pos >= s.len() {
        Scan { tokens: seq![end_token(line)], errors: seq![] }
    } else {
        let end = step(s, pos).end;
        let rest = scan_from(s, end, line + newlines_in(s, pos, end));
        Scan {
            tokens: step_tokens(s, pos, line) + rest.tokens,
            errors: step_errors(s, pos, line) + rest.errors,
        }
    }
}

#[via_fn]
proof fn scan_from_decreases(s: Seq<char>, pos: int, line: nat) {
    if 0 <= pos < s.len() {
        lemma_step_bounds(s, pos);
    }
}

/// Scanning a whole buffer, from line 1.
pub open spec fn scan(s: Seq<char>) -> Scan {
    scan_from(s, 0, 1)
}

pub proof fn lemma_run_end(s: Seq<char>, i: int, k: CharClass)
    requires
        0 <= i <= s.len(),
    ensures
        i <= run_end(s, i, k) <= s.len(),
        forall|j: int| i <= j < run_end(s, i, k) ==> in_class(#[trigger] s[j], k),
        run_end(s, i, k) < s.len() ==> !in_class(s[run_end(s, i, k)], k),
    decreases s.len() - i,
{
    if i < s.len() && in_class(s[i], k) {
        lemma_run_end(s, i + 1, k);
    }
}

pub proof fn lemma_step_bounds(s: Seq<char>, start: int)
    requires
        0 <= start < s.len(),
    ensures
        start < step(s, start).end <= s.len(),
{
    let c = s[start];
    lemma_run_end(s, start, CharClass::Digit);
    lemma_run_end(s, start + 1, CharClass::NotQuote);
    lemma_run_end(s, start + 1, CharClass::AlphaNumeric);
    if start + 2 <= s.len() {
        lemma_run_end(s, start + 2, CharClass::NotNewline);
    }
    let e = run_end(s, start, CharClass::Digit);
    if e + 1 <= s.len() {
        lemma_run_end(s, e + 1, CharClass::Digit);
    }
}

pub proof fn lemma_newlines_bound(s: Seq<char>, lo: int, hi: int)
    requires
        lo <= hi,
    ensures
        newlines_in(s, lo, hi) <= hi - lo,
    decreases hi - lo,
{
    if lo < hi {
        lemma_newlines_bound(s, lo, hi - 1);
    }
}

pub proof fn lemma_newlines_split(s: Seq<char>, a: int, b: int, c: int)
    requires
        a <= b <= c,
    ensures
        newlines_in(s, a, c) == newlines_in(s, a, b) + newlines_in(s, b, c),
    decreases c - b,
{
    if b < c {
        lemma_newlines_split(s, a, b, c - 1);
    }
}

pub proof fn lemma_newlines_none(s: Seq<char>, lo: int, hi: int)
    requires
        forall|j: int| lo <= j < hi ==> #[trigger] s[j] != '\n',
    ensures
        newlines_in(s, lo, hi) == 0,
    decreases hi - lo,
{
    if lo < hi {
        lemma_newlines_none(s, lo, hi - 1);
    }
}

/// The source span `[start, end)` of each token that the scan from `pos`
/// yields, in order, the closing `End` token excepted.
pub open spec fn scan_spans(s: Seq<char>, pos: int) -> Seq<(int, int)>
    decreases s.len() - pos,
    via scan_spans_decreases
{
    if pos < 0 || pos >= s.len() {
        seq![]
    } else {
        let st = step(s, pos);
        let here: Seq<(int, int)> = if st.token is Some {
            seq![(pos, st.end)]
        } else {
            seq![]
        };
        here + scan_spans(s, st.end)
    }
}

#[via_fn]
proof fn scan_spans_decreases(s: Seq<char>, pos: int) {
    if 0 <= pos < s.len() {
        lemma_step_bounds(s, pos);
    }
}

proof fn lemma_scan_from(s: Seq<char>, pos: int, line: nat)
    requires
        0 <= pos <= s.len(),
    ensures
        ({
            let t = scan_from(s, pos, line).tokens;
            let sp = scan_spans(s, pos);
            &&& t.len() >= 1
            &&& t.last() == end_token(line + newlines_in(s, pos, s.len() as int))
            &&& forall|i: int| 0 <= i < t.len() - 1 ==> #[trigger] t[i].kind != Kind::Plain(TokenType::End)
            &&& sp.len() == t.len() - 1
            &&& forall|i: int|
                0 <= i < sp.len() ==> pos <= (#[trigger] sp[i]).0 < sp[i].1 <= s.len() && t[i].lexeme
                    == s.subrange(sp[i].0, sp[i].1)
            &&& forall|i: int| 0 <= i < sp.len() - 1 ==> (#[trigger] sp[i]).1 <= sp[i + 1].0
        }),
    decreases s.len() - pos,
{
    if pos < s.len() {
        let st = step(s, pos);
        lemma_step_bounds(s, pos);
        let nl = newlines_in(s, pos, st.end);
        lemma_scan_from(s, st.end, line + nl);
        lemma_newlines_split(s, pos, st.end, s.len() as int);
        let t = scan_from(s, pos, line).tokens;
        let rest = scan_from(s, st.end, line + nl).tokens;
        let sp = scan_spans(s, pos);
        let rsp = scan_spans(s, st.end);
        assert(t == step_tokens(s, pos, line) + rest);
        if st.token is Some {
            assert(t.last() == rest.last());
            assert forall|i: int| 0 <= i < sp.len() - 1 implies (#[trigger] sp[i]).1 <= sp[i + 1].0 by {
                if i > 0 {
                    assert(sp[i] == rsp[i - 1]);
                    assert(sp[i + 1] == rsp[i]);
                } else if rsp.len() > 0 {
                    assert(sp[1] == rsp[0]);
                }
            }
            assert forall|i: int| 0 <= i < sp.len() implies pos <= (#[trigger] sp[i]).0 < sp[i].1
                <= s.len() && t[i].lexeme == s.subrange(sp[i].0, sp[i].1) by {
                if i > 0 {
                    assert(sp[i] == rsp[i - 1]);
                    assert(t[i] == rest[i - 1]);
                }
            }
            assert forall|i: int| 0 <= i < t.len() - 1 implies #[trigger] t[i].kind != Kind::Plain(TokenType::End) by {
                if i > 0 {
                    assert(t[i] == rest[i - 1]);
                }
            }
        } else {
            assert(t =~= rest);
            assert(sp =~= rsp);
        }
    } else {
        assert(newlines_in(s, pos, s.len() as int) == 0);
    }
}

/// Every scan closes with exactly one `End` token: it is last, its lexeme is
/// empty, and no other token has that kind.
pub proof fn law_end_marker_once(s: Seq<char>)
    ensures
        ({
            let t = scan(s).tokens;
            &&& t.len() >= 1
            &&& t.last().kind == Kind::Plain(TokenType::End)
            &&& t.last().lexeme.len() == 0
            &&& forall|i: int| 0 <= i < t.len() - 1 ==> #[trigger] t[i].kind != Kind::Plain(TokenType::End)
        }),
{
    lemma_scan_from(s, 0, 1);
}

/// The line of the closing `End` token is one more than the number of
/// newlines in the buffer: every newline, inside a string literal or not,
/// advances the line exactly once.
pub proof fn law_final_line_counts_newlines(s: Seq<char>)
    ensures
        scan(s).tokens.last().line == 1 + newlines_in(s, 0, s.len() as int),
{
    lemma_scan_from(s, 0, 1);
}

/// Each token but `End` carries as its lexeme the exact slice of the buffer
/// it was scanned from; these slices are non-empty, in order and disjoint.
pub proof fn law_lexemes_are_source_slices(s: Seq<char>)
    ensures
        ({
            let t = scan(s).tokens;
            let sp = scan_spans(s, 0);
            &&& sp.len() == t.len() - 1
            &&& forall|i: int|
                0 <= i < sp.len() ==> 0 <= (#[trigger] sp[i]).0 < sp[i].1 <= s.len() && t[i].lexeme
                    == s.subrange(sp[i].0, sp[i].1)
            &&& forall|i: int| 0 <= i < sp.len() - 1 ==> (#[trigger] sp[i]).1 <= sp[i + 1].0
        }),
{
    lemma_scan_from(s, 0, 1);
}

} // verus!
