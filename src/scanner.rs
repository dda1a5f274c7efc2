use vstd::prelude::*;
use crate::lexer_spec::{
    char_at, end_token, error_views, in_class, is_alpha, is_alpha_numeric, is_digit,
    lemma_newlines_bound, lemma_newlines_none, lemma_newlines_split, lemma_run_end,
    lemma_step_bounds, newlines_in, number_end, run_end, scan, scan_from, step, step_errors,
    step_tokens, token_views, word_kind, CharClass, LexError, LexErrorKind,
};
use crate::payload::{ScanResult, ScanResultView};
use crate::text::{chars_of, string_of_range};
use crate::token::{keyword, Kind, Token, TokenType, TokenView};

verus! {

/// Turns one complete source buffer into tokens. The buffer is decoded into
/// characters once, so that every lookahead is a constant-time index.
pub struct Scanner {
    source: Vec<char>,
    tokens: Vec<Token>,
    errors: Vec<LexError>,
    start: usize,
    current: usize,
    line: usize,
}

impl Scanner {
    /// The characters of the buffer being scanned.
    pub closed spec fn text(&self) -> Seq<char> {
        self.source@
    }

    /// Nothing has been scanned yet.
    pub closed spec fn is_fresh(&self) -> bool {
        &&& self.tokens@.len() == 0
        &&& self.errors@.len() == 0
        &&& self.start == 0
        &&& self.current == 0
        &&& self.line == 1
        &&& self.source@.len() < usize::MAX
    }

    pub fn new(source: String) -> (r: Scanner)
        requires
            source@.len() < usize::MAX,
        ensures
            r.text() == source@,
            r.is_fresh(),
    {
        Scanner {
            source: chars_of(source.as_str()),
            tokens: Vec::new(),
            errors: Vec::new(),
            start: 0,
            current: 0,
            line: 1,
        }
    }

    /// The character at `current`, or NUL at the end.
    fn peek(current: usize, source: &Vec<char>) -> (r: char)
        ensures
            r == char_at(source@, current as int),
    {
        if Self::is_at_end(current, source.len()) {
            return '\0';
        }
        source[current]
    }

    /// The character after the one at `current`, or NUL past the end.
    fn double_peek(current: usize, source: &Vec<char>) -> (r: char)
        requires
            current < source@.len(),
        ensures
            r == char_at(source@, current + 1),
    {
        if current >= source.len() - 1 {
            return '\0';
        }
        source[current + 1]
    }

    fn is_at_end(current: usize, source_len: usize) -> (r: bool)
        ensures
            r == (current >= source_len),
    {
        current >= source_len
    }

    /// Whether the character at `current` is `expected`; nothing is consumed.
    fn cond_advance(source: &Vec<char>, current: usize, expected: char) -> (r: bool)
        ensures
            r == (current < source@.len() && source@[current as int] == expected),
    {
        if Self::is_at_end(current, source.len()) {
            return false;
        }
        source[current] == expected
    }

    /// The character at `current`, which the caller then moves past.
    fn advance(source: &Vec<char>, current: usize) -> (r: char)
        requires
            current < source@.len(),
        ensures
            r == source@[current as int],
    {
        source[current]
    }

    fn is_digit(c: char) -> (r: bool)
        ensures
            r == is_digit(c),
    {
        '0' <= c && c <= '9'
    }

    /// Letters and the underscore start a word.
    fn is_alpha(c: char) -> (r: bool)
        ensures
            r == is_alpha(c),
    {
        ('a' <= c && c <= 'z') || ('A' <= c && c <= 'Z') || c == '_'
    }

    fn is_alpha_numeric(c: char) -> (r: bool)
        ensures
            r == is_alpha_numeric(c),
    {
        Self::is_alpha(c) || Self::is_digit(c)
    }

    /// Appends a token of kind `t` whose lexeme is `source[start..current]`.
    fn add_token(
        t: TokenType,
        tokens: &mut Vec<Token>,
        start: usize,
        current: usize,
        source: &Vec<char>,
        line: usize,
    )
        requires
            start <= current <= source@.len(),
        ensures
            token_views(final(tokens)@) == token_views(old(tokens)@).push(
                TokenView {
                    kind: t.kind(),
                    lexeme: source@.subrange(start as int, current as int),
                    line: line as nat,
                },
            ),
    {
        let text = string_of_range(source, start, current);
        tokens.push(Token::new(t, text, line));
        proof {
            assert(token_views(final(tokens)@) =~= token_views(old(tokens)@).push(
                TokenView {
                    kind: t.kind(),
                    lexeme: source@.subrange(start as int, current as int),
                    line: line as nat,
                },
            ));
        }
    }

    /// Scans the rest of a word whose first character lies just before
    /// `current`: the longest run of letters, digits and underscores.
    fn identifier_or_keyword(current: usize, source: &Vec<char>, start: usize) -> (res: ScanResult)
        requires
            start < current <= source@.len(),
        ensures
            ({
                let e = run_end(source@, current as int, CharClass::AlphaNumeric);
                res@ == ScanResultView {
                    read: (e - current) as nat,
                    lines: 0,
                    token: Some(word_kind(source@.subrange(start as int, e))),
                }
            }),
    {
        let n = source.len();
        let mut res = ScanResult::new();
        let mut loc_current = current;
        while Self::is_alpha_numeric(Self::peek(loc_current, source))
            invariant
                n == source@.len(),
                current <= loc_current <= source@.len(),
                run_end(source@, loc_current as int, CharClass::AlphaNumeric) == run_end(
                    source@,
                    current as int,
                    CharClass::AlphaNumeric,
                ),
                res@ == (ScanResultView { read: (loc_current - current) as nat, lines: 0, token: None }),
            decreases source@.len() - loc_current,
        {
            res.inc_read();
            loc_current = loc_current + 1;
        }
        let kw = keyword(source, start, loc_current);
        match kw {
            Some(t) => res.set_token(t),
            None => res.set_token(TokenType::Identifier),
        }
        res
    }

    /// Scans the rest of a number literal whose first digit lies just before
    /// `current`. A dot belongs to it only where a digit follows the dot.
    fn number(current: usize, source: &Vec<char>, start: usize) -> (res: ScanResult)
        requires
            current == start + 1,
            current <= source@.len(),
            is_digit(source@[start as int]),
        ensures
            ({
                let e = number_end(source@, start as int);
                &&& res@.read == e - current
                &&& res@.lines == 0
                &&& res@.token is Some
                &&& res@.token->0.kind() == Kind::Num(source@.subrange(start as int, e))
            }),
    {
        let ghost s = source@;
        let n = source.len();
        let mut res = ScanResult::new();
        let mut loc_current = current;
        assert(run_end(s, start as int, CharClass::Digit) == run_end(s, current as int, CharClass::Digit));
        while Self::is_digit(Self::peek(loc_current, source))
            invariant
                current <= loc_current <= s.len(),
                s == source@,
                n == s.len(),
                run_end(s, loc_current as int, CharClass::Digit) == run_end(s, start as int, CharClass::Digit),
                res@ == (ScanResultView { read: (loc_current - current) as nat, lines: 0, token: None }),
            decreases s.len() - loc_current,
        {
            res.inc_read();
            loc_current = loc_current + 1;
        }
        if Self::peek(loc_current, source) == '.' && Self::is_digit(Self::double_peek(loc_current, source)) {
            res.inc_read();
            loc_current = loc_current + 1;
            assert(run_end(s, loc_current as int, CharClass::Digit) == number_end(s, start as int));
            while Self::is_digit(Self::peek(loc_current, source))
                invariant
                    current <= loc_current <= s.len(),
                    s == source@,
                    n == s.len(),
                    run_end(s, loc_current as int, CharClass::Digit) == number_end(s, start as int),
                    res@ == (ScanResultView { read: (loc_current - current) as nat, lines: 0, token: None }),
                decreases s.len() - loc_current,
            {
                res.inc_read();
                loc_current = loc_current + 1;
            }
        }
        let text = string_of_range(source, start, loc_current);
        res.set_token(TokenType::Number(text));
        res
    }

    /// Scans the rest of a string literal whose opening quote lies just
    /// before `current`, counting the newlines inside it. Without a closing
    /// quote it consumes the rest of the buffer and yields no token.
    fn string(current: usize, source: &Vec<char>, start: usize) -> (res: ScanResult)
        requires
            current == start + 1,
            current <= source@.len(),
        ensures
            ({
                let q = run_end(source@, current as int, CharClass::NotQuote);
                if q >= source@.len() {
                    res@ == ScanResultView {
                        read: (source@.len() - current) as nat,
                        lines: newlines_in(source@, current as int, source@.len() as int),
                        token: None,
                    }
                } else {
                    &&& res@.read == q + 1 - current
                    &&& res@.lines == newlines_in(source@, current as int, q)
                    &&& res@.token is Some
                    &&& res@.token->0.kind() == Kind::Str(source@.subrange(current as int, q))
                }
            }),
    {
        let ghost s = source@;
        let mut res = ScanResult::new();
        let mut loc_current = current;
        while Self::peek(loc_current, source) != '"' && !Self::is_at_end(loc_current, source.len())
            invariant
                current <= loc_current <= s.len(),
                s == source@,
                run_end(s, loc_current as int, CharClass::NotQuote) == run_end(s, current as int, CharClass::NotQuote),
                res@.read == loc_current - current,
                res@.lines == newlines_in(s, current as int, loc_current as int),
                res@.lines <= res@.read,
                res@.token is None,
            decreases s.len() - loc_current,
        {
            if Self::peek(loc_current, source) == '\n' {
                res.inc_lines();
            }
            res.inc_read();
            loc_current = loc_current + 1;
        }
        if Self::is_at_end(loc_current, source.len()) {
            return res;
        }
        res.inc_read();
        loc_current = loc_current + 1;
        let text = string_of_range(source, start + 1, loc_current - 1);
        res.set_token(TokenType::String(text));
        res
    }

    /// Scans the lexeme that starts at `start`, on `line`: appends the token
    /// or the error it gives, and reports how many characters it consumed and
    /// how many newlines lay among them.
    #[verifier::rlimit(50)]
    fn scan_token(
        source: &Vec<char>,
        start: usize,
        line: usize,
        tokens: &mut Vec<Token>,
        errors: &mut Vec<LexError>,
    ) -> (res: ScanResult)
        requires
            start < source@.len(),
            line + (source@.len() - start) <= usize::MAX,
        ensures
            res@.read == step(source@, start as int).end - start,
            res@.lines == newlines_in(source@, start as int, step(source@, start as int).end),
            token_views(final(tokens)@) == token_views(old(tokens)@) + step_tokens(
                source@,
                start as int,
                line as nat,
            ),
            error_views(final(errors)@) == error_views(old(errors)@) + step_errors(
                source@,
                start as int,
                line as nat,
            ),
    {
        let ghost s = source@;
        proof {
            lemma_step_bounds(s, start as int);
        }
        let n = source.len();
        let mut res = ScanResult::new();
        let current = start + 1;
        let c = Self::advance(source, start);
        match c {
            '(' => Self::add_token(TokenType::LeftParen, tokens, start, current, source, line),
            ')' => Self::add_token(TokenType::RightParen, tokens, start, current, source, line),
            '{' => Self::add_token(TokenType::LeftBrace, tokens, start, current, source, line),
            '}' => Self::add_token(TokenType::RightBrace, tokens, start, current, source, line),
            ',' => Self::add_token(TokenType::Comma, tokens, start, current, source, line),
            '.' => Self::add_token(TokenType::Dot, tokens, start, current, source, line),
            '-' => Self::add_token(TokenType::Minus, tokens, start, current, source, line),
            '+' => Self::add_token(TokenType::Plus, tokens, start, current, source, line),
            ';' => Self::add_token(TokenType::Semicolon, tokens, start, current, source, line),
            '*' => Self::add_token(TokenType::Star, tokens, start, current, source, line),
            '!' => {
                if Self::cond_advance(source, current, '=') {
                    Self::add_token(TokenType::BangEqual, tokens, start, current + 1, source, line);
                    res.inc_read();
                } else {
                    Self::add_token(TokenType::Bang, tokens, start, current, source, line);
                }
            }
            '=' => {
                if Self::cond_advance(source, current, '=') {
                    Self::add_token(TokenType::EqualEqual, tokens, start, current + 1, source, line);
                    res.inc_read();
                } else {
                    Self::add_token(TokenType::Equal, tokens, start, current, source, line);
                }
            }
            '>' => {
                if Self::cond_advance(source, current, '=') {
                    Self::add_token(TokenType::GreaterEqual, tokens, start, current + 1, source, line);
                    res.inc_read();
                } else {
                    Self::add_token(TokenType::Greater, tokens, start, current, source, line);
                }
            }
            '<' => {
                if Self::cond_advance(source, current, '=') {
                    Self::add_token(TokenType::LessEqual, tokens, start, current + 1, source, line);
                    res.inc_read();
                } else {
                    Self::add_token(TokenType::Less, tokens, start, current, source, line);
                }
            }
            '/' => {
                if Self::cond_advance(source, current, '/') {
                    res.inc_read();
                    let mut loc_current = current + 1;
                    proof {
                        lemma_run_end(s, loc_current as int, CharClass::NotNewline);
                    }
                    while Self::peek(loc_current, source) != '\n' && !Self::is_at_end(
                        loc_current,
                        source.len(),
                    )
                        invariant
                            s == source@,
                            current + 1 <= loc_current <= s.len(),
                            run_end(s, loc_current as int, CharClass::NotNewline) == run_end(
                                s,
                                current + 1,
                                CharClass::NotNewline,
                            ),
                            res@ == (ScanResultView {
                                read: (loc_current - current) as nat,
                                lines: 0,
                                token: None,
                            }),
                        decreases s.len() - loc_current,
                    {
                        res.inc_read();
                        loc_current = loc_current + 1;
                    }
                    proof {
                        lemma_run_end(s, current + 1, CharClass::NotNewline);
                        assert forall|j: int| start <= j < loc_current implies #[trigger] s[j] != '\n' by {
                            if j > current {
                                assert(in_class(s[j], CharClass::NotNewline));
                            }
                        }
                        lemma_newlines_none(s, start as int, loc_current as int);
                    }
                } else {
                    Self::add_token(TokenType::Slash, tokens, start, current, source, line);
                }
            }
            '"' => {
                let sub_res = Self::string(current, source, start);
                proof {
                    lemma_run_end(s, current as int, CharClass::NotQuote);
                    let q = run_end(s, current as int, CharClass::NotQuote);
                    let end = if q >= s.len() { s.len() as int } else { q + 1 };
                    lemma_newlines_split(s, start as int, current as int, end);
                    lemma_newlines_split(s, current as int, q, end);
                    lemma_newlines_bound(s, current as int, end);
                    assert(newlines_in(s, start as int, current as int) == 0) by {
                        assert(newlines_in(s, start as int, start as int) == 0);
                    }
                    if q < s.len() {
                        assert(newlines_in(s, q, q + 1) == 0) by {
                            assert(newlines_in(s, q, q) == 0);
                        }
                    }
                }
                res.inc_lines_by_x(sub_res.lines());
                res.inc_read_by_x(sub_res.read());
                match sub_res.token_to_add() {
                    Some(tt) => Self::add_token(tt, tokens, start, current + sub_res.read(), source, line),
                    None => errors.push(LexError {
                        kind: LexErrorKind::UnterminatedString,
                        line: line + sub_res.lines(),
                    }),
                }
            }
            '0' | '1' | '2' | '3' | '4' | '5' | '6' | '7' | '8' | '9' => {
                let sub_res = Self::number(current, source, start);
                proof {
                    let e = run_end(s, start as int, CharClass::Digit);
                    lemma_run_end(s, start as int, CharClass::Digit);
                    if e + 1 <= s.len() {
                        lemma_run_end(s, e + 1, CharClass::Digit);
                    }
                    let ne = number_end(s, start as int);
                    assert forall|j: int| start <= j < ne implies #[trigger] s[j] != '\n' by {
                        if j < e {
                            assert(in_class(s[j], CharClass::Digit));
                        } else if j > e {
                            assert(in_class(s[j], CharClass::Digit));
                        }
                    }
                    lemma_newlines_none(s, start as int, ne);
                }
                res.inc_read_by_x(sub_res.read());
                match sub_res.token_to_add() {
                    Some(tt) => Self::add_token(tt, tokens, start, current + sub_res.read(), source, line),
                    None => {},
                }
            }
            ' ' | '\t' | '\r' => {},
            '\n' => res.inc_lines(),
            _ => {
                if Self::is_alpha(c) {
                    let sub_res = Self::identifier_or_keyword(current, source, start);
                    proof {
                        lemma_run_end(s, current as int, CharClass::AlphaNumeric);
                        let e = run_end(s, current as int, CharClass::AlphaNumeric);
                        assert forall|j: int| start <= j < e implies #[trigger] s[j] != '\n' by {
                            if j > start {
                                assert(in_class(s[j], CharClass::AlphaNumeric));
                            }
                        }
                        lemma_newlines_none(s, start as int, e);
                    }
                    res.inc_read_by_x(sub_res.read());
                    match sub_res.token_to_add() {
                        Some(tt) => Self::add_token(tt, tokens, start, current + sub_res.read(), source, line),
                        None => {},
                    }
                } else {
                    errors.push(LexError { kind: LexErrorKind::UnrecognizedCharacter(c), line });
                }
            }
        }
        res.inc_read();
        proof {
            assert(newlines_in(s, start as int, start as int) == 0);
            assert(token_views(tokens@) =~= token_views(old(tokens)@) + step_tokens(s, start as int, line as nat));
            assert(error_views(errors@) =~= error_views(old(errors)@) + step_errors(s, start as int, line as nat));
        }
        res
    }

    /// Scans the whole buffer: the tokens in source order, closed by one
    /// `End` token on the last line reached, and the lexical errors met.
    pub fn scan_tokens(self) -> (r: (Vec<Token>, Vec<LexError>))
        requires
            self.is_fresh(),
        ensures
            token_views(r.0@) == scan(self.text()).tokens,
            error_views(r.1@) == scan(self.text()).errors,
    {
        let ghost s = self.source@;
        let mut this = self;
        let mut tokens: Vec<Token> = Vec::new();
        std::mem::swap(&mut tokens, &mut this.tokens);
        let mut errors: Vec<LexError> = Vec::new();
        std::mem::swap(&mut errors, &mut this.errors);
        proof {
            assert(token_views(tokens@) =~= seq![]);
            assert(error_views(errors@) =~= seq![]);
            assert(newlines_in(s, 0, 0) == 0);
        }
        while !Self::is_at_end(this.current, this.source.len())
            invariant
                s == this.source@,
                s.len() < usize::MAX,
                this.current <= s.len(),
                this.line == 1 + newlines_in(s, 0, this.current as int),
                scan(s).tokens == token_views(tokens@) + scan_from(
                    s,
                    this.current as int,
                    this.line as nat,
                ).tokens,
                scan(s).errors == error_views(errors@) + scan_from(
                    s,
                    this.current as int,
                    this.line as nat,
                ).errors,
            decreases s.len() - this.current,
        {
            this.start = this.current;
            let ghost pos = this.current as int;
            let ghost old_tokens = token_views(tokens@);
            let ghost old_errors = error_views(errors@);
            proof {
                lemma_newlines_bound(s, 0, pos);
            }
            let res = Self::scan_token(&this.source, this.start, this.line, &mut tokens, &mut errors);
            proof {
                let end = step(s, pos).end;
                lemma_step_bounds(s, pos);
                lemma_newlines_split(s, 0, pos, end);
                lemma_newlines_bound(s, 0, end);
                let rest = scan_from(s, end, (this.line + newlines_in(s, pos, end)) as nat);
                assert(scan_from(s, pos, this.line as nat).tokens == step_tokens(s, pos, this.line as nat) + rest.tokens);
                assert(old_tokens + (step_tokens(s, pos, this.line as nat) + rest.tokens) =~= token_views(tokens@) + rest.tokens);
                assert(old_errors + (step_errors(s, pos, this.line as nat) + rest.errors) =~= error_views(errors@) + rest.errors);
            }
            this.line = this.line + res.lines();
            this.current = this.current + res.read();
        }
        let ghost last = this.line as nat;
        tokens.push(Token::new(TokenType::End, String::new(), this.line));
        proof {
            assert(token_views(tokens@) =~= token_views(tokens@.drop_last()).push(tokens@.last()@));
            assert(scan_from(s, this.current as int, last).tokens =~= seq![end_token(last)]);
            assert(tokens@.last()@ == end_token(last));
            assert(token_views(tokens@.drop_last()) + seq![end_token(last)] =~= token_views(tokens@));
        }
        (tokens, errors)
    }
}

} // verus!
