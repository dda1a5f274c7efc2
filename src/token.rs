use vstd::prelude::*;

verus! {

/// The lexical category of a token. `String` carries the text between the
/// quotes; `Number` carries the digits of the literal (its decimal value).
#[derive(Clone, Debug, PartialEq)]
pub enum TokenType {
    LeftParen,
    RightParen,
    LeftBrace,
    RightBrace,
    Comma,
    Dot,
    Minus,
    Plus,
    Semicolon,
    Slash,
    Star,
    Bang,
    BangEqual,
    Equal,
    EqualEqual,
    Greater,
    GreaterEqual,
    Less,
    LessEqual,
    Identifier,
    String(String),
    Number(String),
    And,
    Class,
    Else,
    False,
    Fun,
    For,
    If,
    Nil,
    Or,
    Print,
    Return,
    Super,
    This,
    True,
    Var,
    While,
    End,
}

/// The mathematical value of a token kind: payloads are character sequences.
pub ghost enum Kind {
    /// A kind without payload (never `String` or `Number`).
    Plain(TokenType),
    Str(Seq<char>),
    Num(Seq<char>),
}

impl TokenType {
    pub open spec fn kind(&self) -> Kind {
        match self {
            TokenType::String(s) => Kind::Str(s@),
            TokenType::Number(s) => Kind::Num(s@),
            _ => Kind::Plain(*self),
        }
    }

    /// A copy of this kind.
    pub fn duplicate(&self) -> (r: TokenType)
        ensures
            r == *self,
    {
        match self {
            TokenType::LeftParen => TokenType::LeftParen,
            TokenType::RightParen => TokenType::RightParen,
            TokenType::LeftBrace => TokenType::LeftBrace,
            TokenType::RightBrace => TokenType::RightBrace,
            TokenType::Comma => TokenType::Comma,
            TokenType::Dot => TokenType::Dot,
            TokenType::Minus => TokenType::Minus,
            TokenType::Plus => TokenType::Plus,
            TokenType::Semicolon => TokenType::Semicolon,
            TokenType::Slash => TokenType::Slash,
            TokenType::Star => TokenType::Star,
            TokenType::Bang => TokenType::Bang,
            TokenType::BangEqual => TokenType::BangEqual,
            TokenType::Equal => TokenType::Equal,
            TokenType::EqualEqual => TokenType::EqualEqual,
            TokenType::Greater => TokenType::Greater,
            TokenType::GreaterEqual => TokenType::GreaterEqual,
            TokenType::Less => TokenType::Less,
            TokenType::LessEqual => TokenType::LessEqual,
            TokenType::Identifier => TokenType::Identifier,
            TokenType::String(s) => TokenType::String(s.clone()),
            TokenType::Number(s) => TokenType::Number(s.clone()),
            TokenType::And => TokenType::And,
            TokenType::Class => TokenType::Class,
            TokenType::Else => TokenType::Else,
            TokenType::False => TokenType::False,
            TokenType::Fun => TokenType::Fun,
            TokenType::For => TokenType::For,
            TokenType::If => TokenType::If,
            TokenType::Nil => TokenType::Nil,
            TokenType::Or => TokenType::Or,
            TokenType::Print => TokenType::Print,
            TokenType::Return => TokenType::Return,
            TokenType::Super => TokenType::Super,
            TokenType::This => TokenType::This,
            TokenType::True => TokenType::True,
            TokenType::Var => TokenType::Var,
            TokenType::While => TokenType::While,
            TokenType::End => TokenType::End,
        }
    }
}

/// The reserved word spelled by `w`, if any.
pub open spec fn keyword_kind(w: Seq<char>) -> Option<TokenType> {
    if w =~= seq!['a', 'n', 'd'] {
        Some(TokenType::And)
    } else if w =~= seq!['c', 'l', 'a', 's', 's'] {
        Some(TokenType::Class)
    } else if w =~= seq!['e', 'l', 's', 'e'] {
        Some(TokenType::Else)
    } else if w =~= seq!['f', 'a', 'l', 's', 'e'] {
        Some(TokenType::False)
    } else if w =~= seq!['f', 'o', 'r'] {
        Some(TokenType::For)
    } else if w =~= seq!['f', 'u', 'n'] {
        Some(TokenType::Fun)
    } else if w =~= seq!['i', 'f'] {
        Some(TokenType::If)
    } else if w =~= seq!['n', 'i', 'l'] {
        Some(TokenType::Nil)
    } else if w =~= seq!['o', 'r'] {
        Some(TokenType::Or)
    } else if w =~= seq!['p', 'r', 'i', 'n', 't'] {
        Some(TokenType::Print)
    } else if w =~= seq!['r', 'e', 't', 'u', 'r', 'n'] {
        Some(TokenType::Return)
    } else if w =~= seq!['s', 'u', 'p', 'e', 'r'] {
        Some(TokenType::Super)
    } else if w =~= seq!['t', 'h', 'i', 's'] {
        Some(TokenType::This)
    } else if w =~= seq!['t', 'r', 'u', 'e'] {
        Some(TokenType::True)
    } else if w =~= seq!['v', 'a', 'r'] {
        Some(TokenType::Var)
    } else if w =~= seq!['w', 'h', 'i', 'l', 'e'] {
        Some(TokenType::While)
    } else {
        None
    }
}

/// Whether `src[lo..hi]` spells `word`.
fn spells(src: &Vec<char>, lo: usize, hi: usize, word: &[char]) -> (r: bool)
    requires
        lo <= hi <= src@.len(),
    ensures
        r == (src@.subrange(lo as int, hi as int) =~= word@),
{
    if hi - lo != word.len() {
        return false;
    }
    let mut k: usize = 0;
    while k < word.len()
        invariant
            lo <= hi <= src@.len(),
            hi - lo == word@.len(),
            k <= word@.len(),
            forall|j: int| 0 <= j < k ==> src@[lo + j] == word@[j],
        decreases word@.len() - k,
    {
        if src[lo + k] != word[k] {
            return false;
        }
        k = k + 1;
    }
    true
}

/// Looks up the reserved word spelled by `src[lo..hi]`.
pub fn keyword(src: &Vec<char>, lo: usize, hi: usize) -> (r: Option<TokenType>)
    requires
        lo <= hi <= src@.len(),
    ensures
        r == keyword_kind(src@.subrange(lo as int, hi as int)),
{
    if spells(src, lo, hi, &['a', 'n', 'd']) {
        Some(TokenType::And)
    } else if spells(src, lo, hi, &['c', 'l', 'a', 's', 's']) {
        Some(TokenType::Class)
    } else if spells(src, lo, hi, &['e', 'l', 's', 'e']) {
        Some(TokenType::Else)
    } else if spells(src, lo, hi, &['f', 'a', 'l', 's', 'e']) {
        Some(TokenType::False)
    } else if spells(src, lo, hi, &['f', 'o', 'r']) {
        Some(TokenType::For)
    } else if spells(src, lo, hi, &['f', 'u', 'n']) {
        Some(TokenType::Fun)
    } else if spells(src, lo, hi, &['i', 'f']) {
        Some(TokenType::If)
    } else if spells(src, lo, hi, &['n', 'i', 'l']) {
        Some(TokenType::Nil)
    } else if spells(src, lo, hi, &['o', 'r']) {
        Some(TokenType::Or)
    } else if spells(src, lo, hi, &['p', 'r', 'i', 'n', 't']) {
        Some(TokenType::Print)
    } else if spells(src, lo, hi, &['r', 'e', 't', 'u', 'r', 'n']) {
        Some(TokenType::Return)
    } else if spells(src, lo, hi, &['s', 'u', 'p', 'e', 'r']) {
        Some(TokenType::Super)
    } else if spells(src, lo, hi, &['t', 'h', 'i', 's']) {
        Some(TokenType::This)
    } else if spells(src, lo, hi, &['t', 'r', 'u', 'e']) {
        Some(TokenType::True)
    } else if spells(src, lo, hi, &['v', 'a', 'r']) {
        Some(TokenType::Var)
    } else if spells(src, lo, hi, &['w', 'h', 'i', 'l', 'e']) {
        Some(TokenType::While)
    } else {
        None
    }
}

/// A scanned token: its kind, the exact source text it came from, and the
/// 1-based line on which it starts.
#[derive(Clone, Debug, PartialEq)]
pub struct Token {
    pub tt: TokenType,
    pub lexeme: String,
    pub line: usize,
}

/// The mathematical value of a token.
pub ghost struct TokenView {
    pub kind: Kind,
    pub lexeme: Seq<char>,
    pub line: nat,
}

impl View for Token {
    type V = TokenView;

    open spec fn view(&self) -> TokenView {
        TokenView { kind: self.tt.kind(), lexeme: self.lexeme@, line: self.line as nat }
    }
}

impl Token {
    pub fn new(tt: TokenType, lexeme: String, line: usize) -> (r: Token)
        ensures
            r.tt == tt,
            r.lexeme == lexeme,
            r.line == line,
    {
        Token { tt, lexeme, line }
    }
}

} // verus!
