use vstd::prelude::*;
use crate::token::TokenType;

verus! {

/// What scanning one lexeme produced: how many characters it consumed, how
/// many newlines lay among them, and the token it yields, if any.
pub struct ScanResult {
    read: usize,
    lines: usize,
    token_to_add: Option<TokenType>,
}

pub ghost struct ScanResultView {
    pub read: nat,
    pub lines: nat,
    pub token: Option<TokenType>,
}

impl View for ScanResult {
    type V = ScanResultView;

    closed spec fn view(&self) -> ScanResultView {
        ScanResultView {
            read: self.read as nat,
            lines: self.lines as nat,
            token: self.token_to_add,
        }
    }
}

impl ScanResult {
    pub fn new() -> (r: ScanResult)
        ensures
            r@ == (ScanResultView { read: 0, lines: 0, token: None }),
    {
        ScanResult { read: 0, lines: 0, token_to_add: None }
    }

    pub fn inc_read(&mut self)
        requires
            old(self)@.read < usize::MAX,
        ensures
            final(self)@ == (ScanResultView { read: old(self)@.read + 1, ..old(self)@ }),
    {
        self.read = self.read + 1;
    }

    pub fn inc_lines(&mut self)
        requires
            old(self)@.lines < usize::MAX,
        ensures
            final(self)@ == (ScanResultView { lines: old(self)@.lines + 1, ..old(self)@ }),
    {
        self.lines = self.lines + 1;
    }

    pub fn inc_lines_by_x(&mut self, x: usize)
        requires
            old(self)@.lines + x <= usize::MAX,
        ensures
            final(self)@ == (ScanResultView { lines: (old(self)@.lines + x) as nat, ..old(self)@ }),
    {
        self.lines = self.lines + x;
    }

    pub fn inc_read_by_x(&mut self, x: usize)
        requires
            old(self)@.read + x <= usize::MAX,
        ensures
            final(self)@ == (ScanResultView { read: (old(self)@.read + x) as nat, ..old(self)@ }),
    {
        self.read = self.read + x;
    }

    pub fn set_token(&mut self, tt: TokenType)
        ensures
            final(self)@ == (ScanResultView { token: Some(tt), ..old(self)@ }),
    {
        self.token_to_add = Some(tt);
    }

    pub fn read(&self) -> (r: usize)
        ensures
            r == self@.read,
    {
        self.read
    }

    pub fn lines(&self) -> (r: usize)
        ensures
            r == self@.lines,
    {
        self.lines
    }

    pub fn token_to_add(&self) -> (r: Option<TokenType>)
        ensures
            r == self@.token,
    {
        match &self.token_to_add {
            Some(t) => Some(t.duplicate()),
            None => None,
        }
    }
}

} // verus!
