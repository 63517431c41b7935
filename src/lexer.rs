use vstd::prelude::*;

verus! {

#[allow(non_camel_case_types)]
#[derive(Debug, Clone, Copy, PartialEq, Eq, Structural)]
pub enum TokenKind {
    CHACTER,
    OPE_UNION,
    OPE_STAR,
    LPAREN,
    RPAREN,
    EOF,
    INITIALIZE,
}

#[derive(Debug, Clone, Copy, PartialEq, Eq, Structural)]
pub struct Token {
    pub value: u8,
    pub kind: TokenKind,
}

/// `\`, the byte that makes the next byte a literal.
pub const ESCAPE: u8 = 92;

/// `|`
pub const BAR: u8 = 124;

/// `*`
pub const ASTERISK: u8 = 42;

/// `(`
pub const OPEN: u8 = 40;

/// `)`
pub const CLOSE: u8 = 41;

/// The value carried by the end-of-input token.
pub const END_VALUE: u8 = 255;

/// The kind of token that an unescaped byte stands for.
pub open spec fn kind_of(c: u8) -> TokenKind {
    if c == BAR {
        TokenKind::OPE_UNION
    } else if c == ASTERISK {
        TokenKind::OPE_STAR
    } else if c == OPEN {
        TokenKind::LPAREN
    } else if c == CLOSE {
        TokenKind::RPAREN
    } else {
        TokenKind::CHACTER
    }
}

/// The token that starts at byte `i` of `b`, and where the next one starts; `None` for
/// an escape byte with nothing after it. Past the end there is only the end of input.
pub open spec fn scan_at(b: Seq<u8>, i: int) -> Option<(Token, int)> {
    if i >= b.len() {
        Some((Token { value: END_VALUE, kind: TokenKind::EOF }, i))
    } else if b[i] == ESCAPE {
        if i + 1 < b.len() {
            Some((Token { value: b[i + 1], kind: TokenKind::CHACTER }, i + 2))
        } else {
            None
        }
    } else {
        Some((Token { value: b[i], kind: kind_of(b[i]) }, i + 1))
    }
}

impl Token {
    pub fn new(value: u8, kind: TokenKind) -> (r: Self)
        ensures
            r == (Token { value, kind }),
    {
        Token { value, kind }
    }
}

/// Splits a pattern into tokens, one per call of `scan`.
#[derive(Debug)]
pub struct Lexer {
    bytes: Vec<u8>,
    pos: usize,
}

impl Lexer {
    /// The bytes of the pattern.
    pub closed spec fn input(&self) -> Seq<u8> {
        self.bytes@
    }

    /// Where the next token starts.
    pub closed spec fn position(&self) -> int {
        self.pos as int
    }

    pub fn new(string_list: String) -> (r: Self)
        ensures
            r.input() == vstd::utf8::encode_utf8(string_list@),
            r.position() == 0,
    {
        let b = string_list.as_str().as_bytes();
        let mut bytes: Vec<u8> = Vec::new();
        let mut i: usize = 0;
        while i < b.len()
            invariant
                0 <= i <= b.len(),
                bytes@ == b@.subrange(0, i as int),
            decreases b.len() - i,
        {
            bytes.push(b[i]);
            i = i + 1;
            assert(bytes@ =~= b@.subrange(0, i as int));
        }
        assert(bytes@ =~= b@);
        Lexer { bytes, pos: 0 }
    }

    /// The next token; an error for an escape byte at the end of the pattern.
    pub fn scan(&mut self) -> (r: Result<Token, String>)
        requires
            old(self).position() <= old(self).input().len(),
        ensures
            final(self).input() == old(self).input(),
            final(self).position() <= final(self).input().len(),
            match scan_at(old(self).input(), old(self).position()) {
                Some((t, j)) => r == Ok::<Token, String>(t) && final(self).position() == j,
                None => r is Err,
            },
    {
        if self.pos >= self.bytes.len() {
            return Ok(Token::new(END_VALUE, TokenKind::EOF));
        }
        let c = self.bytes[self.pos];
        self.pos = self.pos + 1;
        if c == ESCAPE {
            if self.pos >= self.bytes.len() {
                return Err("syntax error: escape at end of pattern".to_string());
            }
            let v = self.bytes[self.pos];
            self.pos = self.pos + 1;
            return Ok(Token::new(v, TokenKind::CHACTER));
        }
        let kind = if c == BAR {
            TokenKind::OPE_UNION
        } else if c == ASTERISK {
            TokenKind::OPE_STAR
        } else if c == OPEN {
            TokenKind::LPAREN
        } else if c == CLOSE {
            TokenKind::RPAREN
        } else {
            TokenKind::CHACTER
        };
        Ok(Token::new(c, kind))
    }
}

} // verus!
