//! Tokens: the lexical categories, the span each one covers, and the bits
//! that destination and jump keywords stand for.

use crate::error_formatting::{lexeme_of, lines_view, token_lexeme};
use crate::text::{binary, decimal, push_all, push_binary, push_decimal};
use vstd::prelude::*;
use vstd::string::*;

verus! {

/// The lexical category of a token.
///
/// An identifier and a number carry the length of their lexeme in bytes; the
/// lexeme of every other kind has a fixed length.
#[derive(Copy, Clone, PartialEq, Eq, Debug, Structural)]
pub enum TokenKind {
    LeftParen,
    RightParen,
    Semicolon,
    Eof,
    NewLine,
    At,
    Equals,
    Plus,
    Minus,
    And,
    Or,
    Not,
    M,
    D,
    Md,
    A,
    Am,
    Ad,
    Amd,
    Jgt,
    Jeq,
    Jge,
    Jlt,
    Jne,
    Jle,
    Jmp,
    /// A name; the field is the length of the name in bytes.
    Identifier(usize),
    /// A decimal literal: its value, and the length of its lexeme in bytes.
    Number(u16, usize),
}

impl TokenKind {
    /// The three bits that a jump keyword stands for, as a number; 0 for any
    /// other kind.
    pub open spec fn jump_bits(self) -> nat {
        match self {
            TokenKind::Jgt => 1,
            TokenKind::Jeq => 2,
            TokenKind::Jge => 3,
            TokenKind::Jlt => 4,
            TokenKind::Jne => 5,
            TokenKind::Jle => 6,
            TokenKind::Jmp => 7,
            _ => 0,
        }
    }

    /// The three bits that a destination keyword stands for, as a number (A is
    /// worth 4, D is worth 2, M is worth 1); 0 for any other kind.
    pub open spec fn dest_bits(self) -> nat {
        match self {
            TokenKind::M => 1,
            TokenKind::D => 2,
            TokenKind::Md => 3,
            TokenKind::A => 4,
            TokenKind::Am => 5,
            TokenKind::Ad => 6,
            TokenKind::Amd => 7,
            _ => 0,
        }
    }

    pub open spec fn spec_is_jump_keyword(&self) -> bool {
        self.jump_bits() != 0
    }

    pub open spec fn spec_is_dest_keyword(&self) -> bool {
        self.dest_bits() != 0
    }

    /// The length in bytes of the lexeme of a token of this kind.
    pub open spec fn spec_len(self) -> nat {
        match self {
            TokenKind::Number(_, len) => len as nat,
            TokenKind::Identifier(len) => len as nat,
            TokenKind::Eof => 0,
            TokenKind::Md | TokenKind::Am | TokenKind::Ad => 2,
            TokenKind::Amd
            | TokenKind::Jgt
            | TokenKind::Jeq
            | TokenKind::Jge
            | TokenKind::Jlt
            | TokenKind::Jne
            | TokenKind::Jle
            | TokenKind::Jmp => 3,
            _ => 1,
        }
    }

    /// The destination bits of the kind, as a number.
    pub fn dest_code(self) -> (bits: u16)
        ensures
            bits == self.dest_bits(),
    {
        match self {
            TokenKind::M => 1,
            TokenKind::D => 2,
            TokenKind::Md => 3,
            TokenKind::A => 4,
            TokenKind::Am => 5,
            TokenKind::Ad => 6,
            TokenKind::Amd => 7,
            _ => 0,
        }
    }

    /// The jump bits of the kind, as a number.
    pub fn jump_code(self) -> (bits: u16)
        ensures
            bits == self.jump_bits(),
    {
        match self {
            TokenKind::Jgt => 1,
            TokenKind::Jeq => 2,
            TokenKind::Jge => 3,
            TokenKind::Jlt => 4,
            TokenKind::Jne => 5,
            TokenKind::Jle => 6,
            TokenKind::Jmp => 7,
            _ => 0,
        }
    }

    #[verifier::when_used_as_spec(spec_is_jump_keyword)]
    pub fn is_jump_keyword(&self) -> (r: bool)
        ensures
            r == self.spec_is_jump_keyword(),
    {
        matches!(
            self,
            TokenKind::Jgt
                | TokenKind::Jeq
                | TokenKind::Jge
                | TokenKind::Jlt
                | TokenKind::Jne
                | TokenKind::Jle
                | TokenKind::Jmp
        )
    }

    #[verifier::when_used_as_spec(spec_is_dest_keyword)]
    pub fn is_dest_keyword(&self) -> (r: bool)
        ensures
            r == self.spec_is_dest_keyword(),
    {
        matches!(
            self,
            TokenKind::M
                | TokenKind::D
                | TokenKind::Md
                | TokenKind::A
                | TokenKind::Am
                | TokenKind::Ad
                | TokenKind::Amd
        )
    }
}

/// A token: its kind, the zero-based line it stands on, and the zero-based
/// byte offset in that line at which its lexeme starts.
#[derive(Copy, Clone, PartialEq, Eq, Debug, Structural)]
pub struct Token {
    pub kind: TokenKind,
    pub line: usize,
    pub start: usize,
}

impl Token {
    pub fn new(token_type: TokenKind, line: usize, start: usize) -> (token: Token)
        ensures
            token == (Token { kind: token_type, line, start }),
    {
        Token { kind: token_type, line, start }
    }

    /// Whether the token has a binary code: destination keywords, jump
    /// keywords and numbers have one.
    pub open spec fn has_bin_code(&self) -> bool {
        self.kind.is_dest_keyword() || self.kind.is_jump_keyword() || self.kind is Number
    }

    /// The binary code of a token that has one: three digits for a keyword;
    /// for a number the prefix `0b` and its value in at least fourteen
    /// digits.
    pub open spec fn bin_code(&self) -> Seq<u8> {
        match self.kind {
            TokenKind::Number(n, _) => seq!['0' as u8, 'b' as u8] + binary(n as nat, 14),
            _ => binary(self.kind.dest_bits() + self.kind.jump_bits(), 3),
        }
    }

    pub fn as_bin_code(&self) -> (code: Vec<u8>)
        requires
            self.has_bin_code(),
        ensures
            code@ == self.bin_code(),
    {
        let mut code: Vec<u8> = Vec::new();
        match self.kind {
            TokenKind::Number(n, _) => {
                code.push('0' as u8);
                code.push('b' as u8);
                push_binary(&mut code, n, 14);
            },
            kind => {
                push_binary(&mut code, kind.dest_code() + kind.jump_code(), 3);
            },
        }
        assert(code@ =~= self.bin_code());
        code
    }

    #[verifier::when_used_as_spec(spec_len)]
    pub fn len(&self) -> (n: usize)
        ensures
            n == self.spec_len(),
    {
        match self.kind {
            TokenKind::Number(_, len) => len,
            TokenKind::Identifier(len) => len,
            TokenKind::Eof => 0,
            TokenKind::NewLine
            | TokenKind::A
            | TokenKind::D
            | TokenKind::M
            | TokenKind::Semicolon
            | TokenKind::LeftParen
            | TokenKind::RightParen
            | TokenKind::At
            | TokenKind::Equals
            | TokenKind::Plus
            | TokenKind::Minus
            | TokenKind::And
            | TokenKind::Or
            | TokenKind::Not => 1,
            TokenKind::Md | TokenKind::Am | TokenKind::Ad => 2,
            TokenKind::Amd
            | TokenKind::Jgt
            | TokenKind::Jeq
            | TokenKind::Jge
            | TokenKind::Jlt
            | TokenKind::Jne
            | TokenKind::Jle
            | TokenKind::Jmp => 3,
        }
    }

    /// The length in bytes of the token's lexeme.
    pub open spec fn spec_len(&self) -> usize {
        self.kind.spec_len() as usize
    }

    /// How the kind of the token is shown: its name, and for an identifier
    /// and a number what it holds, the name being read from the source
    /// `lines`.
    pub open spec fn kind_shown(&self, lines: Seq<Seq<u8>>) -> Seq<u8> {
        match self.kind {
            TokenKind::LeftParen => "LeftParen".spec_bytes(),
            TokenKind::RightParen => "RightParen".spec_bytes(),
            TokenKind::Semicolon => "Semicolon".spec_bytes(),
            TokenKind::Eof => "Eof".spec_bytes(),
            TokenKind::NewLine => "NewLine".spec_bytes(),
            TokenKind::At => "At".spec_bytes(),
            TokenKind::Equals => "Equals".spec_bytes(),
            TokenKind::Plus => "Plus".spec_bytes(),
            TokenKind::Minus => "Minus".spec_bytes(),
            TokenKind::And => "And".spec_bytes(),
            TokenKind::Or => "Or".spec_bytes(),
            TokenKind::Not => "Not".spec_bytes(),
            TokenKind::M => "M".spec_bytes(),
            TokenKind::D => "D".spec_bytes(),
            TokenKind::Md => "Md".spec_bytes(),
            TokenKind::A => "A".spec_bytes(),
            TokenKind::Am => "Am".spec_bytes(),
            TokenKind::Ad => "Ad".spec_bytes(),
            TokenKind::Amd => "AMd".spec_bytes(),
            TokenKind::Jgt => "Jgt".spec_bytes(),
            TokenKind::Jeq => "Jeq".spec_bytes(),
            TokenKind::Jge => "Jge".spec_bytes(),
            TokenKind::Jlt => "Jlt".spec_bytes(),
            TokenKind::Jne => "Jne".spec_bytes(),
            TokenKind::Jle => "Jle".spec_bytes(),
            TokenKind::Jmp => "Jmp".spec_bytes(),
            TokenKind::Identifier(_) => "Identifier: ".spec_bytes() + token_lexeme(lines, *self),
            TokenKind::Number(n, _) => "Number: ".spec_bytes() + decimal(n as nat),
        }
    }

    /// How the token is shown: `token<`, the kind, `, start `, the offset at
    /// which the token starts, and `>`.
    pub open spec fn shown(&self, lines: Seq<Seq<u8>>) -> Seq<u8> {
        "token<".spec_bytes() + self.kind_shown(lines) + ", start ".spec_bytes() + decimal(
            self.start as nat,
        ) + ">".spec_bytes()
    }

    /// The token in words, for a listing of tokens.
    pub fn describe(&self, source: &Vec<Vec<u8>>) -> (text: Vec<u8>)
        ensures
            text@ == self.shown(lines_view(source)),
    {
        let mut text: Vec<u8> = Vec::new();
        push_all(&mut text, "token<".as_bytes());
        match self.kind {
            TokenKind::LeftParen => push_all(&mut text, "LeftParen".as_bytes()),
            TokenKind::RightParen => push_all(&mut text, "RightParen".as_bytes()),
            TokenKind::Semicolon => push_all(&mut text, "Semicolon".as_bytes()),
            TokenKind::Eof => push_all(&mut text, "Eof".as_bytes()),
            TokenKind::NewLine => push_all(&mut text, "NewLine".as_bytes()),
            TokenKind::At => push_all(&mut text, "At".as_bytes()),
            TokenKind::Equals => push_all(&mut text, "Equals".as_bytes()),
            TokenKind::Plus => push_all(&mut text, "Plus".as_bytes()),
            TokenKind::Minus => push_all(&mut text, "Minus".as_bytes()),
            TokenKind::And => push_all(&mut text, "And".as_bytes()),
            TokenKind::Or => push_all(&mut text, "Or".as_bytes()),
            TokenKind::Not => push_all(&mut text, "Not".as_bytes()),
            TokenKind::M => push_all(&mut text, "M".as_bytes()),
            TokenKind::D => push_all(&mut text, "D".as_bytes()),
            TokenKind::Md => push_all(&mut text, "Md".as_bytes()),
            TokenKind::A => push_all(&mut text, "A".as_bytes()),
            TokenKind::Am => push_all(&mut text, "Am".as_bytes()),
            TokenKind::Ad => push_all(&mut text, "Ad".as_bytes()),
            TokenKind::Amd => push_all(&mut text, "AMd".as_bytes()),
            TokenKind::Jgt => push_all(&mut text, "Jgt".as_bytes()),
            TokenKind::Jeq => push_all(&mut text, "Jeq".as_bytes()),
            TokenKind::Jge => push_all(&mut text, "Jge".as_bytes()),
            TokenKind::Jlt => push_all(&mut text, "Jlt".as_bytes()),
            TokenKind::Jne => push_all(&mut text, "Jne".as_bytes()),
            TokenKind::Jle => push_all(&mut text, "Jle".as_bytes()),
            TokenKind::Jmp => push_all(&mut text, "Jmp".as_bytes()),
            TokenKind::Identifier(_) => {
                push_all(&mut text, "Identifier: ".as_bytes());
                let name = lexeme_of(source, self);
                push_all(&mut text, name.as_slice());
            },
            TokenKind::Number(n, _) => {
                push_all(&mut text, "Number: ".as_bytes());
                push_decimal(&mut text, n as u128);
            },
        }
        push_all(&mut text, ", start ".as_bytes());
        push_decimal(&mut text, self.start as u128);
        push_all(&mut text, ">".as_bytes());
        assert(text@ =~= self.shown(lines_view(source)));
        text
    }
}

} // verus!
