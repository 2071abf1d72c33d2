//! Instructions: what the parser builds and the encoder writes out.

use crate::scanner::token::{Token, TokenKind};
use crate::text::{binary, lemma_binary_fits, pow2, push_binary};
use vstd::prelude::*;
use vstd::slice::slice_index_get;

verus! {

/// The largest address of the machine: addresses have fifteen bits.
pub const MAX_ADDRESS: u16 = 32767;

/// A computation of the ALU.
#[derive(Copy, Clone, PartialEq, Eq, Debug, Structural)]
pub enum Comp {
    Zero,
    One,
    MinusOne,
    D,
    A,
    NotD,
    NotA,
    MinusD,
    MinusA,
    DPlusOne,
    APlusOne,
    DMinusOne,
    AMinusOne,
    DPlusA,
    DMinusA,
    AMinusD,
    DAndA,
    DOrA,
    M,
    NotM,
    MinusM,
    MPlusOne,
    MMinusOne,
    DPlusM,
    DMinusM,
    MMinusD,
    DAndM,
    DOrM,
}

/// Whether `kind` is a number token of value `value`, however it was written.
pub open spec fn is_number(kind: TokenKind, value: u16) -> bool {
    kind matches TokenKind::Number(v, _) && v == value
}

impl Comp {
    /// The seven bits of the computation, as a number: the bit that selects
    /// M over A, then the six control bits of the ALU.
    pub open spec fn bits(self) -> nat {
        match self {
            Comp::Zero => 0b0101010,
            Comp::One => 0b0111111,
            Comp::MinusOne => 0b0111010,
            Comp::D => 0b0001100,
            Comp::A => 0b0110000,
            Comp::NotD => 0b0001101,
            Comp::NotA => 0b0110001,
            Comp::MinusD => 0b0001111,
            Comp::MinusA => 0b0110011,
            Comp::DPlusOne => 0b0011111,
            Comp::APlusOne => 0b0110111,
            Comp::DMinusOne => 0b0001110,
            Comp::AMinusOne => 0b0110010,
            Comp::DPlusA => 0b0000010,
            Comp::DMinusA => 0b0010011,
            Comp::AMinusD => 0b0000111,
            Comp::DAndA => 0b0000000,
            Comp::DOrA => 0b0010101,
            Comp::M => 0b1110000,
            Comp::NotM => 0b1110001,
            Comp::MinusM => 0b1110011,
            Comp::MPlusOne => 0b1110111,
            Comp::MMinusOne => 0b1110010,
            Comp::DPlusM => 0b1000010,
            Comp::DMinusM => 0b1010011,
            Comp::MMinusD => 0b1000111,
            Comp::DAndM => 0b1000000,
            Comp::DOrM => 0b1010101,
        }
    }

    /// The computation that the three tokens `left op right` spell, if any.
    pub open spec fn of_three(left: TokenKind, op: TokenKind, right: TokenKind) -> Option<Comp> {
        match (left, op) {
            (TokenKind::D, TokenKind::Plus) => if right == TokenKind::A {
                Some(Comp::DPlusA)
            } else if right == TokenKind::M {
                Some(Comp::DPlusM)
            } else if is_number(right, 1) {
                Some(Comp::DPlusOne)
            } else {
                None
            },
            (TokenKind::D, TokenKind::Minus) => if right == TokenKind::A {
                Some(Comp::DMinusA)
            } else if right == TokenKind::M {
                Some(Comp::DMinusM)
            } else if is_number(right, 1) {
                Some(Comp::DMinusOne)
            } else {
                None
            },
            (TokenKind::D, TokenKind::And) => if right == TokenKind::A {
                Some(Comp::DAndA)
            } else if right == TokenKind::M {
                Some(Comp::DAndM)
            } else {
                None
            },
            (TokenKind::D, TokenKind::Or) => if right == TokenKind::A {
                Some(Comp::DOrA)
            } else if right == TokenKind::M {
                Some(Comp::DOrM)
            } else {
                None
            },
            (TokenKind::A, TokenKind::Plus) => if is_number(right, 1) {
                Some(Comp::APlusOne)
            } else {
                None
            },
            (TokenKind::A, TokenKind::Minus) => if right == TokenKind::D {
                Some(Comp::AMinusD)
            } else if is_number(right, 1) {
                Some(Comp::AMinusOne)
            } else {
                None
            },
            (TokenKind::M, TokenKind::Plus) => if is_number(right, 1) {
                Some(Comp::MPlusOne)
            } else {
                None
            },
            (TokenKind::M, TokenKind::Minus) => if right == TokenKind::D {
                Some(Comp::MMinusD)
            } else if is_number(right, 1) {
                Some(Comp::MMinusOne)
            } else {
                None
            },
            _ => None,
        }
    }

    /// The computation that the two tokens `op operand` spell, if any.
    pub open spec fn of_two(op: TokenKind, operand: TokenKind) -> Option<Comp> {
        match op {
            TokenKind::Minus => if operand == TokenKind::A {
                Some(Comp::MinusA)
            } else if operand == TokenKind::D {
                Some(Comp::MinusD)
            } else if operand == TokenKind::M {
                Some(Comp::MinusM)
            } else if is_number(operand, 1) {
                Some(Comp::MinusOne)
            } else {
                None
            },
            TokenKind::Not => if operand == TokenKind::A {
                Some(Comp::NotA)
            } else if operand == TokenKind::D {
                Some(Comp::NotD)
            } else if operand == TokenKind::M {
                Some(Comp::NotM)
            } else {
                None
            },
            _ => None,
        }
    }

    /// The computation that the single token `operand` spells, if any.
    pub open spec fn of_one(operand: TokenKind) -> Option<Comp> {
        match operand {
            TokenKind::A => Some(Comp::A),
            TokenKind::D => Some(Comp::D),
            TokenKind::M => Some(Comp::M),
            TokenKind::Number(v, _) => if v == 0 {
                Some(Comp::Zero)
            } else if v == 1 {
                Some(Comp::One)
            } else {
                None
            },
            _ => None,
        }
    }

    /// The computation at the head of `tokens`: the longest of the patterns
    /// of three, two and one token that the first tokens spell.
    pub open spec fn matching(tokens: Seq<TokenKind>) -> Option<Comp> {
        if tokens.len() >= 3 && Comp::of_three(tokens[0], tokens[1], tokens[2]) is Some {
            Comp::of_three(tokens[0], tokens[1], tokens[2])
        } else if tokens.len() >= 2 && Comp::of_two(tokens[0], tokens[1]) is Some {
            Comp::of_two(tokens[0], tokens[1])
        } else if tokens.len() >= 1 {
            Comp::of_one(tokens[0])
        } else {
            None
        }
    }

    /// The number of tokens that spell the computation.
    pub open spec fn spec_len(&self) -> usize {
        match self {
            Comp::Zero | Comp::One | Comp::A | Comp::M | Comp::D => 1,
            Comp::MinusOne
            | Comp::MinusA
            | Comp::MinusD
            | Comp::MinusM
            | Comp::NotA
            | Comp::NotD
            | Comp::NotM => 2,
            _ => 3,
        }
    }

    /// The tokens that spell the computation, a one being written `1`.
    pub open spec fn mnemonic(self) -> Seq<TokenKind> {
        let one = TokenKind::Number(1, 1);
        match self {
            Comp::Zero => seq![TokenKind::Number(0, 1)],
            Comp::One => seq![one],
            Comp::MinusOne => seq![TokenKind::Minus, one],
            Comp::D => seq![TokenKind::D],
            Comp::A => seq![TokenKind::A],
            Comp::NotD => seq![TokenKind::Not, TokenKind::D],
            Comp::NotA => seq![TokenKind::Not, TokenKind::A],
            Comp::MinusD => seq![TokenKind::Minus, TokenKind::D],
            Comp::MinusA => seq![TokenKind::Minus, TokenKind::A],
            Comp::DPlusOne => seq![TokenKind::D, TokenKind::Plus, one],
            Comp::APlusOne => seq![TokenKind::A, TokenKind::Plus, one],
            Comp::DMinusOne => seq![TokenKind::D, TokenKind::Minus, one],
            Comp::AMinusOne => seq![TokenKind::A, TokenKind::Minus, one],
            Comp::DPlusA => seq![TokenKind::D, TokenKind::Plus, TokenKind::A],
            Comp::DMinusA => seq![TokenKind::D, TokenKind::Minus, TokenKind::A],
            Comp::AMinusD => seq![TokenKind::A, TokenKind::Minus, TokenKind::D],
            Comp::DAndA => seq![TokenKind::D, TokenKind::And, TokenKind::A],
            Comp::DOrA => seq![TokenKind::D, TokenKind::Or, TokenKind::A],
            Comp::M => seq![TokenKind::M],
            Comp::NotM => seq![TokenKind::Not, TokenKind::M],
            Comp::MinusM => seq![TokenKind::Minus, TokenKind::M],
            Comp::MPlusOne => seq![TokenKind::M, TokenKind::Plus, one],
            Comp::MMinusOne => seq![TokenKind::M, TokenKind::Minus, one],
            Comp::DPlusM => seq![TokenKind::D, TokenKind::Plus, TokenKind::M],
            Comp::DMinusM => seq![TokenKind::D, TokenKind::Minus, TokenKind::M],
            Comp::MMinusD => seq![TokenKind::M, TokenKind::Minus, TokenKind::D],
            Comp::DAndM => seq![TokenKind::D, TokenKind::And, TokenKind::M],
            Comp::DOrM => seq![TokenKind::D, TokenKind::Or, TokenKind::M],
        }
    }

    /// The seven binary digits of the computation.
    pub fn to_binary(&self) -> (code: Vec<u8>)
        ensures
            code@ == binary(self.bits(), 7),
            code@.len() == 7,
    {
        let bits: u16 = match self {
            Comp::Zero => 0b0101010,
            Comp::One => 0b0111111,
            Comp::MinusOne => 0b0111010,
            Comp::D => 0b0001100,
            Comp::A => 0b0110000,
            Comp::NotD => 0b0001101,
            Comp::NotA => 0b0110001,
            Comp::MinusD => 0b0001111,
            Comp::MinusA => 0b0110011,
            Comp::DPlusOne => 0b0011111,
            Comp::APlusOne => 0b0110111,
            Comp::DMinusOne => 0b0001110,
            Comp::AMinusOne => 0b0110010,
            Comp::DPlusA => 0b0000010,
            Comp::DMinusA => 0b0010011,
            Comp::AMinusD => 0b0000111,
            Comp::DAndA => 0b0000000,
            Comp::DOrA => 0b0010101,
            Comp::M => 0b1110000,
            Comp::NotM => 0b1110001,
            Comp::MinusM => 0b1110011,
            Comp::MPlusOne => 0b1110111,
            Comp::MMinusOne => 0b1110010,
            Comp::DPlusM => 0b1000010,
            Comp::DMinusM => 0b1010011,
            Comp::MMinusD => 0b1000111,
            Comp::DAndM => 0b1000000,
            Comp::DOrM => 0b1010101,
        };
        let mut code: Vec<u8> = Vec::new();
        push_binary(&mut code, bits, 7);
        proof {
            self.lemma_bits_fit();
            lemma_binary_fits(self.bits(), 7);
            assert(code@ =~= binary(self.bits(), 7));
        }
        code
    }

    /// The code of every computation fits in seven bits.
    pub proof fn lemma_bits_fit(self)
        ensures
            self.bits() < 128,
            pow2(7) == 128,
    {
        reveal_with_fuel(pow2, 8);
    }

    /// The computation at the head of `tokens`, by longest match: a pattern
    /// of three tokens before one of two, one of two before one of one.
    pub fn from_tokens(tokens: &[TokenKind]) -> (found: Option<Comp>)
        ensures
            found == Comp::matching(tokens@),
    {
        let n = tokens.len();
        if n >= 3 {
            let found = Comp::from_three(
                *slice_index_get(tokens, 0),
                *slice_index_get(tokens, 1),
                *slice_index_get(tokens, 2),
            );
            if found.is_some() {
                return found;
            }
        }
        if n >= 2 {
            let found = Comp::from_two(*slice_index_get(tokens, 0), *slice_index_get(tokens, 1));
            if found.is_some() {
                return found;
            }
        }
        if n >= 1 {
            Comp::from_one(*slice_index_get(tokens, 0))
        } else {
            None
        }
    }

    fn from_three(left: TokenKind, op: TokenKind, right: TokenKind) -> (found: Option<Comp>)
        ensures
            found == Comp::of_three(left, op, right),
    {
        match (left, op, right) {
            (TokenKind::D, TokenKind::Or, TokenKind::A) => Some(Comp::DOrA),
            (TokenKind::D, TokenKind::And, TokenKind::A) => Some(Comp::DAndA),
            (TokenKind::A, TokenKind::Minus, TokenKind::D) => Some(Comp::AMinusD),
            (TokenKind::D, TokenKind::Minus, TokenKind::A) => Some(Comp::DMinusA),
            (TokenKind::D, TokenKind::Plus, TokenKind::A) => Some(Comp::DPlusA),
            (TokenKind::A, TokenKind::Minus, TokenKind::Number(1, _)) => Some(Comp::AMinusOne),
            (TokenKind::D, TokenKind::Minus, TokenKind::Number(1, _)) => Some(Comp::DMinusOne),
            (TokenKind::A, TokenKind::Plus, TokenKind::Number(1, _)) => Some(Comp::APlusOne),
            (TokenKind::D, TokenKind::Plus, TokenKind::Number(1, _)) => Some(Comp::DPlusOne),
            (TokenKind::D, TokenKind::Or, TokenKind::M) => Some(Comp::DOrM),
            (TokenKind::D, TokenKind::And, TokenKind::M) => Some(Comp::DAndM),
            (TokenKind::M, TokenKind::Minus, TokenKind::D) => Some(Comp::MMinusD),
            (TokenKind::D, TokenKind::Minus, TokenKind::M) => Some(Comp::DMinusM),
            (TokenKind::D, TokenKind::Plus, TokenKind::M) => Some(Comp::DPlusM),
            (TokenKind::M, TokenKind::Minus, TokenKind::Number(1, _)) => Some(Comp::MMinusOne),
            (TokenKind::M, TokenKind::Plus, TokenKind::Number(1, _)) => Some(Comp::MPlusOne),
            _ => None,
        }
    }

    fn from_two(op: TokenKind, operand: TokenKind) -> (found: Option<Comp>)
        ensures
            found == Comp::of_two(op, operand),
    {
        match (op, operand) {
            (TokenKind::Minus, TokenKind::A) => Some(Comp::MinusA),
            (TokenKind::Minus, TokenKind::D) => Some(Comp::MinusD),
            (TokenKind::Not, TokenKind::A) => Some(Comp::NotA),
            (TokenKind::Not, TokenKind::D) => Some(Comp::NotD),
            (TokenKind::Minus, TokenKind::Number(1, _)) => Some(Comp::MinusOne),
            (TokenKind::Minus, TokenKind::M) => Some(Comp::MinusM),
            (TokenKind::Not, TokenKind::M) => Some(Comp::NotM),
            _ => None,
        }
    }

    fn from_one(operand: TokenKind) -> (found: Option<Comp>)
        ensures
            found == Comp::of_one(operand),
    {
        match operand {
            TokenKind::M => Some(Comp::M),
            TokenKind::Number(1, _) => Some(Comp::One),
            TokenKind::Number(0, _) => Some(Comp::Zero),
            TokenKind::A => Some(Comp::A),
            TokenKind::D => Some(Comp::D),
            _ => None,
        }
    }

    #[verifier::when_used_as_spec(spec_len)]
    pub fn len(&self) -> (n: usize)
        ensures
            n == self.spec_len(),
    {
        match self {
            Comp::Zero | Comp::One | Comp::A | Comp::M | Comp::D => 1,
            Comp::MinusOne
            | Comp::MinusA
            | Comp::MinusD
            | Comp::MinusM
            | Comp::NotA
            | Comp::NotD
            | Comp::NotM => 2,
            Comp::APlusOne
            | Comp::AMinusOne
            | Comp::DPlusOne
            | Comp::DMinusOne
            | Comp::MPlusOne
            | Comp::MMinusOne
            | Comp::DPlusA
            | Comp::DPlusM
            | Comp::DMinusM
            | Comp::DMinusA
            | Comp::AMinusD
            | Comp::MMinusD
            | Comp::DAndA
            | Comp::DOrA
            | Comp::DAndM
            | Comp::DOrM => 3,
        }
    }
}

/// The matcher reads no further than the pattern it finds: the computation
/// found at the head of `tokens` is as many tokens long as `len` says, they
/// are there, and they alone give the same computation.
pub proof fn lemma_matching_consumes_its_pattern(tokens: Seq<TokenKind>)
    requires
        Comp::matching(tokens) is Some,
    ensures
        1 <= Comp::matching(tokens).unwrap().len() <= 3,
        Comp::matching(tokens).unwrap().len() <= tokens.len(),
        Comp::matching(tokens.take(Comp::matching(tokens).unwrap().len() as int))
            == Comp::matching(tokens),
{
}

/// The matcher is greedy: where it settles for a pattern shorter than three
/// tokens, no longer pattern is spelled by the tokens at hand.
pub proof fn lemma_matching_is_longest(tokens: Seq<TokenKind>)
    requires
        Comp::matching(tokens) is Some,
    ensures
        Comp::matching(tokens).unwrap().len() < 3 && tokens.len() >= 3 ==> Comp::of_three(
            tokens[0],
            tokens[1],
            tokens[2],
        ) is None,
        Comp::matching(tokens).unwrap().len() < 2 && tokens.len() >= 2 ==> Comp::of_two(
            tokens[0],
            tokens[1],
        ) is None,
{
}

/// Every computation is found again from the tokens that spell it, and its
/// length is the number of those tokens.
pub proof fn lemma_mnemonic_round_trip(comp: Comp)
    ensures
        comp.mnemonic().len() == comp.len(),
        Comp::matching(comp.mnemonic()) == Some(comp),
{
}

/// The target of an address instruction.
#[derive(Copy, Clone, PartialEq, Eq, Debug, Structural)]
pub enum AInstruction {
    /// A numeric address.
    Number(u16),
    /// A name that is still to be resolved: the identifier token, whose span
    /// of the source is the name.
    Identifier(Token),
}

/// A compute instruction: where the result goes, what is computed, and when
/// to jump. Destination and jump are held as the keyword tokens that were
/// read.
#[derive(Copy, Clone, PartialEq, Eq, Debug, Structural)]
pub struct CInstruction {
    pub dest: Option<Token>,
    pub comp: Comp,
    pub jump: Option<Token>,
}

impl CInstruction {
    pub fn new(dest: Option<Token>, comp: Comp, jump: Option<Token>) -> (ins: CInstruction)
        ensures
            ins == (CInstruction { dest, comp, jump }),
    {
        CInstruction { dest, comp, jump }
    }

    /// A destination, where there is one, is a destination keyword, and a
    /// jump, where there is one, is a jump keyword.
    pub open spec fn well_formed(&self) -> bool {
        &&& self.dest matches Some(token) ==> token.kind.is_dest_keyword()
        &&& self.jump matches Some(token) ==> token.kind.is_jump_keyword()
    }

    /// The three destination bits, as a number: 0 without a destination.
    pub open spec fn dest_bits(&self) -> nat {
        match self.dest {
            Some(token) => token.kind.dest_bits(),
            None => 0,
        }
    }

    /// The three jump bits, as a number: 0 without a jump.
    pub open spec fn jump_bits(&self) -> nat {
        match self.jump {
            Some(token) => token.kind.jump_bits(),
            None => 0,
        }
    }
}

/// One instruction of a program.
#[derive(Copy, Clone, PartialEq, Eq, Debug, Structural)]
pub enum HackInstruction {
    AInstruction(AInstruction),
    CInstruction(CInstruction),
}

impl HackInstruction {
    /// Whether the instruction can be written out: an address instruction
    /// holds a number that is an address of the machine, a compute
    /// instruction is well formed.
    pub open spec fn encodable(&self) -> bool {
        match self {
            HackInstruction::AInstruction(AInstruction::Number(address)) => *address
                <= MAX_ADDRESS,
            HackInstruction::AInstruction(AInstruction::Identifier(_)) => false,
            HackInstruction::CInstruction(ins) => ins.well_formed(),
        }
    }

    /// The sixteen binary digits of an instruction that can be written out.
    /// An address instruction is `0` and the fifteen bits of the address; a
    /// compute instruction is `111`, the seven bits of the computation, the
    /// three of the destination and the three of the jump.
    pub open spec fn code(&self) -> Seq<u8> {
        match self {
            HackInstruction::AInstruction(AInstruction::Number(address)) => seq!['0' as u8] + binary(
                *address as nat,
                15,
            ),
            HackInstruction::AInstruction(AInstruction::Identifier(_)) => Seq::empty(),
            HackInstruction::CInstruction(ins) => seq!['1' as u8, '1' as u8, '1' as u8] + binary(
                ins.comp.bits(),
                7,
            ) + binary(ins.dest_bits(), 3) + binary(ins.jump_bits(), 3),
        }
    }

    /// The code of an instruction that can be written out has sixteen
    /// digits, each `0` or `1`.
    pub proof fn lemma_code_is_sixteen_bits(&self)
        requires
            self.encodable(),
        ensures
            self.code().len() == 16,
            forall|i: int| 0 <= i < 16 ==> self.code()[i] == 48 || self.code()[i] == 49,
    {
        reveal_with_fuel(pow2, 16);
        match self {
            HackInstruction::AInstruction(AInstruction::Number(address)) => {
                lemma_binary_fits(*address as nat, 15);
            },
            HackInstruction::AInstruction(AInstruction::Identifier(_)) => {},
            HackInstruction::CInstruction(ins) => {
                ins.comp.lemma_bits_fit();
                lemma_binary_fits(ins.comp.bits(), 7);
                lemma_binary_fits(ins.dest_bits(), 3);
                lemma_binary_fits(ins.jump_bits(), 3);
            },
        }
    }

    /// Whether the instruction can be written out.
    pub fn can_encode(&self) -> (r: bool)
        ensures
            r == self.encodable(),
    {
        match self {
            HackInstruction::AInstruction(AInstruction::Number(address)) => *address
                <= MAX_ADDRESS,
            HackInstruction::AInstruction(AInstruction::Identifier(_)) => false,
            HackInstruction::CInstruction(ins) => {
                let dest = match ins.dest {
                    Some(token) => token.kind.is_dest_keyword(),
                    None => true,
                };
                let jump = match ins.jump {
                    Some(token) => token.kind.is_jump_keyword(),
                    None => true,
                };
                dest && jump
            },
        }
    }

    /// The sixteen binary digits of the instruction.
    pub fn to_binary(&self) -> (code: Vec<u8>)
        requires
            self.encodable(),
        ensures
            code@ == self.code(),
            code@.len() == 16,
    {
        let mut code: Vec<u8> = Vec::with_capacity(16);
        match self {
            HackInstruction::AInstruction(AInstruction::Number(address)) => {
                code.push('0' as u8);
                push_binary(&mut code, *address, 15);
            },
            HackInstruction::AInstruction(AInstruction::Identifier(_)) => {},
            HackInstruction::CInstruction(ins) => {
                code.push('1' as u8);
                code.push('1' as u8);
                code.push('1' as u8);
                let mut comp = ins.comp.to_binary();
                code.append(&mut comp);
                let dest: u16 = match ins.dest {
                    Some(token) => token.kind.dest_code(),
                    None => 0,
                };
                push_binary(&mut code, dest, 3);
                let jump: u16 = match ins.jump {
                    Some(token) => token.kind.jump_code(),
                    None => 0,
                };
                push_binary(&mut code, jump, 3);
            },
        }
        proof {
            self.lemma_code_is_sixteen_bits();
            assert(code@ =~= self.code());
        }
        code
    }
}

} // verus!
