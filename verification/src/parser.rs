//! The parser: tokens in, a program out, with every name resolved, or the
//! diagnostics. It does what [`crate::grammar`] defines.

use crate::ast::{AInstruction, CInstruction, Comp, HackInstruction, MAX_ADDRESS};
use crate::error_formatting::{lexeme_of, lines_view, Diagnostic, Message};
use crate::grammar::{
    lemma_parse_settled, lemma_parsed_is_encodable, lemma_statement_advances, parsed, settled,
    terminated, ParseState, FIRST_VARIABLE,
};
use crate::scanner::token::{Token, TokenKind};
use crate::symbols::{is_predefined_ident, SymbolTable};
use vstd::prelude::*;

verus! {

pub struct Parser {
    source: Vec<Vec<u8>>,
    tokens: Vec<Token>,
    curr: usize,
    next_ident_id: u16,
    errors: Vec<Diagnostic>,
    instructions: Vec<HackInstruction>,
    var_a_ins_indices: Vec<usize>,
    ident_map: SymbolTable,
}

impl View for Parser {
    type V = ParseState;

    closed spec fn view(&self) -> ParseState {
        ParseState {
            curr: self.curr as int,
            instructions: self.instructions@,
            errors: self.errors@,
            pending: self.var_a_ins_indices@,
            symbols: self.ident_map@,
            next_variable: self.next_ident_id,
        }
    }
}

impl Parser {
    /// The tokens that the parser reads.
    pub closed spec fn input(&self) -> Seq<Token> {
        self.tokens@
    }

    /// The lines of the source that the tokens were read from.
    pub closed spec fn lines(&self) -> Seq<Seq<u8>> {
        lines_view(&self.source)
    }

    /// The tokens end with `Eof` and the cursor stands on one of them.
    spec fn placed(&self) -> bool {
        terminated(self.tokens@) && self@.on_token(self.tokens@)
    }

    /// The parser stands between two statements: the tokens end with `Eof`,
    /// the cursor stands on one of them, and what was read so far is settled.
    pub closed spec fn wf(&self) -> bool {
        self.placed() && settled(self@, 0)
    }

    /// The parser reads the same tokens of the same source as `other`.
    spec fn reads_as(&self, other: &Parser) -> bool {
        self.tokens == other.tokens && self.source == other.source
    }

    /// A parser at the start of `tokens`, which were read from `source` and
    /// end with `Eof`.
    pub fn new(tokens: Vec<Token>, source: Vec<Vec<u8>>) -> (parser: Parser)
        requires
            terminated(tokens@),
        ensures
            parser.wf(),
            parser@ == ParseState::initial(),
            parser.input() == tokens@,
            parser.lines() == lines_view(&source),
    {
        proof {
            crate::symbols::lemma_predefined_addresses();
        }
        let identifier_map = SymbolTable::get_default_ident_map();
        Parser {
            tokens,
            source,
            curr: 0,
            next_ident_id: FIRST_VARIABLE,
            errors: Vec::new(),
            instructions: Vec::new(),
            ident_map: identifier_map,
            var_a_ins_indices: Vec::new(),
        }
    }

    /// The diagnostics raised so far.
    pub fn errors(&self) -> (errors: &Vec<Diagnostic>)
        ensures
            errors@ == self@.errors,
    {
        &self.errors
    }

    /// The instructions read so far.
    pub fn instructions(&self) -> (instructions: &Vec<HackInstruction>)
        ensures
            instructions@ == self@.instructions,
    {
        &self.instructions
    }

    /// The lines of the source.
    pub fn source(&self) -> (source: &Vec<Vec<u8>>)
        ensures
            lines_view(source) == self.lines(),
    {
        &self.source
    }

    /// The address that `name` is bound to, if it is bound.
    pub fn lookup(&self, name: &[u8]) -> (address: Option<u16>)
        ensures
            address == if self@.symbols.contains_key(name@) {
                Some(self@.symbols[name@])
            } else {
                None::<u16>
            },
    {
        self.ident_map.get(name)
    }

    fn is_at_end(&self) -> (r: bool)
        requires
            self.placed(),
        ensures
            r == self@.is_at_end(self.tokens@),
    {
        self.check(TokenKind::Eof)
    }

    fn check(&self, token_kind: TokenKind) -> (r: bool)
        requires
            self.placed(),
        ensures
            r == self@.check(self.tokens@, token_kind),
    {
        self.peek().kind == token_kind
    }

    fn previous(&self) -> (token: Token)
        requires
            self.placed(),
            self.curr >= 1,
        ensures
            token == self@.previous(self.tokens@),
    {
        self.tokens[self.curr - 1]
    }

    fn peek(&self) -> (token: Token)
        requires
            self.placed(),
        ensures
            token == self@.peek(self.tokens@),
    {
        self.tokens[self.curr]
    }

    fn advance(&mut self)
        requires
            old(self).placed(),
        ensures
            final(self).placed(),
            final(self).reads_as(old(self)),
            final(self)@ == old(self)@.advance(old(self).tokens@),
            old(self).curr <= final(self).curr <= old(self).curr + 1,
            !old(self)@.is_at_end(old(self).tokens@) ==> final(self).curr == old(self).curr + 1,
    {
        let count = self.tokens.len();
        assert(self.curr < count);
        if !self.is_at_end() {
            self.curr += 1;
        }
    }

    fn raise_error(&mut self, message: Message, token_id: usize)
        requires
            old(self).placed(),
            token_id < old(self).tokens@.len(),
        ensures
            final(self).placed(),
            final(self).reads_as(old(self)),
            final(self)@ == old(self)@.raise(message, old(self).tokens@[token_id as int]),
    {
        let token = self.tokens[token_id];
        self.raise_error_at(message, &token);
    }

    fn raise_error_at(&mut self, message: Message, token: &Token)
        ensures
            old(self).placed() ==> final(self).placed(),
            final(self).reads_as(old(self)),
            final(self)@ == old(self)@.raise(message, *token),
    {
        self.errors.push(
            Diagnostic { message, line: token.line, start: token.start, len: token.len() },
        );
    }

    fn raise_error_prev(&mut self, message: Message)
        requires
            old(self).placed(),
            old(self).curr >= 1,
        ensures
            final(self).placed(),
            final(self).reads_as(old(self)),
            final(self)@ == old(self)@.raise_prev(old(self).tokens@, message),
    {
        self.raise_error(message, self.curr - 1);
    }

    fn raise_error_peek(&mut self, message: Message)
        requires
            old(self).placed(),
        ensures
            final(self).placed(),
            final(self).reads_as(old(self)),
            final(self)@ == old(self)@.raise_peek(old(self).tokens@, message),
    {
        self.raise_error(message, self.curr);
    }

    fn check_line_end(&self) -> (r: bool)
        requires
            self.placed(),
        ensures
            r == self@.check_line_end(self.tokens@),
    {
        matches!(self.peek().kind, TokenKind::NewLine | TokenKind::Eof)
    }

    /// Passes over the token at the cursor if it is of kind `expected`, and
    /// hands it back; raises `message` about it if it is not.
    fn consume(&mut self, message: Message, expected: TokenKind) -> (token: Option<Token>)
        requires
            old(self).placed(),
        ensures
            final(self).placed(),
            final(self).reads_as(old(self)),
            token == if old(self)@.check(old(self).tokens@, expected) {
                Some(old(self)@.peek(old(self).tokens@))
            } else {
                None::<Token>
            },
            final(self)@ == if old(self)@.check(old(self).tokens@, expected) {
                old(self)@.advance(old(self).tokens@)
            } else {
                old(self)@.raise_peek(old(self).tokens@, message)
            },
    {
        if self.check(expected) {
            let token = self.peek();
            self.advance();
            Some(token)
        } else {
            self.raise_error_peek(message);
            None
        }
    }

    /// Passes over the line terminator at the cursor; raises `message` about
    /// the token there if it is none.
    fn consume_line_end(&mut self, message: Message) -> (found: bool)
        requires
            old(self).placed(),
        ensures
            final(self).placed(),
            final(self).reads_as(old(self)),
            found == old(self)@.check_line_end(old(self).tokens@),
            final(self)@ == if found {
                old(self)@.advance(old(self).tokens@)
            } else {
                old(self)@.raise_peek(old(self).tokens@, message)
            },
    {
        if self.check_line_end() {
            self.advance();
            true
        } else {
            self.raise_error_peek(message);
            false
        }
    }

    /// Passes over the identifier at the cursor and hands it back; raises
    /// `message` about the token there if it is none.
    fn consume_identifier(&mut self, message: Message) -> (token: Option<Token>)
        requires
            old(self).placed(),
        ensures
            final(self).placed(),
            final(self).reads_as(old(self)),
            token == if old(self)@.peek(old(self).tokens@).kind is Identifier {
                Some(old(self)@.peek(old(self).tokens@))
            } else {
                None::<Token>
            },
            final(self)@ == if token is Some {
                old(self)@.advance(old(self).tokens@)
            } else {
                old(self)@.raise_peek(old(self).tokens@, message)
            },
    {
        let token = self.peek();
        if let TokenKind::Identifier(_) = token.kind {
            self.advance();
            Some(token)
        } else {
            self.raise_error_peek(message);
            None
        }
    }

    fn synchronise(&mut self)
        requires
            old(self).placed(),
        ensures
            final(self).placed(),
            final(self).reads_as(old(self)),
            final(self)@ == old(self)@.synchronise(old(self).tokens@),
    {
        while !self.check_line_end()
            invariant
                self.placed(),
                self.reads_as(old(self)),
                self@.synchronise(self.tokens@) == old(self)@.synchronise(old(self).tokens@),
            decreases self.tokens@.len() - self.curr,
        {
            self.advance();
        }
        self.advance();
    }
}

impl Parser {
    fn add_label_ident(&mut self, label: &Token)
        requires
            old(self).placed(),
            old(self).curr >= 1,
        ensures
            final(self).placed(),
            final(self).reads_as(old(self)),
            final(self)@ == old(self)@.add_label_ident(
                old(self).tokens@,
                old(self).lines(),
                *label,
            ),
    {
        let ident = lexeme_of(&self.source, label);
        if is_predefined_ident(ident.as_slice()) {
            self.raise_error_prev(Message::PredefinedName(*label));
        } else if self.ident_map.contains_key(ident.as_slice()) {
            self.raise_error_prev(Message::DuplicateLabel(*label));
        } else if self.instructions.len() > MAX_ADDRESS as usize {
            self.raise_error_prev(Message::AddressOutOfRange);
        } else {
            self.ident_map.insert(ident.as_slice(), self.instructions.len() as u16);
        }
    }

    fn label_declaration(&mut self) -> (success: bool)
        requires
            old(self).placed(),
            !old(self)@.is_at_end(old(self).tokens@),
        ensures
            final(self).placed(),
            final(self).reads_as(old(self)),
            (final(self)@, success) == old(self)@.label_declaration(
                old(self).tokens@,
                old(self).lines(),
            ),
    {
        self.advance();
        if let Some(label) = self.consume_identifier(Message::ExpectedLabelName) {
            if self.consume(Message::ExpectedRightParen, TokenKind::RightParen).is_none() {
                return false;
            }
            self.add_label_ident(&label);
            true
        } else {
            false
        }
    }

    fn instruction(&mut self) -> (found: Option<HackInstruction>)
        requires
            old(self).placed(),
            !old(self)@.is_at_end(old(self).tokens@),
        ensures
            final(self).placed(),
            final(self).reads_as(old(self)),
            (final(self)@, found) == old(self)@.instruction(old(self).tokens@),
    {
        if self.check(TokenKind::At) {
            self.a_instruction()
        } else {
            self.c_instruction()
        }
    }

    fn a_instruction(&mut self) -> (found: Option<HackInstruction>)
        requires
            old(self).placed(),
            !old(self)@.is_at_end(old(self).tokens@),
        ensures
            final(self).placed(),
            final(self).reads_as(old(self)),
            (final(self)@, found) == old(self)@.a_instruction(old(self).tokens@),
    {
        self.advance();
        let token = self.peek();
        match token.kind {
            TokenKind::Identifier(_) => {
                self.advance();
                self.var_a_ins_indices.push(self.instructions.len());
                Some(HackInstruction::AInstruction(AInstruction::Identifier(token)))
            },
            TokenKind::Number(num, _) => {
                self.advance();
                if num > MAX_ADDRESS {
                    self.raise_error_prev(Message::AddressOutOfRange);
                }
                Some(HackInstruction::AInstruction(AInstruction::Number(num)))
            },
            _ => {
                self.raise_error_peek(Message::ExpectedAddress);
                None
            },
        }
    }

    fn c_instruction(&mut self) -> (found: Option<HackInstruction>)
        requires
            old(self).placed(),
            !old(self)@.is_at_end(old(self).tokens@),
        ensures
            final(self).placed(),
            final(self).reads_as(old(self)),
            (final(self)@, found) == old(self)@.c_instruction(old(self).tokens@),
    {
        self.advance();
        let dest = if self.check(TokenKind::Equals) {
            if !self.previous().kind.is_dest_keyword() {
                self.raise_error_prev(Message::ExpectedDestination);
                return None;
            }
            let t = self.previous();
            self.advance();
            self.advance();
            Some(t)
        } else {
            None
        };
        let comp = match self.comp() {
            Some(comp) => comp,
            None => {
                return None;
            },
        };
        let jump = if self.check(TokenKind::Semicolon) {
            self.advance();
            if !self.peek().kind.is_jump_keyword() {
                self.raise_error_peek(Message::ExpectedJump);
                return None;
            }
            self.advance();
            let t = self.previous();
            Some(t)
        } else {
            None
        };
        Some(HackInstruction::CInstruction(CInstruction::new(dest, comp, jump)))
    }

    fn comp(&mut self) -> (found: Option<Comp>)
        requires
            old(self).placed(),
            old(self).curr >= 1,
        ensures
            final(self).placed(),
            final(self).reads_as(old(self)),
            final(self).curr >= old(self).curr,
            (final(self)@, found) == old(self)@.comp(old(self).tokens@),
    {
        let start = self.curr - 1;
        let left = self.tokens.len() - start;
        let max_comp_len: usize = if left < 3 { left } else { 3 };
        let mut tokens: Vec<TokenKind> = Vec::new();
        let mut i: usize = 0;
        while i < max_comp_len
            invariant
                i <= max_comp_len,
                start + max_comp_len <= self.tokens.len(),
                tokens@ == Seq::new(i as nat, |j: int| self.tokens@[start + j].kind),
            decreases max_comp_len - i,
        {
            tokens.push(self.tokens[start + i].kind);
            i = i + 1;
            assert(tokens@ =~= Seq::new(i as nat, |j: int| self.tokens@[start + j].kind));
        }
        assert(tokens@ =~= self@.window(self.tokens@));
        if let Some(comp) = Comp::from_tokens(tokens.as_slice()) {
            let mut k: usize = 1;
            while k < comp.len()
                invariant
                    1 <= k <= comp.len(),
                    self.placed(),
                    self.reads_as(old(self)),
                    self.curr >= old(self).curr,
                    self@ == old(self)@.advance_by(old(self).tokens@, (k - 1) as nat),
                decreases comp.len() - k,
            {
                self.advance();
                k = k + 1;
            }
            Some(comp)
        } else {
            self.raise_comp_error(max_comp_len);
            None
        }
    }

    fn raise_comp_error(&mut self, comp_len: usize)
        requires
            old(self).placed(),
            old(self).curr >= 1,
            2 <= comp_len <= 3,
            old(self).curr + comp_len - 1 <= old(self).tokens@.len(),
        ensures
            final(self).placed(),
            final(self).reads_as(old(self)),
            final(self).curr == old(self).curr,
            final(self)@ == old(self)@.raise_comp_error(old(self).tokens@, comp_len as int),
    {
        let mut comp_len = comp_len;
        let line = self.peek().line;
        let start = self.previous().start;
        let count = self.tokens.len();
        assert(self.curr + comp_len - 1 <= count);
        let last = self.tokens[self.curr - 1 + (comp_len - 1)];
        if comp_len > 0 && matches!(last.kind, TokenKind::NewLine) {
            comp_len -= 1;
        }
        self.errors.push(
            Diagnostic { message: Message::ExpectedComputation, line, start, len: comp_len },
        );
    }

    fn statement(&mut self)
        requires
            old(self).placed(),
            !old(self)@.is_at_end(old(self).tokens@),
        ensures
            final(self).placed(),
            final(self).reads_as(old(self)),
            final(self)@ == old(self)@.statement(old(self).tokens@, old(self).lines()),
    {
        let success = match self.peek().kind {
            TokenKind::LeftParen => self.label_declaration(),
            _ => {
                if let Some(ins) = self.instruction() {
                    self.instructions.push(ins);
                    true
                } else {
                    false
                }
            },
        };
        if !success || !self.consume_line_end(Message::ExpectedLineEnd) {
            self.synchronise();
        }
    }

    /// Reads the statements up to `Eof`. The result says whether they were
    /// read without a diagnostic.
    pub fn parse(&mut self) -> (clean: bool)
        requires
            old(self).wf(),
        ensures
            final(self).wf(),
            final(self).input() == old(self).input(),
            final(self).lines() == old(self).lines(),
            final(self)@ == old(self)@.parse(old(self).input(), old(self).lines()),
            clean == (final(self)@.errors.len() == 0),
    {
        let count = self.tokens.len();
        proof {
            lemma_parse_settled(self@, self.tokens@, self.lines());
        }
        while !self.is_at_end()
            invariant
                self.placed(),
                self.reads_as(old(self)),
                self@.parse(self.tokens@, self.lines()) == old(self)@.parse(
                    old(self).tokens@,
                    old(self).lines(),
                ),
            decreases self.tokens@.len() - self.curr,
        {
            proof {
                lemma_statement_advances(self@, self.tokens@, self.lines());
            }
            self.statement();
        }
        self.errors.len() == 0
    }

    fn denote_variable(&mut self, id: usize)
        ensures
            old(self).placed() ==> final(self).placed(),
            final(self).reads_as(old(self)),
            final(self).var_a_ins_indices@ == old(self).var_a_ins_indices@,
            final(self)@ == old(self)@.denote_variable(old(self).lines(), id as int),
    {
        if id >= self.instructions.len() {
            return ;
        }
        if let HackInstruction::AInstruction(AInstruction::Identifier(token)) =
            self.instructions[id] {
            let ident = lexeme_of(&self.source, &token);
            match self.ident_map.get(ident.as_slice()) {
                Some(address) => {
                    self.instructions.set(
                        id,
                        HackInstruction::AInstruction(AInstruction::Number(address)),
                    );
                },
                None => {
                    if self.next_ident_id > MAX_ADDRESS {
                        self.raise_error_at(Message::AddressOutOfRange, &token);
                    } else {
                        let index = self.next_ident_id;
                        self.next_ident_id += 1;
                        self.ident_map.insert(ident.as_slice(), index);
                        self.instructions.set(
                            id,
                            HackInstruction::AInstruction(AInstruction::Number(index)),
                        );
                    }
                },
            }
        }
    }

    fn denote_variables(&mut self)
        ensures
            old(self).placed() ==> final(self).placed(),
            final(self).reads_as(old(self)),
            final(self)@ == old(self)@.denote_variables(old(self).lines(), 0),
    {
        let mut k: usize = 0;
        while k < self.var_a_ins_indices.len()
            invariant
                old(self).placed() ==> self.placed(),
                self.reads_as(old(self)),
                self.var_a_ins_indices@ == old(self).var_a_ins_indices@,
                self@.denote_variables(self.lines(), k as int) == old(self)@.denote_variables(
                    old(self).lines(),
                    0,
                ),
            decreases self.var_a_ins_indices@.len() - k,
        {
            let id = self.var_a_ins_indices[k];
            self.denote_variable(id);
            k = k + 1;
        }
    }

    /// Reads the statements and resolves the names. The result is the
    /// program, or the diagnostics if there are any.
    pub fn run(self) -> (program: Result<Vec<HackInstruction>, Vec<Diagnostic>>)
        requires
            self.wf(),
        ensures
            program matches Ok(instructions) ==> crate::evaluator::encodable(instructions@),
            match program {
                Ok(instructions) => parsed(self.input(), self.lines(), self@) == Ok::<
                    Seq<HackInstruction>,
                    Seq<Diagnostic>,
                >(instructions@),
                Err(errors) => parsed(self.input(), self.lines(), self@) == Err::<
                    Seq<HackInstruction>,
                    Seq<Diagnostic>,
                >(errors@),
            },
    {
        let mut parser = self;
        let count = parser.tokens.len();
        proof {
            lemma_parsed_is_encodable(parser.tokens@, parser.lines(), parser@);
        }
        if !parser.parse() {
            return Err(parser.errors);
        }
        parser.denote_variables();
        if parser.errors.len() > 0 {
            return Err(parser.errors);
        }
        proof {
            let program = parser.instructions@;
            assert(parsed(self.input(), self.lines(), self@) == Ok::<
                Seq<HackInstruction>,
                Seq<Diagnostic>,
            >(program));
        }
        Ok(parser.instructions)
    }
}

} // verus!
