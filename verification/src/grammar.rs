//! What parsing means: the parser as a plain value, [`ParseState`], and the
//! functions that take it from one state to the next. A statement is a label
//! declaration or an instruction; the statements are read one after another;
//! then the names that are neither labels nor predefined become variables.

use crate::ast::{AInstruction, CInstruction, Comp, HackInstruction, MAX_ADDRESS};
use crate::error_formatting::{token_lexeme, Diagnostic, ErrorKind, Message};
use crate::evaluator::encodable;
use crate::scanner::token::{Token, TokenKind};
use crate::symbols::{is_predefined, predefined};
use vstd::prelude::*;

verus! {

/// The address of the first variable.
pub const FIRST_VARIABLE: u16 = 16;

/// The tokens end with `Eof`.
pub open spec fn terminated(tokens: Seq<Token>) -> bool {
    tokens.len() > 0 && tokens.last().kind == TokenKind::Eof
}

/// The parser as a plain value.
pub struct ParseState {
    /// The index of the token that comes next.
    pub curr: int,
    /// The instructions read so far.
    pub instructions: Seq<HackInstruction>,
    /// The diagnostics raised so far.
    pub errors: Seq<Diagnostic>,
    /// The indices of the address instructions that hold a name.
    pub pending: Seq<usize>,
    /// The names that are bound, and their addresses.
    pub symbols: Map<Seq<u8>, u16>,
    /// The address that the next variable gets.
    pub next_variable: u16,
}

impl ParseState {
    /// The state before anything is parsed.
    pub open spec fn initial() -> ParseState {
        ParseState {
            curr: 0,
            instructions: Seq::empty(),
            errors: Seq::empty(),
            pending: Seq::empty(),
            symbols: predefined(),
            next_variable: FIRST_VARIABLE,
        }
    }

    /// The cursor stands on a token.
    pub open spec fn on_token(self, tokens: Seq<Token>) -> bool {
        0 <= self.curr < tokens.len()
    }

    pub open spec fn peek(self, tokens: Seq<Token>) -> Token {
        tokens[self.curr]
    }

    pub open spec fn previous(self, tokens: Seq<Token>) -> Token {
        tokens[self.curr - 1]
    }

    pub open spec fn check(self, tokens: Seq<Token>, kind: TokenKind) -> bool {
        self.peek(tokens).kind == kind
    }

    pub open spec fn is_at_end(self, tokens: Seq<Token>) -> bool {
        self.check(tokens, TokenKind::Eof)
    }

    pub open spec fn check_line_end(self, tokens: Seq<Token>) -> bool {
        self.check(tokens, TokenKind::NewLine) || self.check(tokens, TokenKind::Eof)
    }

    /// The cursor moves on by one token; it stays where it is on `Eof`.
    pub open spec fn advance(self, tokens: Seq<Token>) -> ParseState {
        if self.is_at_end(tokens) {
            self
        } else {
            ParseState { curr: self.curr + 1, ..self }
        }
    }

    /// The cursor moves on `count` times.
    pub open spec fn advance_by(self, tokens: Seq<Token>, count: nat) -> ParseState
        decreases count,
    {
        if count == 0 {
            self
        } else {
            self.advance_by(tokens, (count - 1) as nat).advance(tokens)
        }
    }

    /// A diagnostic is raised about the span of `token`.
    pub open spec fn raise(self, message: Message, token: Token) -> ParseState {
        ParseState { errors: self.errors.push(Diagnostic::at(message, token)), ..self }
    }

    pub open spec fn raise_prev(self, tokens: Seq<Token>, message: Message) -> ParseState {
        self.raise(message, self.previous(tokens))
    }

    pub open spec fn raise_peek(self, tokens: Seq<Token>, message: Message) -> ParseState {
        self.raise(message, self.peek(tokens))
    }

    /// The cursor moves to the next line terminator and past it.
    pub open spec fn synchronise(self, tokens: Seq<Token>) -> ParseState
        decreases tokens.len() - self.curr,
    {
        if !self.on_token(tokens) || self.check_line_end(tokens) {
            self.advance(tokens)
        } else {
            (ParseState { curr: self.curr + 1, ..self }).synchronise(tokens)
        }
    }

    /// The label named by the token `label` is bound to the number of
    /// instructions read so far. A name that is predefined or bound already
    /// keeps its binding and a diagnostic is raised, as it is for a label
    /// beyond the last address of the machine.
    pub open spec fn add_label_ident(
        self,
        tokens: Seq<Token>,
        lines: Seq<Seq<u8>>,
        label: Token,
    ) -> ParseState {
        let name = token_lexeme(lines, label);
        if is_predefined(name) {
            self.raise_prev(tokens, Message::PredefinedName(label))
        } else if self.symbols.contains_key(name) {
            self.raise_prev(tokens, Message::DuplicateLabel(label))
        } else if self.instructions.len() > MAX_ADDRESS {
            self.raise_prev(tokens, Message::AddressOutOfRange)
        } else {
            ParseState {
                symbols: self.symbols.insert(name, self.instructions.len() as u16),
                ..self
            }
        }
    }

    /// A label declaration is read: `(`, a name, `)`. The second part of the
    /// result says whether it was well made.
    pub open spec fn label_declaration(self, tokens: Seq<Token>, lines: Seq<Seq<u8>>) -> (
        ParseState,
        bool,
    ) {
        let named = self.advance(tokens);
        if !(named.peek(tokens).kind is Identifier) {
            (named.raise_peek(tokens, Message::ExpectedLabelName), false)
        } else {
            let closed = named.advance(tokens);
            if !closed.check(tokens, TokenKind::RightParen) {
                (closed.raise_peek(tokens, Message::ExpectedRightParen), false)
            } else {
                (closed.advance(tokens).add_label_ident(tokens, lines, named.peek(tokens)), true)
            }
        }
    }

    /// An address instruction is read: `@` and a name or a number. A name is
    /// kept for later; a number beyond the last address is reported and kept
    /// all the same.
    pub open spec fn a_instruction(self, tokens: Seq<Token>) -> (
        ParseState,
        Option<HackInstruction>,
    ) {
        let target = self.advance(tokens);
        match target.peek(tokens).kind {
            TokenKind::Identifier(_) => (
                ParseState {
                    pending: target.pending.push(target.instructions.len() as usize),
                    ..target.advance(tokens)
                },
                Some(HackInstruction::AInstruction(AInstruction::Identifier(target.peek(tokens)))),
            ),
            TokenKind::Number(address, _) => (
                if address > MAX_ADDRESS {
                    target.advance(tokens).raise_prev(tokens, Message::AddressOutOfRange)
                } else {
                    target.advance(tokens)
                },
                Some(HackInstruction::AInstruction(AInstruction::Number(address))),
            ),
            _ => (target.raise_peek(tokens, Message::ExpectedAddress), None),
        }
    }

    /// The kinds of the tokens that a computation is looked for in: up to
    /// three, from the token before the cursor on.
    pub open spec fn window(self, tokens: Seq<Token>) -> Seq<TokenKind> {
        let first = self.curr - 1;
        let len = if tokens.len() - first < 3 {
            tokens.len() - first
        } else {
            3
        };
        Seq::new(len as nat, |i: int| tokens[first + i].kind)
    }

    /// The diagnostic for a window of `len` tokens that spells no
    /// computation: it starts where the window starts, on the line of the
    /// token at the cursor, and is as long as the window has tokens, a
    /// `NewLine` at its end not counted.
    pub open spec fn raise_comp_error(self, tokens: Seq<Token>, len: int) -> ParseState {
        let counted = if len > 0 && tokens[self.curr + len - 2].kind == TokenKind::NewLine {
            len - 1
        } else {
            len
        };
        ParseState {
            errors: self.errors.push(
                Diagnostic {
                    message: Message::ExpectedComputation,
                    line: self.peek(tokens).line,
                    start: self.previous(tokens).start,
                    len: counted as usize,
                },
            ),
            ..self
        }
    }

    /// A computation is read, its first token being the one before the
    /// cursor: the longest that the window spells.
    pub open spec fn comp(self, tokens: Seq<Token>) -> (ParseState, Option<Comp>) {
        let window = self.window(tokens);
        match Comp::matching(window) {
            Some(comp) => (self.advance_by(tokens, (comp.len() - 1) as nat), Some(comp)),
            None => (self.raise_comp_error(tokens, window.len() as int), None),
        }
    }

    /// A compute instruction is read: a destination and `=` if the second
    /// token is `=`, a computation, and `;` and a jump if `;` follows.
    pub open spec fn c_instruction(self, tokens: Seq<Token>) -> (
        ParseState,
        Option<HackInstruction>,
    ) {
        let first = self.advance(tokens);
        if first.check(tokens, TokenKind::Equals) && !first.previous(
            tokens,
        ).kind.is_dest_keyword() {
            (first.raise_prev(tokens, Message::ExpectedDestination), None)
        } else {
            let (dest, begun) = if first.check(tokens, TokenKind::Equals) {
                (Some(first.previous(tokens)), first.advance(tokens).advance(tokens))
            } else {
                (None, first)
            };
            let (computed, found) = begun.comp(tokens);
            match found {
                None => (computed, None),
                Some(comp) => if computed.check(tokens, TokenKind::Semicolon) {
                    let jump = computed.advance(tokens);
                    if jump.peek(tokens).kind.is_jump_keyword() {
                        (
                            jump.advance(tokens),
                            Some(
                                HackInstruction::CInstruction(
                                    CInstruction { dest, comp, jump: Some(jump.peek(tokens)) },
                                ),
                            ),
                        )
                    } else {
                        (jump.raise_peek(tokens, Message::ExpectedJump), None)
                    }
                } else {
                    (
                        computed,
                        Some(HackInstruction::CInstruction(CInstruction { dest, comp, jump: None })),
                    )
                },
            }
        }
    }

    /// An instruction is read: an address instruction where `@` comes next,
    /// else a compute instruction.
    pub open spec fn instruction(self, tokens: Seq<Token>) -> (
        ParseState,
        Option<HackInstruction>,
    ) {
        if self.check(tokens, TokenKind::At) {
            self.a_instruction(tokens)
        } else {
            self.c_instruction(tokens)
        }
    }

    /// One statement is read, and the line terminator after it. Where the
    /// statement is badly made, or something else follows it on the line, the
    /// rest of the line is passed over.
    pub open spec fn statement(self, tokens: Seq<Token>, lines: Seq<Seq<u8>>) -> ParseState {
        let (read, success) = if self.check(tokens, TokenKind::LeftParen) {
            self.label_declaration(tokens, lines)
        } else {
            let (read, found) = self.instruction(tokens);
            match found {
                Some(ins) => (
                    ParseState { instructions: read.instructions.push(ins), ..read },
                    true,
                ),
                None => (read, false),
            }
        };
        if !success {
            read.synchronise(tokens)
        } else if read.check_line_end(tokens) {
            read.advance(tokens)
        } else {
            read.raise_peek(tokens, Message::ExpectedLineEnd).synchronise(tokens)
        }
    }

    /// The statements are read up to `Eof`.
    pub open spec fn parse(self, tokens: Seq<Token>, lines: Seq<Seq<u8>>) -> ParseState
        decreases tokens.len() - self.curr,
    {
        if !terminated(tokens) || !self.on_token(tokens) || self.is_at_end(tokens) {
            self
        } else {
            proof {
                lemma_statement_advances(self, tokens, lines);
            }
            self.statement(tokens, lines).parse(tokens, lines)
        }
    }

    /// The name in instruction `id` is resolved: to the address it is bound
    /// to, else to the next free variable address, which it is then bound to.
    /// When the addresses of the machine are used up, a diagnostic is raised
    /// and the name stays.
    pub open spec fn denote_variable(self, lines: Seq<Seq<u8>>, id: int) -> ParseState {
        if 0 <= id < self.instructions.len() {
            match self.instructions[id] {
                HackInstruction::AInstruction(AInstruction::Identifier(token)) => {
                    let name = token_lexeme(lines, token);
                    if self.symbols.contains_key(name) {
                        ParseState {
                            instructions: self.instructions.update(
                                id,
                                HackInstruction::AInstruction(
                                    AInstruction::Number(self.symbols[name]),
                                ),
                            ),
                            ..self
                        }
                    } else if self.next_variable > MAX_ADDRESS {
                        self.raise(Message::AddressOutOfRange, token)
                    } else {
                        ParseState {
                            instructions: self.instructions.update(
                                id,
                                HackInstruction::AInstruction(
                                    AInstruction::Number(self.next_variable),
                                ),
                            ),
                            symbols: self.symbols.insert(name, self.next_variable),
                            next_variable: (self.next_variable + 1) as u16,
                            ..self
                        }
                    }
                },
                _ => self,
            }
        } else {
            self
        }
    }

    /// The names in the pending instructions from the `from`-th on are
    /// resolved, in the order in which they were read.
    pub open spec fn denote_variables(self, lines: Seq<Seq<u8>>, from: int) -> ParseState
        decreases self.pending.len() - from,
    {
        if 0 <= from < self.pending.len() {
            self.denote_variable(lines, self.pending[from] as int).denote_variables(
                lines,
                from + 1,
            )
        } else {
            self
        }
    }
}

/// What comes of parsing the tokens of a source: the program, or the
/// diagnostics if there are any. The names are resolved only where the
/// statements were read without a diagnostic.
pub open spec fn parsed(tokens: Seq<Token>, lines: Seq<Seq<u8>>, from: ParseState) -> Result<
    Seq<HackInstruction>,
    Seq<Diagnostic>,
> {
    let read = from.parse(tokens, lines);
    if read.errors.len() > 0 {
        Err(read.errors)
    } else {
        let resolved = read.denote_variables(lines, 0);
        if resolved.errors.len() > 0 {
            Err(resolved.errors)
        } else {
            Ok(resolved.instructions)
        }
    }
}

/// Moving on keeps the cursor on a token and never takes it back.
pub proof fn lemma_advance_by(st: ParseState, tokens: Seq<Token>, count: nat)
    requires
        terminated(tokens),
        st.on_token(tokens),
    ensures
        st.advance_by(tokens, count).on_token(tokens),
        st.curr <= st.advance_by(tokens, count).curr <= st.curr + count,
        st.advance_by(tokens, count) == (ParseState {
            curr: st.advance_by(tokens, count).curr,
            ..st
        }),
    decreases count,
{
    if count > 0 {
        lemma_advance_by(st, tokens, (count - 1) as nat);
    }
}

/// Passing over the rest of a line keeps the cursor on a token, never takes
/// it back, and changes nothing else.
pub proof fn lemma_synchronise(st: ParseState, tokens: Seq<Token>)
    requires
        terminated(tokens),
        st.on_token(tokens),
    ensures
        st.synchronise(tokens).on_token(tokens),
        st.curr <= st.synchronise(tokens).curr,
        st.synchronise(tokens) == (ParseState { curr: st.synchronise(tokens).curr, ..st }),
    decreases tokens.len() - st.curr,
{
    if !st.check_line_end(tokens) {
        lemma_synchronise(ParseState { curr: st.curr + 1, ..st }, tokens);
    }
}

/// A statement takes the cursor on, and leaves it on a token.
pub proof fn lemma_statement_advances(st: ParseState, tokens: Seq<Token>, lines: Seq<Seq<u8>>)
    requires
        terminated(tokens),
        st.on_token(tokens),
        !st.is_at_end(tokens),
    ensures
        st.statement(tokens, lines).on_token(tokens),
        st.statement(tokens, lines).curr > st.curr,
{
    let first = st.advance(tokens);
    if st.check(tokens, TokenKind::LeftParen) {
        let (read, success) = st.label_declaration(tokens, lines);
        lemma_synchronise(read, tokens);
        lemma_synchronise(read.raise_peek(tokens, Message::ExpectedLineEnd), tokens);
    } else if st.check(tokens, TokenKind::At) {
        let (read, found) = st.a_instruction(tokens);
        lemma_synchronise(read, tokens);
        if found is Some {
            let pushed = ParseState {
                instructions: read.instructions.push(found.unwrap()),
                ..read
            };
            lemma_synchronise(pushed.raise_peek(tokens, Message::ExpectedLineEnd), tokens);
        }
    } else {
        lemma_c_instruction_advances(st, tokens);
        let (read, found) = st.c_instruction(tokens);
        lemma_synchronise(read, tokens);
        if found is Some {
            let pushed = ParseState {
                instructions: read.instructions.push(found.unwrap()),
                ..read
            };
            lemma_synchronise(pushed.raise_peek(tokens, Message::ExpectedLineEnd), tokens);
        }
    }
}

/// A compute instruction takes the cursor on, and leaves it on a token.
pub proof fn lemma_c_instruction_advances(st: ParseState, tokens: Seq<Token>)
    requires
        terminated(tokens),
        st.on_token(tokens),
        !st.is_at_end(tokens),
    ensures
        st.c_instruction(tokens).0.on_token(tokens),
        st.c_instruction(tokens).0.curr > st.curr,
{
    let first = st.advance(tokens);
    if first.check(tokens, TokenKind::Equals) && !first.previous(tokens).kind.is_dest_keyword() {
    } else {
        let begun = if first.check(tokens, TokenKind::Equals) {
            first.advance(tokens).advance(tokens)
        } else {
            first
        };
        let window = begun.window(tokens);
        match Comp::matching(window) {
            Some(comp) => {
                lemma_advance_by(begun, tokens, (comp.len() - 1) as nat);
            },
            None => {},
        }
    }
}

/// What holds of the instructions while a program is read and its names are
/// resolved, `from` being the number of pending names that are resolved
/// already. No name is bound beyond the last address of the machine, and
/// there are no more instructions than tokens were read. As long as no
/// diagnostic is raised, every compute instruction is well formed, every
/// numeric address is an address of the machine, and every name that an
/// instruction still holds is among the pending ones that are not yet
/// resolved.
pub open spec fn settled(st: ParseState, from: int) -> bool {
    &&& forall|name: Seq<u8>| #[trigger]
        st.symbols.contains_key(name) ==> st.symbols[name] <= MAX_ADDRESS
    &&& st.instructions.len() <= st.curr
    &&& st.errors.len() == 0 ==> forall|i: int|
        0 <= i < st.instructions.len() ==> settled_at(st, from, i)
}

/// What holds of instruction `i` as long as no diagnostic is raised.
pub open spec fn settled_at(st: ParseState, from: int, i: int) -> bool {
    match st.instructions[i] {
        HackInstruction::CInstruction(ins) => ins.well_formed(),
        HackInstruction::AInstruction(AInstruction::Number(address)) => address <= MAX_ADDRESS,
        HackInstruction::AInstruction(AInstruction::Identifier(_)) => exists|j: int|
            from <= j < st.pending.len() && #[trigger] st.pending[j] == i,
    }
}

/// Reading a statement keeps the instructions settled and never takes a
/// diagnostic away.
pub proof fn lemma_statement_settled(st: ParseState, tokens: Seq<Token>, lines: Seq<Seq<u8>>)
    requires
        terminated(tokens),
        tokens.len() <= usize::MAX,
        st.on_token(tokens),
        !st.is_at_end(tokens),
        settled(st, 0),
    ensures
        settled(st.statement(tokens, lines), 0),
        st.statement(tokens, lines).errors.len() >= st.errors.len(),
{
    crate::symbols::lemma_predefined_addresses();
    let after = st.statement(tokens, lines);
    if st.check(tokens, TokenKind::LeftParen) {
        let (read, success) = st.label_declaration(tokens, lines);
        lemma_synchronise(read, tokens);
        lemma_synchronise(read.raise_peek(tokens, Message::ExpectedLineEnd), tokens);
        assert(after.instructions == st.instructions);
        assert(after.pending == st.pending);
        assert(settled(after, 0)) by {
            if after.errors.len() == 0 {
                assert forall|i: int| 0 <= i < after.instructions.len() implies settled_at(
                    after,
                    0,
                    i,
                ) by {
                    assert(settled_at(st, 0, i));
                }
            }
        }
    } else {
        let (read, found) = st.instruction(tokens);
        if !st.check(tokens, TokenKind::At) {
            lemma_c_instruction_advances(st, tokens);
            lemma_c_instruction_result(st, tokens);
        }
        lemma_synchronise(read, tokens);
        match found {
            Some(ins) => {
                let pushed = ParseState { instructions: read.instructions.push(ins), ..read };
                lemma_synchronise(pushed.raise_peek(tokens, Message::ExpectedLineEnd), tokens);
                assert(after.instructions == st.instructions.push(ins));
                assert(after.symbols == st.symbols);
                assert(settled(after, 0)) by {
                    if after.errors.len() == 0 {
                        assert forall|i: int|
                            0 <= i < after.instructions.len() implies settled_at(after, 0, i) by {
                            if i < st.instructions.len() {
                                assert(settled_at(st, 0, i));
                                if st.instructions[i] matches HackInstruction::AInstruction(
                                    AInstruction::Identifier(_),
                                ) {
                                    let j = choose|j: int|
                                        0 <= j < st.pending.len() && #[trigger] st.pending[j] == i;
                                    assert(after.pending[j] == i);
                                }
                            } else {
                                if ins matches HackInstruction::AInstruction(
                                    AInstruction::Identifier(_),
                                ) {
                                    assert(after.pending[st.pending.len() as int] == i);
                                }
                            }
                        }
                    }
                }
            },
            None => {
                assert(after.instructions == st.instructions);
                assert(after.pending == st.pending);
                assert(after.symbols == st.symbols);
            },
        }
    }
}

/// What reading a compute instruction changes: the cursor and the
/// diagnostics, of which it takes none away. The instruction it gives is well
/// formed.
pub proof fn lemma_c_instruction_result(st: ParseState, tokens: Seq<Token>)
    requires
        terminated(tokens),
        st.on_token(tokens),
        !st.is_at_end(tokens),
    ensures
        st.c_instruction(tokens).0 == (ParseState {
            curr: st.c_instruction(tokens).0.curr,
            errors: st.c_instruction(tokens).0.errors,
            ..st
        }),
        st.c_instruction(tokens).0.errors.len() >= st.errors.len(),
        st.c_instruction(tokens).1 matches Some(ins) ==> ins matches HackInstruction::CInstruction(
            c,
        ) && c.well_formed(),
{
    let first = st.advance(tokens);
    if first.check(tokens, TokenKind::Equals) && !first.previous(tokens).kind.is_dest_keyword() {
    } else {
        let begun = if first.check(tokens, TokenKind::Equals) {
            first.advance(tokens).advance(tokens)
        } else {
            first
        };
        let window = begun.window(tokens);
        match Comp::matching(window) {
            Some(comp) => {
                lemma_advance_by(begun, tokens, (comp.len() - 1) as nat);
            },
            None => {},
        }
    }
}

/// Reading the statements keeps the instructions settled.
pub proof fn lemma_parse_settled(st: ParseState, tokens: Seq<Token>, lines: Seq<Seq<u8>>)
    requires
        terminated(tokens),
        tokens.len() <= usize::MAX,
        st.on_token(tokens),
        settled(st, 0),
    ensures
        settled(st.parse(tokens, lines), 0),
    decreases tokens.len() - st.curr,
{
    if !st.is_at_end(tokens) {
        lemma_statement_advances(st, tokens, lines);
        lemma_statement_settled(st, tokens, lines);
        lemma_parse_settled(st.statement(tokens, lines), tokens, lines);
    }
}

/// Resolving the pending names from the `from`-th on leaves no name in any
/// instruction unless a diagnostic is raised.
pub proof fn lemma_denote_variables_settled(st: ParseState, lines: Seq<Seq<u8>>, from: int)
    requires
        0 <= from <= st.pending.len(),
        settled(st, from),
    ensures
        settled(st.denote_variables(lines, from), st.pending.len() as int),
        st.denote_variables(lines, from).pending == st.pending,
    decreases st.pending.len() - from,
{
    if from < st.pending.len() {
        let id = st.pending[from] as int;
        let next = st.denote_variable(lines, id);
        assert(next.pending == st.pending);
        let rest = from + 1;
        assert(settled(next, rest)) by {
            if next.errors.len() == 0 {
                assert forall|i: int| 0 <= i < next.instructions.len() implies settled_at(
                    next,
                    rest,
                    i,
                ) by {
                    assert(settled_at(st, from, i));
                    if i != id && st.instructions[i] is AInstruction {
                        assert(next.instructions[i] == st.instructions[i]);
                        if st.instructions[i] matches HackInstruction::AInstruction(
                            AInstruction::Identifier(_),
                        ) {
                            let j = choose|j: int|
                                from <= j < st.pending.len() && #[trigger] st.pending[j] == i;
                            assert(next.pending[j] == i);
                        }
                    }
                }
            }
        }
        lemma_denote_variables_settled(next, lines, rest);
    }
}

/// A program that comes out of parsing can be written out: every address
/// instruction holds a number that is an address of the machine, every
/// compute instruction is well formed. This holds from the start, and from
/// any state in which what was read so far is settled.
pub proof fn lemma_parsed_is_encodable(tokens: Seq<Token>, lines: Seq<Seq<u8>>, start: ParseState)
    requires
        terminated(tokens),
        tokens.len() <= usize::MAX,
        start.on_token(tokens),
        settled(start, 0),
    ensures
        match parsed(tokens, lines, start) {
            Ok(program) => encodable(program),
            Err(_) => true,
        },
{
    lemma_parse_settled(start, tokens, lines);
    let read = start.parse(tokens, lines);
    lemma_denote_variables_settled(read, lines, 0);
    let resolved = read.denote_variables(lines, 0);
    if read.errors.len() == 0 && resolved.errors.len() == 0 {
        assert forall|i: int| 0 <= i < resolved.instructions.len() implies (
        #[trigger] resolved.instructions[i]).encodable() by {
            assert(settled_at(resolved, resolved.pending.len() as int, i));
        }
    }
}

/// `after` holds the diagnostics of `before`, in their order, and after them
/// none but syntax and semantic diagnostics.
pub open spec fn raised_since(before: Seq<Diagnostic>, after: Seq<Diagnostic>) -> bool {
    &&& before.len() <= after.len()
    &&& forall|i: int| 0 <= i < before.len() ==> #[trigger] after[i] == before[i]
    &&& forall|i: int|
        before.len() <= i < after.len() ==> (#[trigger] after[i]).kind() != ErrorKind::Lexical
}

/// `after` holds every binding of `before`: no name is bound anew or lost.
pub open spec fn bindings_kept(before: Map<Seq<u8>, u16>, after: Map<Seq<u8>, u16>) -> bool {
    forall|name: Seq<u8>| #[trigger]
        before.contains_key(name) ==> after.contains_key(name) && after[name] == before[name]
}

/// `after` holds the instructions of `before`, in their order, and more
/// after them.
pub open spec fn read_since(before: Seq<HackInstruction>, after: Seq<HackInstruction>) -> bool {
    &&& before.len() <= after.len()
    &&& forall|i: int| 0 <= i < before.len() ==> #[trigger] after[i] == before[i]
}

/// A statement takes nothing back: the diagnostics, the bindings and the
/// instructions that were there stay as they are. What it raises is a syntax
/// or a semantic diagnostic; the first binding of a name wins.
pub proof fn lemma_statement_keeps(st: ParseState, tokens: Seq<Token>, lines: Seq<Seq<u8>>)
    requires
        terminated(tokens),
        st.on_token(tokens),
        !st.is_at_end(tokens),
    ensures
        raised_since(st.errors, st.statement(tokens, lines).errors),
        bindings_kept(st.symbols, st.statement(tokens, lines).symbols),
        read_since(st.instructions, st.statement(tokens, lines).instructions),
{
    let after = st.statement(tokens, lines);
    if st.check(tokens, TokenKind::LeftParen) {
        let (read, success) = st.label_declaration(tokens, lines);
        lemma_synchronise(read, tokens);
        lemma_synchronise(read.raise_peek(tokens, Message::ExpectedLineEnd), tokens);
        assert(after.instructions == st.instructions);
    } else {
        let (read, found) = st.instruction(tokens);
        if !st.check(tokens, TokenKind::At) {
            lemma_c_instruction_advances(st, tokens);
            lemma_c_instruction_result(st, tokens);
            lemma_c_instruction_raises(st, tokens);
        }
        lemma_synchronise(read, tokens);
        match found {
            Some(ins) => {
                let pushed = ParseState { instructions: read.instructions.push(ins), ..read };
                lemma_synchronise(pushed.raise_peek(tokens, Message::ExpectedLineEnd), tokens);
                assert(after.instructions == st.instructions.push(ins));
                assert(after.symbols == st.symbols);
            },
            None => {
                assert(after.instructions == st.instructions);
                assert(after.symbols == st.symbols);
            },
        }
    }
}

/// What a compute instruction raises is a syntax diagnostic.
pub proof fn lemma_c_instruction_raises(st: ParseState, tokens: Seq<Token>)
    requires
        terminated(tokens),
        st.on_token(tokens),
        !st.is_at_end(tokens),
    ensures
        raised_since(st.errors, st.c_instruction(tokens).0.errors),
{
    let first = st.advance(tokens);
    if first.check(tokens, TokenKind::Equals) && !first.previous(tokens).kind.is_dest_keyword() {
    } else {
        let begun = if first.check(tokens, TokenKind::Equals) {
            first.advance(tokens).advance(tokens)
        } else {
            first
        };
        let window = begun.window(tokens);
        match Comp::matching(window) {
            Some(comp) => {
                lemma_advance_by(begun, tokens, (comp.len() - 1) as nat);
            },
            None => {},
        }
    }
}

/// Reading the statements takes nothing back: the diagnostics, the bindings
/// and the instructions that were there stay as they are. In particular a
/// label never replaces a predefined name or an earlier label.
pub proof fn lemma_parse_keeps(st: ParseState, tokens: Seq<Token>, lines: Seq<Seq<u8>>)
    requires
        terminated(tokens),
        st.on_token(tokens),
    ensures
        raised_since(st.errors, st.parse(tokens, lines).errors),
        bindings_kept(st.symbols, st.parse(tokens, lines).symbols),
        read_since(st.instructions, st.parse(tokens, lines).instructions),
    decreases tokens.len() - st.curr,
{
    if !st.is_at_end(tokens) {
        lemma_statement_advances(st, tokens, lines);
        lemma_statement_keeps(st, tokens, lines);
        let next = st.statement(tokens, lines);
        lemma_parse_keeps(next, tokens, lines);
        let last = next.parse(tokens, lines);
        assert(raised_since(st.errors, last.errors)) by {
            assert forall|i: int| 0 <= i < st.errors.len() implies #[trigger] last.errors[i]
                == st.errors[i] by {
                assert(next.errors[i] == st.errors[i]);
            }
            assert forall|i: int| st.errors.len() <= i < last.errors.len() implies (
            #[trigger] last.errors[i]).kind() != ErrorKind::Lexical by {
                if i < next.errors.len() {
                    assert(last.errors[i] == next.errors[i]);
                }
            }
        }
        assert(read_since(st.instructions, last.instructions)) by {
            assert forall|i: int| 0 <= i < st.instructions.len() implies #[trigger] last.instructions[i]
                == st.instructions[i] by {
                assert(next.instructions[i] == st.instructions[i]);
            }
        }
    }
}

/// Resolving the names takes no diagnostic and no binding back, and binds no
/// name that is bound already: a name that is a label or predefined is no
/// variable. The number of instructions stays.
pub proof fn lemma_denote_variables_keeps(st: ParseState, lines: Seq<Seq<u8>>, from: int)
    requires
        0 <= from <= st.pending.len(),
    ensures
        raised_since(st.errors, st.denote_variables(lines, from).errors),
        bindings_kept(st.symbols, st.denote_variables(lines, from).symbols),
        st.denote_variables(lines, from).instructions.len() == st.instructions.len(),
    decreases st.pending.len() - from,
{
    if from < st.pending.len() {
        let next = st.denote_variable(lines, st.pending[from] as int);
        lemma_denote_variables_keeps(next, lines, from + 1);
        let last = next.denote_variables(lines, from + 1);
        assert(bindings_kept(st.symbols, next.symbols));
        assert forall|name: Seq<u8>| #[trigger] st.symbols.contains_key(name) implies
            last.symbols.contains_key(name) && last.symbols[name] == st.symbols[name] by {
            assert(next.symbols.contains_key(name));
        }
        assert(raised_since(st.errors, last.errors)) by {
            assert forall|i: int| 0 <= i < st.errors.len() implies #[trigger] last.errors[i]
                == st.errors[i] by {
                assert(next.errors[i] == st.errors[i]);
            }
            assert forall|i: int| st.errors.len() <= i < last.errors.len() implies (
            #[trigger] last.errors[i]).kind() != ErrorKind::Lexical by {
                if i < next.errors.len() {
                    assert(last.errors[i] == next.errors[i]);
                }
            }
        }
    }
}

/// A label that is declared under a new name, while the addresses of the
/// machine last, is bound to the index of the instruction that follows the
/// declaration, whatever is read after it.
pub proof fn lemma_label_is_next_instruction(
    st: ParseState,
    tokens: Seq<Token>,
    lines: Seq<Seq<u8>>,
)
    requires
        terminated(tokens),
        st.on_token(tokens),
        st.curr + 2 < tokens.len(),
        tokens[st.curr].kind == TokenKind::LeftParen,
        tokens[st.curr + 1].kind is Identifier,
        tokens[st.curr + 2].kind == TokenKind::RightParen,
        !is_predefined(token_lexeme(lines, tokens[st.curr + 1])),
        !st.symbols.contains_key(token_lexeme(lines, tokens[st.curr + 1])),
        st.instructions.len() <= MAX_ADDRESS,
    ensures
        st.parse(tokens, lines).symbols.contains_key(token_lexeme(lines, tokens[st.curr + 1])),
        st.parse(tokens, lines).symbols[token_lexeme(lines, tokens[st.curr + 1])]
            == st.instructions.len(),
{
    let name = token_lexeme(lines, tokens[st.curr + 1]);
    let (read, success) = st.label_declaration(tokens, lines);
    assert(read.symbols == st.symbols.insert(name, st.instructions.len() as u16));
    lemma_synchronise(read, tokens);
    lemma_synchronise(read.raise_peek(tokens, Message::ExpectedLineEnd), tokens);
    lemma_statement_advances(st, tokens, lines);
    let next = st.statement(tokens, lines);
    assert(next.symbols == read.symbols);
    assert(next.symbols.contains_key(name));
    lemma_parse_keeps(next, tokens, lines);
}

/// Whether `ins` is an address instruction that holds a name.
pub open spec fn holds_name(ins: HackInstruction) -> bool {
    ins matches HackInstruction::AInstruction(AInstruction::Identifier(_))
}

/// The pending instructions from the `from`-th on still hold their names,
/// and the pending indices grow.
pub open spec fn names_pending(st: ParseState, from: int) -> bool {
    &&& forall|k: int|
        from <= k < st.pending.len() ==> (#[trigger] st.pending[k]) < st.instructions.len()
            && holds_name(st.instructions[st.pending[k] as int])
    &&& forall|j: int, k: int|
        0 <= j < k < st.pending.len() ==> (#[trigger] st.pending[j]) < (#[trigger] st.pending[k])
}

/// The name that instruction `id` holds; empty where it holds none.
pub open spec fn name_at(st: ParseState, lines: Seq<Seq<u8>>, id: int) -> Seq<u8> {
    match st.instructions[id] {
        HackInstruction::AInstruction(AInstruction::Identifier(token)) => token_lexeme(
            lines,
            token,
        ),
        _ => Seq::empty(),
    }
}

/// Reading a statement leaves the pending instructions with their names.
pub proof fn lemma_statement_names_pending(
    st: ParseState,
    tokens: Seq<Token>,
    lines: Seq<Seq<u8>>,
)
    requires
        terminated(tokens),
        tokens.len() <= usize::MAX,
        st.on_token(tokens),
        !st.is_at_end(tokens),
        st.instructions.len() <= st.curr,
        names_pending(st, 0),
    ensures
        names_pending(st.statement(tokens, lines), 0),
        st.statement(tokens, lines).instructions.len() <= st.statement(tokens, lines).curr,
{
    let after = st.statement(tokens, lines);
    if st.check(tokens, TokenKind::LeftParen) {
        let (read, success) = st.label_declaration(tokens, lines);
        lemma_synchronise(read, tokens);
        lemma_synchronise(read.raise_peek(tokens, Message::ExpectedLineEnd), tokens);
        assert(after.instructions == st.instructions);
        assert(after.pending == st.pending);
    } else {
        let (read, found) = st.instruction(tokens);
        if !st.check(tokens, TokenKind::At) {
            lemma_c_instruction_advances(st, tokens);
            lemma_c_instruction_result(st, tokens);
        }
        lemma_synchronise(read, tokens);
        match found {
            Some(ins) => {
                let pushed = ParseState { instructions: read.instructions.push(ins), ..read };
                lemma_synchronise(pushed.raise_peek(tokens, Message::ExpectedLineEnd), tokens);
                assert(after.instructions == st.instructions.push(ins));
                assert(after.pending == read.pending);
                assert forall|k: int| 0 <= k < after.pending.len() implies (
                #[trigger] after.pending[k]) < after.instructions.len()
                    && holds_name(after.instructions[after.pending[k] as int]) by {
                    if k < st.pending.len() {
                        assert(after.pending[k] == st.pending[k]);
                    }
                }
                assert forall|j: int, k: int| 0 <= j < k < after.pending.len() implies (
                #[trigger] after.pending[j]) < (#[trigger] after.pending[k]) by {
                    assert(after.pending[j] == st.pending[j]);
                    if k < st.pending.len() {
                        assert(after.pending[k] == st.pending[k]);
                    }
                }
            },
            None => {
                assert(after.instructions == st.instructions);
                assert(after.pending == st.pending);
            },
        }
    }
}

/// Reading the statements leaves the pending instructions with their names.
pub proof fn lemma_parse_names_pending(st: ParseState, tokens: Seq<Token>, lines: Seq<Seq<u8>>)
    requires
        terminated(tokens),
        tokens.len() <= usize::MAX,
        st.on_token(tokens),
        st.instructions.len() <= st.curr,
        names_pending(st, 0),
    ensures
        names_pending(st.parse(tokens, lines), 0),
    decreases tokens.len() - st.curr,
{
    if !st.is_at_end(tokens) {
        lemma_statement_advances(st, tokens, lines);
        lemma_statement_names_pending(st, tokens, lines);
        lemma_parse_names_pending(st.statement(tokens, lines), tokens, lines);
    }
}

/// Where the names are resolved without a diagnostic, every pending
/// instruction holds the address that its name is bound to in the end, and
/// no other instruction is touched. So one name has one address wherever it
/// is used, and a name that is a label or predefined has that address.
pub proof fn lemma_names_resolve_to_bindings(st: ParseState, lines: Seq<Seq<u8>>, from: int)
    requires
        0 <= from <= st.pending.len(),
        names_pending(st, from),
    ensures
        st.denote_variables(lines, from).errors.len() == st.errors.len() ==> forall|k: int|
            from <= k < st.pending.len() ==> st.denote_variables(lines, from).symbols.contains_key(
                name_at(st, lines, #[trigger] st.pending[k] as int),
            ) && st.denote_variables(lines, from).instructions[st.pending[k] as int]
                == HackInstruction::AInstruction(
                AInstruction::Number(
                    st.denote_variables(lines, from).symbols[name_at(
                        st,
                        lines,
                        st.pending[k] as int,
                    )],
                ),
            ),
        forall|i: int|
            0 <= i < st.instructions.len() && (forall|k: int|
                from <= k < st.pending.len() ==> #[trigger] st.pending[k] != i)
                ==> #[trigger] st.denote_variables(lines, from).instructions[i]
                == st.instructions[i],
    decreases st.pending.len() - from,
{
    if from < st.pending.len() {
        let id = st.pending[from] as int;
        let next = st.denote_variable(lines, id);
        let rest = from + 1;
        assert(next.pending == st.pending);
        assert(names_pending(next, rest)) by {
            assert forall|k: int| rest <= k < next.pending.len() implies (
            #[trigger] next.pending[k]) < next.instructions.len()
                && holds_name(next.instructions[next.pending[k] as int]) by {
                assert(st.pending[from] < st.pending[k]);
                assert(st.pending[k] < st.instructions.len());
            }
        }
        lemma_names_resolve_to_bindings(next, lines, rest);
        lemma_denote_variables_keeps(next, lines, rest);
        let last = next.denote_variables(lines, rest);
        assert(last == st.denote_variables(lines, from));
        assert(forall|k: int| rest <= k < st.pending.len() ==> #[trigger] st.pending[k] != id) by {
            assert forall|k: int| rest <= k < st.pending.len() implies #[trigger] st.pending[k]
                != id by {
                assert(st.pending[from] < st.pending[k]);
            }
        }
        assert(last.instructions[id] == next.instructions[id]);
        assert forall|i: int|
            0 <= i < st.instructions.len() && (forall|k: int|
                from <= k < st.pending.len() ==> #[trigger] st.pending[k] != i)
                implies #[trigger] last.instructions[i] == st.instructions[i] by {
            assert(st.pending[from] != i);
            assert(next.instructions[i] == st.instructions[i]);
            assert forall|k: int| rest <= k < next.pending.len() implies #[trigger] next.pending[k]
                != i by {
                assert(st.pending[k] != i);
            }
        }
        if last.errors.len() == st.errors.len() {
            assert(next.errors.len() == st.errors.len());
            assert forall|k: int| from <= k < st.pending.len() implies last.symbols.contains_key(
                name_at(st, lines, #[trigger] st.pending[k] as int),
            ) && last.instructions[st.pending[k] as int] == HackInstruction::AInstruction(
                AInstruction::Number(last.symbols[name_at(st, lines, st.pending[k] as int)]),
            ) by {
                if k == from {
                    let name = name_at(st, lines, id);
                    assert(next.symbols.contains_key(name));
                    assert(next.instructions[id] == HackInstruction::AInstruction(
                        AInstruction::Number(next.symbols[name]),
                    ));
                } else {
                    assert(st.pending[from] < st.pending[k]);
                    assert(next.instructions[st.pending[k] as int] == st.instructions[st.pending[k] as int]);
                    assert(name_at(next, lines, next.pending[k] as int) == name_at(
                        st,
                        lines,
                        st.pending[k] as int,
                    ));
                }
            }
        }
    }
}

} // verus!
