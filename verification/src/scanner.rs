//! The scanner: source lines in, tokens and lexical diagnostics out.
//!
//! What scanning means is defined on a plain model of the scanner,
//! [`ScanState`], by one function that scans a single token, [`scan_step`],
//! and one that repeats it to the end of the source, [`scan_all`]. The
//! executable scanner is proved to do exactly that.

pub mod token;

use crate::ast::MAX_ADDRESS;
use crate::error_formatting::{line_text, lines_view, Diagnostic, ErrorKind, Message};
use crate::grammar::{terminated, ParseState};
use crate::parser::Parser;
use crate::scanner::token::{Token, TokenKind};
use crate::text::same_bytes;
use vstd::prelude::*;
use vstd::slice::{slice_index_get, slice_subrange};
use vstd::string::*;

verus! {

/// Letters of either case.
pub open spec fn is_alpha(byte: u8) -> bool {
    ('a' as u8 <= byte <= 'z' as u8) || ('A' as u8 <= byte <= 'Z' as u8)
}

/// Decimal digits.
pub open spec fn is_digit(byte: u8) -> bool {
    '0' as u8 <= byte <= '9' as u8
}

/// The bytes that a name goes on with after its first letter.
pub open spec fn is_name_byte(byte: u8) -> bool {
    is_alpha(byte) || is_digit(byte) || byte == '_' as u8 || byte == '.' as u8 || byte
        == '$' as u8
}

/// The bytes that a number goes on with after its first digit.
pub open spec fn is_number_byte(byte: u8) -> bool {
    is_digit(byte) || byte == '_' as u8
}

/// Blanks within a line.
pub open spec fn is_blank(byte: u8) -> bool {
    byte == ' ' as u8 || byte == '\r' as u8 || byte == '\t' as u8
}

/// The token kind of a byte that is a token by itself.
pub open spec fn symbol(byte: u8) -> Option<TokenKind> {
    if byte == '@' as u8 {
        Some(TokenKind::At)
    } else if byte == '=' as u8 {
        Some(TokenKind::Equals)
    } else if byte == '+' as u8 {
        Some(TokenKind::Plus)
    } else if byte == '-' as u8 {
        Some(TokenKind::Minus)
    } else if byte == '|' as u8 {
        Some(TokenKind::Or)
    } else if byte == '&' as u8 {
        Some(TokenKind::And)
    } else if byte == '!' as u8 {
        Some(TokenKind::Not)
    } else if byte == '(' as u8 {
        Some(TokenKind::LeftParen)
    } else if byte == ')' as u8 {
        Some(TokenKind::RightParen)
    } else if byte == ';' as u8 {
        Some(TokenKind::Semicolon)
    } else {
        None
    }
}

/// The keyword that `word` spells, if it spells one.
pub open spec fn keyword(word: Seq<u8>) -> Option<TokenKind> {
    if word == "M".spec_bytes() {
        Some(TokenKind::M)
    } else if word == "D".spec_bytes() {
        Some(TokenKind::D)
    } else if word == "MD".spec_bytes() {
        Some(TokenKind::Md)
    } else if word == "A".spec_bytes() {
        Some(TokenKind::A)
    } else if word == "AM".spec_bytes() {
        Some(TokenKind::Am)
    } else if word == "AD".spec_bytes() {
        Some(TokenKind::Ad)
    } else if word == "AMD".spec_bytes() {
        Some(TokenKind::Amd)
    } else if word == "JGT".spec_bytes() {
        Some(TokenKind::Jgt)
    } else if word == "JEQ".spec_bytes() {
        Some(TokenKind::Jeq)
    } else if word == "JGE".spec_bytes() {
        Some(TokenKind::Jge)
    } else if word == "JLT".spec_bytes() {
        Some(TokenKind::Jlt)
    } else if word == "JNE".spec_bytes() {
        Some(TokenKind::Jne)
    } else if word == "JLE".spec_bytes() {
        Some(TokenKind::Jle)
    } else if word == "JMP".spec_bytes() {
        Some(TokenKind::Jmp)
    } else {
        None
    }
}

/// Where the name that is being read at `from` ends: the first offset from
/// `from` on that holds no name byte, or the end of the line.
pub open spec fn name_end(text: Seq<u8>, from: int) -> int
    decreases text.len() - from,
{
    if 0 <= from < text.len() && is_name_byte(text[from]) {
        name_end(text, from + 1)
    } else {
        from
    }
}

/// Where the number that is being read at `from` ends: the first offset from
/// `from` on that holds neither a digit nor an underscore, or the end of the
/// line.
pub open spec fn number_end(text: Seq<u8>, from: int) -> int
    decreases text.len() - from,
{
    if 0 <= from < text.len() && is_number_byte(text[from]) {
        number_end(text, from + 1)
    } else {
        from
    }
}

/// The value of a decimal literal, in which underscores count for nothing.
pub open spec fn literal_value(literal: Seq<u8>) -> nat
    decreases literal.len(),
{
    if literal.len() == 0 {
        0
    } else if is_digit(literal.last()) {
        literal_value(literal.drop_last()) * 10 + (literal.last() - '0' as u8) as nat
    } else {
        literal_value(literal.drop_last())
    }
}

/// The value that a number token holds for a literal of value `value`: the
/// value itself, and the largest that the token can hold where the literal is
/// beyond that.
pub open spec fn token_value(value: nat) -> u16 {
    if value > u16::MAX {
        u16::MAX
    } else {
        value as u16
    }
}

/// The scanner as a plain value: the line and the offset in it that the
/// scanner stands at, and the tokens and diagnostics gathered so far.
pub struct ScanState {
    pub line: int,
    pub curr: int,
    pub tokens: Seq<Token>,
    pub errors: Seq<Diagnostic>,
}

impl ScanState {
    /// The state before anything is scanned.
    pub open spec fn initial() -> ScanState {
        ScanState { line: 0, curr: 0, tokens: Seq::empty(), errors: Seq::empty() }
    }

    /// The state after a token of kind `kind` was read from `self.curr` up
    /// to `end`.
    pub open spec fn emit(self, kind: TokenKind, end: int) -> ScanState {
        ScanState {
            curr: end,
            tokens: self.tokens.push(
                Token { kind, line: self.line as usize, start: self.curr as usize },
            ),
            ..self
        }
    }

    /// The state after the bytes from `self.curr` up to `end` were found
    /// faulty.
    pub open spec fn fail(self, message: Message, end: int) -> ScanState {
        ScanState {
            errors: self.errors.push(
                Diagnostic {
                    message,
                    line: self.line as usize,
                    start: self.curr as usize,
                    len: (end - self.curr) as usize,
                },
            ),
            ..self
        }
    }

    /// The state after the bytes up to `end` were passed over.
    pub open spec fn skip_to(self, end: int) -> ScanState {
        ScanState { curr: end, ..self }
    }

    /// The state after the end of the line was read: a `NewLine` token is
    /// added unless there is no token yet or the last one is a `NewLine`, and
    /// the scanner stands at the start of the next line.
    pub open spec fn end_line(self) -> ScanState {
        let tokens = if self.tokens.len() > 0 && self.tokens.last().kind != TokenKind::NewLine {
            self.emit(TokenKind::NewLine, self.curr).tokens
        } else {
            self.tokens
        };
        ScanState { line: self.line + 1, curr: 0, tokens, errors: self.errors }
    }

    /// The state after the number that starts at `self.curr` was read. A
    /// literal beyond the largest address is reported; its token is made all
    /// the same.
    pub open spec fn number(self, text: Seq<u8>) -> ScanState {
        let end = number_end(text, self.curr + 1);
        let value = literal_value(text.subrange(self.curr, end));
        let reported = if value > MAX_ADDRESS {
            self.fail(Message::NumberOutOfRange, end)
        } else {
            self
        };
        reported.emit(TokenKind::Number(token_value(value), (end - self.curr) as usize), end)
    }

    /// The state after the word that starts at `self.curr` was read: a
    /// keyword where the word spells one, else an identifier.
    pub open spec fn word(self, text: Seq<u8>) -> ScanState {
        let end = name_end(text, self.curr + 1);
        let kind = match keyword(text.subrange(self.curr, end)) {
            Some(kind) => kind,
            None => TokenKind::Identifier((end - self.curr) as usize),
        };
        self.emit(kind, end)
    }
}

/// Whether the scanner has read all the lines.
pub open spec fn at_end(lines: Seq<Seq<u8>>, st: ScanState) -> bool {
    st.line >= lines.len()
}

/// The state after one more token, blank, comment or faulty byte was read
/// from the source `lines`.
pub open spec fn scan_step(lines: Seq<Seq<u8>>, st: ScanState) -> ScanState {
    let text = line_text(lines, st.line);
    if !(0 <= st.curr < text.len()) || text[st.curr] == '\n' as u8 {
        st.end_line()
    } else {
        let byte = text[st.curr];
        let next = st.curr + 1;
        if symbol(byte) is Some {
            st.emit(symbol(byte).unwrap(), next)
        } else if byte == '/' as u8 {
            if next < text.len() && text[next] == '/' as u8 {
                st.skip_to(text.len() as int)
            } else {
                st.fail(Message::BareSlash, next).skip_to(next)
            }
        } else if is_blank(byte) {
            st.skip_to(next)
        } else if is_digit(byte) {
            st.number(text)
        } else if is_alpha(byte) {
            st.word(text)
        } else {
            st.fail(Message::UnexpectedCharacter, next).skip_to(next)
        }
    }
}

/// A state that the scanner can be in on the source `lines`: within the
/// source it stands in a line or at its end, and not before the first line.
pub open spec fn within(lines: Seq<Seq<u8>>, st: ScanState) -> bool {
    &&& 0 <= st.line
    &&& 0 <= st.curr
    &&& st.line < lines.len() ==> st.curr <= lines[st.line].len()
}

/// A name or a number ends no earlier than it is read from, and within the
/// line.
pub proof fn lemma_ends(text: Seq<u8>, from: int)
    requires
        0 <= from <= text.len(),
    ensures
        from <= name_end(text, from) <= text.len(),
        from <= number_end(text, from) <= text.len(),
    decreases text.len() - from,
{
    if from < text.len() {
        lemma_ends(text, from + 1);
    }
}

/// One step takes the scanner on: to the next line, or further in the line
/// without leaving it.
pub proof fn lemma_step_advances(lines: Seq<Seq<u8>>, st: ScanState)
    requires
        within(lines, st),
        !at_end(lines, st),
    ensures
        within(lines, scan_step(lines, st)),
        scan_step(lines, st).line == st.line + 1 || (scan_step(lines, st).line == st.line
            && scan_step(lines, st).curr > st.curr),
{
    let text = lines[st.line];
    if st.curr < text.len() {
        lemma_ends(text, st.curr + 1);
    }
}

/// The state when all of the source `lines` is read, the `Eof` token
/// included, starting from the state `st`.
pub open spec fn scan_all(lines: Seq<Seq<u8>>, st: ScanState) -> ScanState
    decreases lines.len() - st.line, line_text(lines, st.line).len() - st.curr,
{
    if at_end(lines, st) || !within(lines, st) {
        st.emit(TokenKind::Eof, st.curr)
    } else {
        proof {
            lemma_step_advances(lines, st);
        }
        scan_all(lines, scan_step(lines, st))
    }
}

/// Where the line that is being read at `from` ends: the first offset from
/// `from` on that holds a line feed, or the end of the text.
pub open spec fn line_end(text: Seq<u8>, from: int) -> int
    decreases text.len() - from,
{
    if 0 <= from < text.len() && text[from] != '\n' as u8 {
        line_end(text, from + 1)
    } else {
        from
    }
}

/// A line ends no earlier than it is read from, and within the text.
pub proof fn lemma_line_end(text: Seq<u8>, from: int)
    requires
        0 <= from <= text.len(),
    ensures
        from <= line_end(text, from) <= text.len(),
        line_end(text, from) < text.len() ==> text[line_end(text, from)] == '\n' as u8,
        forall|i: int| from <= i < line_end(text, from) ==> text[i] != '\n' as u8,
    decreases text.len() - from,
{
    if from < text.len() && text[from] != '\n' as u8 {
        lemma_line_end(text, from + 1);
    }
}

/// `line` without the carriage return at its end, if it has one there.
pub open spec fn without_cr(line: Seq<u8>) -> Seq<u8> {
    if line.len() > 0 && line.last() == '\r' as u8 {
        line.drop_last()
    } else {
        line
    }
}

/// The lines of `text` from offset `from` on. A line ends with a line feed,
/// or with a carriage return and a line feed, neither of which belongs to it;
/// what follows the last line feed is a line too unless it is empty.
pub open spec fn lines_from(text: Seq<u8>, from: int) -> Seq<Seq<u8>>
    decreases text.len() - from,
{
    if !(0 <= from < text.len()) {
        Seq::empty()
    } else {
        let end = line_end(text, from);
        proof {
            lemma_line_end(text, from);
        }
        if end >= text.len() {
            seq![text.subrange(from, text.len() as int)]
        } else {
            seq![without_cr(text.subrange(from, end))] + lines_from(text, end + 1)
        }
    }
}

/// The lines of `text`.
pub open spec fn split_lines(text: Seq<u8>) -> Seq<Seq<u8>> {
    lines_from(text, 0)
}

/// Cuts `text` into its lines.
pub fn lines_of(text: &[u8]) -> (lines: Vec<Vec<u8>>)
    ensures
        lines_view(&lines) == split_lines(text@),
{
    let mut lines: Vec<Vec<u8>> = Vec::new();
    let mut from: usize = 0;
    assert(lines_view(&lines) + lines_from(text@, 0) =~= split_lines(text@));
    while from < text.len()
        invariant
            from <= text@.len(),
            lines_view(&lines) + lines_from(text@, from as int) == split_lines(text@),
        decreases text@.len() - from,
    {
        let ghost before = lines_view(&lines);
        let mut end: usize = from;
        while end < text.len() && *slice_index_get(text, end) != '\n' as u8
            invariant
                from <= end <= text@.len(),
                line_end(text@, end as int) == line_end(text@, from as int),
            decreases text@.len() - end,
        {
            end = end + 1;
        }
        let mut line: Vec<u8> = Vec::new();
        if end < text.len() {
            let stop: usize = if end > from && *slice_index_get(text, end - 1) == '\r' as u8 {
                (end - 1) as usize
            } else {
                end
            };
            crate::text::push_all(&mut line, slice_subrange(text, from, stop));
            assert(line@ =~= without_cr(text@.subrange(from as int, end as int)));
            lines.push(line);
            assert(lines_view(&lines) =~= before + seq![
                without_cr(text@.subrange(from as int, end as int)),
            ]);
            assert(lines_view(&lines) + lines_from(text@, end + 1) =~= before + lines_from(
                text@,
                from as int,
            ));
            from = end + 1;
        } else {
            crate::text::push_all(&mut line, slice_subrange(text, from, end));
            lines.push(line);
            assert(lines_view(&lines) =~= before + seq![
                text@.subrange(from as int, text@.len() as int),
            ]);
            assert(lines_view(&lines) + lines_from(text@, end as int) =~= before + lines_from(
                text@,
                from as int,
            ));
            from = end;
        }
    }
    assert(lines_view(&lines) + lines_from(text@, from as int) =~= lines_view(&lines));
    lines
}

/// Every diagnostic of `errors` is a lexical one.
pub open spec fn all_lexical(errors: Seq<Diagnostic>) -> bool {
    forall|i: int| 0 <= i < errors.len() ==> (#[trigger] errors[i]).kind() == ErrorKind::Lexical
}

/// `after` starts with the tokens of `before`.
pub open spec fn scanned_since(before: Seq<Token>, after: Seq<Token>) -> bool {
    &&& before.len() <= after.len()
    &&& forall|i: int| 0 <= i < before.len() ==> #[trigger] after[i] == before[i]
}

/// The scanner raises none but lexical diagnostics, and takes no token back.
pub proof fn lemma_scan_all_keeps(lines: Seq<Seq<u8>>, st: ScanState)
    requires
        all_lexical(st.errors),
    ensures
        all_lexical(scan_all(lines, st).errors),
        scanned_since(st.tokens, scan_all(lines, st).tokens),
    decreases lines.len() - st.line, line_text(lines, st.line).len() - st.curr,
{
    if at_end(lines, st) || !within(lines, st) {
    } else {
        lemma_step_advances(lines, st);
        let next = scan_step(lines, st);
        assert(all_lexical(next.errors));
        assert(scanned_since(st.tokens, next.tokens));
        lemma_scan_all_keeps(lines, next);
        let last = scan_all(lines, next);
        assert forall|i: int| 0 <= i < st.tokens.len() implies #[trigger] last.tokens[i]
            == st.tokens[i] by {
            assert(next.tokens[i] == st.tokens[i]);
        }
    }
}

/// Whether the span of `token` lies within the line that it stands on. An
/// `Eof` stands after the last line, and a `NewLine` may stand at the very
/// end of its line.
pub open spec fn fits(lines: Seq<Seq<u8>>, token: Token) -> bool {
    match token.kind {
        TokenKind::Eof => true,
        TokenKind::NewLine => token.line < lines.len() && token.start <= lines[token.line as int].len(),
        _ => token.line < lines.len() && token.start + token.len() <= lines[token.line as int].len(),
    }
}

/// A keyword is as long as the word that spells it.
pub proof fn lemma_keyword_len(word: Seq<u8>)
    requires
        keyword(word) is Some,
    ensures
        keyword(word).unwrap().spec_len() == word.len(),
{
    broadcast use vstd::string::group_string_axioms;

    reveal_strlit("M");
    reveal_strlit("D");
    reveal_strlit("MD");
    reveal_strlit("A");
    reveal_strlit("AM");
    reveal_strlit("AD");
    reveal_strlit("AMD");
    reveal_strlit("JGT");
    reveal_strlit("JEQ");
    reveal_strlit("JGE");
    reveal_strlit("JLT");
    reveal_strlit("JNE");
    reveal_strlit("JLE");
    reveal_strlit("JMP");
    assert(is_ascii("M") && is_ascii("D") && is_ascii("MD") && is_ascii("A") && is_ascii("AM")
        && is_ascii("AD") && is_ascii("AMD"));
    assert(is_ascii("JGT") && is_ascii("JEQ") && is_ascii("JGE") && is_ascii("JLT") && is_ascii(
        "JNE",
    ) && is_ascii("JLE") && is_ascii("JMP"));
}

/// One step adds no token but one that lies within its line.
pub proof fn lemma_scan_step_fits(lines: Seq<Seq<u8>>, st: ScanState)
    requires
        within(lines, st),
        !at_end(lines, st),
        lines[st.line].len() <= usize::MAX,
        lines.len() <= usize::MAX,
        forall|i: int| 0 <= i < st.tokens.len() ==> fits(lines, #[trigger] st.tokens[i]),
    ensures
        forall|i: int|
            0 <= i < scan_step(lines, st).tokens.len() ==> fits(
                lines,
                #[trigger] scan_step(lines, st).tokens[i],
            ),
{
    let text = lines[st.line];
    let next = scan_step(lines, st);
    if st.curr < text.len() {
        lemma_ends(text, st.curr + 1);
        if is_alpha(text[st.curr]) {
            let end = name_end(text, st.curr + 1);
            if keyword(text.subrange(st.curr, end)) is Some {
                lemma_keyword_len(text.subrange(st.curr, end));
            }
        }
    }
    assert forall|i: int| 0 <= i < next.tokens.len() implies fits(lines, #[trigger] next.tokens[i]) by {
        if i < st.tokens.len() {
            assert(next.tokens[i] == st.tokens[i]);
        }
    }
}

/// Every token that the scanner reads lies within the line that it stands
/// on, so that the name of an identifier is the word that was read. This is
/// stated of a source whose lines are no more and no longer than a machine
/// can count.
pub proof fn lemma_scan_all_fits(lines: Seq<Seq<u8>>, st: ScanState)
    requires
        within(lines, st),
        lines.len() <= usize::MAX,
        forall|l: int| 0 <= l < lines.len() ==> (#[trigger] lines[l]).len() <= usize::MAX,
        forall|i: int| 0 <= i < st.tokens.len() ==> fits(lines, #[trigger] st.tokens[i]),
    ensures
        forall|i: int|
            0 <= i < scan_all(lines, st).tokens.len() ==> fits(
                lines,
                #[trigger] scan_all(lines, st).tokens[i],
            ),
    decreases lines.len() - st.line, line_text(lines, st.line).len() - st.curr,
{
    if at_end(lines, st) {
        let last = scan_all(lines, st);
        assert forall|i: int| 0 <= i < last.tokens.len() implies fits(lines, #[trigger] last.tokens[i]) by {
            if i < st.tokens.len() {
                assert(last.tokens[i] == st.tokens[i]);
            }
        }
    } else {
        lemma_step_advances(lines, st);
        lemma_scan_step_fits(lines, st);
        lemma_scan_all_fits(lines, scan_step(lines, st));
        assert(scan_all(lines, st) == scan_all(lines, scan_step(lines, st)));
    }
}

/// The tokens of a source that is read to its end are closed with `Eof`.
pub proof fn lemma_scan_all_terminated(lines: Seq<Seq<u8>>, st: ScanState)
    ensures
        terminated(scan_all(lines, st).tokens),
    decreases lines.len() - st.line, line_text(lines, st.line).len() - st.curr,
{
    if at_end(lines, st) || !within(lines, st) {
    } else {
        lemma_step_advances(lines, st);
        lemma_scan_all_terminated(lines, scan_step(lines, st));
    }
}

/// The token kind of a byte that is a token by itself.
fn symbol_kind(byte: u8) -> (kind: Option<TokenKind>)
    ensures
        kind == symbol(byte),
{
    if byte == '@' as u8 {
        Some(TokenKind::At)
    } else if byte == '=' as u8 {
        Some(TokenKind::Equals)
    } else if byte == '+' as u8 {
        Some(TokenKind::Plus)
    } else if byte == '-' as u8 {
        Some(TokenKind::Minus)
    } else if byte == '|' as u8 {
        Some(TokenKind::Or)
    } else if byte == '&' as u8 {
        Some(TokenKind::And)
    } else if byte == '!' as u8 {
        Some(TokenKind::Not)
    } else if byte == '(' as u8 {
        Some(TokenKind::LeftParen)
    } else if byte == ')' as u8 {
        Some(TokenKind::RightParen)
    } else if byte == ';' as u8 {
        Some(TokenKind::Semicolon)
    } else {
        None
    }
}

/// The keyword that `word` spells, if it spells one.
fn keyword_kind(word: &[u8]) -> (kind: Option<TokenKind>)
    ensures
        kind == keyword(word@),
{
    if same_bytes(word, "M".as_bytes()) {
        Some(TokenKind::M)
    } else if same_bytes(word, "D".as_bytes()) {
        Some(TokenKind::D)
    } else if same_bytes(word, "MD".as_bytes()) {
        Some(TokenKind::Md)
    } else if same_bytes(word, "A".as_bytes()) {
        Some(TokenKind::A)
    } else if same_bytes(word, "AM".as_bytes()) {
        Some(TokenKind::Am)
    } else if same_bytes(word, "AD".as_bytes()) {
        Some(TokenKind::Ad)
    } else if same_bytes(word, "AMD".as_bytes()) {
        Some(TokenKind::Amd)
    } else if same_bytes(word, "JGT".as_bytes()) {
        Some(TokenKind::Jgt)
    } else if same_bytes(word, "JEQ".as_bytes()) {
        Some(TokenKind::Jeq)
    } else if same_bytes(word, "JGE".as_bytes()) {
        Some(TokenKind::Jge)
    } else if same_bytes(word, "JLT".as_bytes()) {
        Some(TokenKind::Jlt)
    } else if same_bytes(word, "JNE".as_bytes()) {
        Some(TokenKind::Jne)
    } else if same_bytes(word, "JLE".as_bytes()) {
        Some(TokenKind::Jle)
    } else if same_bytes(word, "JMP".as_bytes()) {
        Some(TokenKind::Jmp)
    } else {
        None
    }
}

fn digit_byte(byte: u8) -> (r: bool)
    ensures
        r == is_digit(byte),
{
    '0' as u8 <= byte && byte <= '9' as u8
}

fn alpha_byte(byte: u8) -> (r: bool)
    ensures
        r == is_alpha(byte),
{
    ('a' as u8 <= byte && byte <= 'z' as u8) || ('A' as u8 <= byte && byte <= 'Z' as u8)
}

/// The value of the decimal literal `literal` as a number token holds it, and
/// whether it is beyond the largest address.
fn read_literal(literal: &[u8]) -> (r: (u16, bool))
    ensures
        r.0 == token_value(literal_value(literal@)),
        r.1 == (literal_value(literal@) > MAX_ADDRESS),
{
    let mut value: u32 = 0;
    let mut i: usize = 0;
    while i < literal.len()
        invariant
            i <= literal@.len(),
            value <= 65536,
            value == if literal_value(literal@.take(i as int)) > 65536 {
                65536
            } else {
                literal_value(literal@.take(i as int))
            },
        decreases literal@.len() - i,
    {
        let byte = *slice_index_get(literal, i);
        proof {
            assert(literal@.take(i + 1).drop_last() =~= literal@.take(i as int));
            assert(literal@.take(i + 1).last() == byte);
        }
        if digit_byte(byte) {
            value = value * 10 + (byte - '0' as u8) as u32;
            if value > 65536 {
                value = 65536;
            }
        }
        i = i + 1;
    }
    assert(literal@.take(i as int) =~= literal@);
    if value > 65535 {
        (u16::MAX, true)
    } else {
        (value as u16, value > MAX_ADDRESS as u32)
    }
}

/// The scanner: the source, the place it stands at, and what it has gathered.
pub struct Scanner {
    source: Vec<Vec<u8>>,
    tokens: Vec<Token>,
    curr: usize,
    start: usize,
    line: usize,
    errors: Vec<Diagnostic>,
}

impl View for Scanner {
    type V = ScanState;

    closed spec fn view(&self) -> ScanState {
        ScanState {
            line: self.line as int,
            curr: self.curr as int,
            tokens: self.tokens@,
            errors: self.errors@,
        }
    }
}

impl Scanner {
    /// The lines of the source.
    pub closed spec fn lines(&self) -> Seq<Seq<u8>> {
        lines_view(&self.source)
    }

    /// The scanner stands within its source, between two tokens.
    pub closed spec fn wf(&self) -> bool {
        &&& within(self.lines(), self@)
        &&& self.start <= self.curr
        &&& at_end(self.lines(), self@) ==> self.curr == 0
    }

    /// The scanner stands within its source, a token being read from
    /// `self.start` on.
    spec fn reading(&self) -> bool {
        &&& self.line < self.source@.len()
        &&& self.start <= self.curr <= self.source@[self.line as int]@.len() <= usize::MAX
    }

    /// The line that the scanner stands in.
    spec fn text(&self) -> Seq<u8> {
        self.source@[self.line as int]@
    }

    /// A scanner at the start of `source`, which it cuts into lines.
    pub fn with_source(source: String) -> (scanner: Scanner)
        ensures
            scanner.wf(),
            scanner.lines() == split_lines(vstd::utf8::encode_utf8(source@)),
            scanner@ == ScanState::initial(),
    {
        let source = lines_of(source.as_str().as_bytes());
        Scanner::with_lines(source)
    }

    /// A scanner at the start of a source that is given line by line.
    pub fn with_lines(source: Vec<Vec<u8>>) -> (scanner: Scanner)
        ensures
            scanner.wf(),
            scanner.lines() == lines_view(&source),
            scanner@ == ScanState::initial(),
    {
        Scanner { source, tokens: Vec::new(), curr: 0, line: 0, start: 0, errors: Vec::new() }
    }

    /// The lines of the source.
    pub fn source(&self) -> (source: &Vec<Vec<u8>>)
        ensures
            lines_view(source) == self.lines(),
    {
        &self.source
    }

    /// The tokens read so far.
    pub fn tokens(&self) -> (tokens: &Vec<Token>)
        ensures
            tokens@ == self@.tokens,
    {
        &self.tokens
    }

    /// The diagnostics raised so far.
    pub fn errors(&self) -> (errors: &Vec<Diagnostic>)
        ensures
            errors@ == self@.errors,
    {
        &self.errors
    }

    fn advance_line(&mut self)
        requires
            old(self).line < old(self).source@.len(),
        ensures
            *final(self) == (Scanner {
                line: (old(self).line + 1) as usize,
                start: 0,
                curr: 0,
                ..*old(self)
            }),
            final(self).line == old(self).line + 1,
    {
        let count = self.source.len();
        assert(self.line < count);
        self.line += 1;
        self.start = 0;
        self.curr = 0;
    }

    fn is_at_end(&self) -> (r: bool)
        ensures
            r == (self.line >= self.source@.len()),
            r == at_end(self.lines(), self@),
    {
        self.line >= self.source.len()
    }

    fn advance(&mut self) -> (byte: u8)
        requires
            old(self).reading(),
            old(self).curr < old(self).text().len(),
        ensures
            *final(self) == (Scanner { curr: (old(self).curr + 1) as usize, ..*old(self) }),
            final(self).curr == old(self).curr + 1,
            byte == old(self).text()[old(self).curr as int],
    {
        let byte = self.peek();
        self.curr += 1;
        byte
    }

    fn add_token(&mut self, token_type: TokenKind)
        ensures
            *final(self) == (Scanner { tokens: final(self).tokens, ..*old(self) }),
            final(self).tokens@ == old(self).tokens@.push(
                Token { kind: token_type, line: old(self).line, start: old(self).start },
            ),
    {
        let token = Token::new(token_type, self.line, self.start);
        self.tokens.push(token);
    }

    fn is_at_line_end(&self) -> (r: bool)
        requires
            self.line < self.source@.len(),
        ensures
            r == (self.curr >= self.text().len()),
            self.text().len() <= usize::MAX,
    {
        self.curr >= self.source[self.line].len()
    }

    /// The byte that the scanner stands at: a line feed at the end of a
    /// line, a zero byte at the end of the source.
    fn peek(&self) -> (byte: u8)
        ensures
            byte == if self.line >= self.source@.len() {
                0u8
            } else if self.curr >= self.text().len() {
                '\n' as u8
            } else {
                self.text()[self.curr as int]
            },
    {
        if self.is_at_end() {
            0
        } else if self.is_at_line_end() {
            '\n' as u8
        } else {
            self.source[self.line][self.curr]
        }
    }

    fn match_next(&mut self, expected: u8) -> (matched: bool)
        requires
            old(self).reading(),
            expected != '\n' as u8,
        ensures
            matched == (old(self).curr < old(self).text().len() && old(self).text()[old(
                self,
            ).curr as int] == expected),
            *final(self) == (Scanner {
                curr: if matched {
                    (old(self).curr + 1) as usize
                } else {
                    old(self).curr
                },
                ..*old(self)
            }),
    {
        if self.is_at_end() {
            return false;
        }
        if self.peek() != expected {
            return false;
        }
        self.advance();
        true
    }

    fn number(&mut self)
        requires
            old(self).reading(),
            old(self).curr == old(self).start + 1,
        ensures
            final(self).reading(),
            final(self).source == old(self).source,
            final(self).line == old(self).line,
            final(self)@ == (ScanState { curr: old(self).start as int, ..old(self)@ }).number(
                old(self).text(),
            ),
    {
        proof {
            lemma_ends(self.text(), self.curr as int);
        }
        while !self.is_at_line_end() && (digit_byte(self.peek()) || self.peek() == '_' as u8)
            invariant
                self.reading(),
                old(self).curr <= self.curr,
                *self == (Scanner { curr: self.curr, ..*old(self) }),
                number_end(self.text(), self.curr as int) == number_end(
                    old(self).text(),
                    old(self).curr as int,
                ),
            decreases self.text().len() - self.curr,
        {
            self.advance();
        }
        let (value, beyond) = read_literal(self.curr_lexeme());
        if beyond {
            self.raise_error(Message::NumberOutOfRange);
        }
        self.add_token(TokenKind::Number(value, self.curr - self.start));
    }

    fn curr_lexeme(&self) -> (lexeme: &[u8])
        requires
            self.reading(),
        ensures
            lexeme@ == self.text().subrange(self.start as int, self.curr as int),
    {
        slice_subrange(self.source[self.line].as_slice(), self.start, self.curr)
    }

    fn identifier(&mut self)
        requires
            old(self).reading(),
            old(self).curr == old(self).start + 1,
        ensures
            final(self).reading(),
            final(self).source == old(self).source,
            final(self).line == old(self).line,
            final(self)@ == (ScanState { curr: old(self).start as int, ..old(self)@ }).word(
                old(self).text(),
            ),
    {
        proof {
            lemma_ends(self.text(), self.curr as int);
        }
        while !self.is_at_line_end() && Scanner::name_byte(self.peek())
            invariant
                self.reading(),
                old(self).curr <= self.curr,
                *self == (Scanner { curr: self.curr, ..*old(self) }),
                name_end(self.text(), self.curr as int) == name_end(
                    old(self).text(),
                    old(self).curr as int,
                ),
            decreases self.text().len() - self.curr,
        {
            self.advance();
        }
        let token_type = match keyword_kind(self.curr_lexeme()) {
            Some(kind) => kind,
            None => TokenKind::Identifier(self.curr - self.start),
        };
        self.add_token(token_type);
    }

    fn name_byte(byte: u8) -> (r: bool)
        ensures
            r == is_name_byte(byte),
    {
        alpha_byte(byte) || digit_byte(byte) || byte == '_' as u8 || byte == '.' as u8 || byte
            == '$' as u8
    }

    fn skip_comment(&mut self)
        requires
            old(self).reading(),
        ensures
            *final(self) == (Scanner {
                curr: old(self).text().len() as usize,
                ..*old(self)
            }),
    {
        while !self.is_at_line_end() && !self.is_at_end()
            invariant
                self.reading(),
                *self == (Scanner { curr: self.curr, ..*old(self) }),
            decreases self.text().len() - self.curr,
        {
            self.advance();
        }
    }

    fn raise_error(&mut self, message: Message)
        requires
            old(self).start <= old(self).curr,
        ensures
            *final(self) == (Scanner { errors: final(self).errors, ..*old(self) }),
            final(self).errors@ == old(self).errors@.push(
                Diagnostic {
                    message,
                    line: old(self).line,
                    start: old(self).start,
                    len: (old(self).curr - old(self).start) as usize,
                },
            ),
    {
        self.errors.push(
            Diagnostic {
                message,
                line: self.line,
                start: self.start,
                len: self.curr - self.start,
            },
        );
    }

    /// Reads the end of a line.
    fn line_end(&mut self)
        requires
            old(self).line < old(self).source@.len(),
        ensures
            final(self).source == old(self).source,
            final(self).start == 0,
            final(self)@ == (ScanState { curr: old(self).start as int, ..old(self)@ }).end_line(),
    {
        let n = self.tokens.len();
        if n > 0 && !matches!(self.tokens[n - 1].kind, TokenKind::NewLine) {
            self.add_token(TokenKind::NewLine);
        }
        self.advance_line();
    }

    /// Reads one token, blank, comment or faulty byte.
    pub fn scan_token(&mut self)
        requires
            old(self).wf(),
            !at_end(old(self).lines(), old(self)@),
        ensures
            final(self).wf(),
            final(self).lines() == old(self).lines(),
            final(self)@ == scan_step(old(self).lines(), old(self)@),
    {
        self.start = self.curr;
        if self.is_at_line_end() {
            self.line_end();
            return ;
        }
        let byte = self.advance();
        if byte == '\n' as u8 {
            self.line_end();
            return ;
        }
        proof {
            lemma_ends(self.text(), self.curr as int);
        }
        match symbol_kind(byte) {
            Some(kind) => {
                self.add_token(kind);
            },
            None => {
                if byte == '/' as u8 {
                    if self.match_next('/' as u8) {
                        self.skip_comment();
                    } else {
                        self.raise_error(Message::BareSlash);
                    }
                } else if byte == ' ' as u8 || byte == '\r' as u8 || byte == '\t' as u8 {
                } else if digit_byte(byte) {
                    self.number();
                } else if alpha_byte(byte) {
                    self.identifier();
                } else {
                    self.raise_error(Message::UnexpectedCharacter);
                }
            },
        }
    }
}

impl Scanner {
    /// Reads the source to its end and closes the tokens with `Eof`. The
    /// result says whether the source is free of lexical faults.
    pub fn scan_tokens(&mut self) -> (clean: bool)
        requires
            old(self).wf(),
        ensures
            final(self).wf(),
            final(self).lines() == old(self).lines(),
            final(self)@ == scan_all(old(self).lines(), old(self)@),
            clean == (final(self)@.errors.len() == 0),
    {
        while !self.is_at_end()
            invariant
                self.wf(),
                self.lines() == old(self).lines(),
                scan_all(self.lines(), self@) == scan_all(old(self).lines(), old(self)@),
            decreases
                    self.lines().len() - self.line,
                    line_text(self.lines(), self.line as int).len() - self.curr,
        {
            proof {
                lemma_step_advances(self.lines(), self@);
            }
            self.start = self.curr;
            self.scan_token();
        }
        self.tokens.push(Token::new(TokenKind::Eof, self.line, self.start));
        self.errors.len() == 0
    }

    /// Reads the source to its end and hands the tokens to a parser, or the
    /// diagnostics back if there are any.
    pub fn run(self) -> (scanned: Result<Parser, Vec<Diagnostic>>)
        requires
            self.wf(),
        ensures
            match scanned {
                Ok(parser) => {
                    &&& scan_all(self.lines(), self@).errors.len() == 0
                    &&& parser.wf()
                    &&& parser@ == ParseState::initial()
                    &&& parser.input() == scan_all(self.lines(), self@).tokens
                    &&& parser.lines() == self.lines()
                },
                Err(errors) => errors@.len() > 0 && errors@ == scan_all(self.lines(), self@).errors,
            },
    {
        let mut scanner = self;
        proof {
            lemma_scan_all_terminated(scanner.lines(), scanner@);
        }
        if scanner.scan_tokens() {
            Ok(scanner.into_parser())
        } else {
            Err(scanner.errors)
        }
    }

    fn into_parser(self) -> (parser: Parser)
        requires
            terminated(self.tokens@),
        ensures
            parser.wf(),
            parser@ == ParseState::initial(),
            parser.input() == self.tokens@,
            parser.lines() == self.lines(),
    {
        Parser::new(self.tokens, self.source)
    }

    /// Whether a lexical fault was found so far.
    pub fn had_errors(&self) -> (r: bool)
        ensures
            r == (self@.errors.len() > 0),
    {
        self.errors.len() > 0
    }
}

} // verus!
