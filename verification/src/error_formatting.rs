//! Diagnostics: what went wrong and where, and the text shown for it, which
//! quotes the source line and marks the span with carets.

use crate::scanner::token::Token;
use crate::text::{decimal, push_all, push_decimal, push_repeat, repeat};
use vstd::prelude::*;
use vstd::slice::slice_subrange;
use vstd::string::*;

verus! {

/// The source as a sequence of lines, each a byte string.
pub open spec fn lines_view(source: &Vec<Vec<u8>>) -> Seq<Seq<u8>> {
    Seq::new(source@.len(), |i: int| source@[i]@)
}

/// The text of line `line`; empty where the source has no such line.
pub open spec fn line_text(lines: Seq<Seq<u8>>, line: int) -> Seq<u8> {
    if 0 <= line < lines.len() {
        lines[line]
    } else {
        Seq::empty()
    }
}

/// The `len` bytes of line `line` from offset `start` on; empty where the span
/// does not lie within the line.
pub open spec fn lexeme(lines: Seq<Seq<u8>>, line: int, start: int, len: int) -> Seq<u8> {
    if 0 <= start && 0 <= len && start + len <= line_text(lines, line).len() {
        line_text(lines, line).subrange(start, start + len)
    } else {
        Seq::empty()
    }
}

/// The span of the source that `token` covers.
pub open spec fn token_lexeme(lines: Seq<Seq<u8>>, token: Token) -> Seq<u8> {
    lexeme(lines, token.line as int, token.start as int, token.len() as int)
}

/// A copy of the span of the source that `token` covers.
pub fn lexeme_of(source: &Vec<Vec<u8>>, token: &Token) -> (name: Vec<u8>)
    ensures
        name@ == token_lexeme(lines_view(source), *token),
{
    let mut name: Vec<u8> = Vec::new();
    let len = token.len();
    if token.line < source.len() {
        let text = source[token.line].as_slice();
        if len <= text.len() && token.start <= text.len() - len {
            push_all(&mut name, slice_subrange(text, token.start, token.start + len));
        }
    }
    name
}

/// The three classes of diagnostics.
#[derive(Copy, Clone, PartialEq, Eq, Debug, Structural)]
pub enum ErrorKind {
    /// The text cannot be cut into tokens.
    Lexical,
    /// The tokens do not make a statement.
    Syntax,
    /// The statement is well made but breaks a rule on names or addresses.
    Semantic,
}

/// What a diagnostic says.
#[derive(Copy, Clone, PartialEq, Eq, Debug, Structural)]
pub enum Message {
    UnexpectedCharacter,
    BareSlash,
    NumberOutOfRange,
    ExpectedLabelName,
    ExpectedRightParen,
    ExpectedAddress,
    ExpectedDestination,
    ExpectedComputation,
    ExpectedJump,
    ExpectedLineEnd,
    /// A label is declared under a predefined name; the token is the name.
    PredefinedName(Token),
    /// A label is declared a second time; the token is the name.
    DuplicateLabel(Token),
    AddressOutOfRange,
}

impl Message {
    /// The class of the diagnostic.
    pub open spec fn spec_kind(&self) -> ErrorKind {
        match self {
            Message::UnexpectedCharacter | Message::BareSlash | Message::NumberOutOfRange =>
                ErrorKind::Lexical,
            Message::PredefinedName(_) | Message::DuplicateLabel(_) | Message::AddressOutOfRange =>
                ErrorKind::Semantic,
            _ => ErrorKind::Syntax,
        }
    }

    #[verifier::when_used_as_spec(spec_kind)]
    pub fn kind(&self) -> (kind: ErrorKind)
        ensures
            kind == self.spec_kind(),
    {
        match self {
            Message::UnexpectedCharacter | Message::BareSlash | Message::NumberOutOfRange =>
                ErrorKind::Lexical,
            Message::PredefinedName(_) | Message::DuplicateLabel(_) | Message::AddressOutOfRange =>
                ErrorKind::Semantic,
            _ => ErrorKind::Syntax,
        }
    }

    /// The sentence of the message. A name that it quotes is read from the
    /// source `lines`.
    pub open spec fn sentence(&self, lines: Seq<Seq<u8>>) -> Seq<u8> {
        match self {
            Message::UnexpectedCharacter => "unexpected character".spec_bytes(),
            Message::BareSlash => "unexpected character, did you mean '//'?".spec_bytes(),
            Message::NumberOutOfRange => "number out of range, max allowed value is 32767"
                .spec_bytes(),
            Message::ExpectedLabelName => "expected label name after '('".spec_bytes(),
            Message::ExpectedRightParen => "expected ')' after label name".spec_bytes(),
            Message::ExpectedAddress => "expected identifier or number after '@'".spec_bytes(),
            Message::ExpectedDestination => "expected destination after '='".spec_bytes(),
            Message::ExpectedComputation => "expected proper computation in c-instruction"
                .spec_bytes(),
            Message::ExpectedJump => "expected jump keyword after ';'".spec_bytes(),
            Message::ExpectedLineEnd =>
                "unexpected token after statement, use line feed to separate statements"
                .spec_bytes(),
            Message::PredefinedName(name) => "identifier ".spec_bytes() + token_lexeme(
                lines,
                *name,
            ) + " is predefined and cannot be redefined".spec_bytes(),
            Message::DuplicateLabel(name) => "cannot declare label ".spec_bytes() + token_lexeme(
                lines,
                *name,
            ) + " more than once".spec_bytes(),
            Message::AddressOutOfRange => "address out of range, max allowed value is 32767"
                .spec_bytes(),
        }
    }

    /// The sentence of the message, as bytes.
    pub fn text(&self, source: &Vec<Vec<u8>>) -> (text: Vec<u8>)
        ensures
            text@ == self.sentence(lines_view(source)),
    {
        let mut text: Vec<u8> = Vec::new();
        match self {
            Message::UnexpectedCharacter => push_all(&mut text, "unexpected character".as_bytes()),
            Message::BareSlash => push_all(
                &mut text,
                "unexpected character, did you mean '//'?".as_bytes(),
            ),
            Message::NumberOutOfRange => push_all(
                &mut text,
                "number out of range, max allowed value is 32767".as_bytes(),
            ),
            Message::ExpectedLabelName => push_all(
                &mut text,
                "expected label name after '('".as_bytes(),
            ),
            Message::ExpectedRightParen => push_all(
                &mut text,
                "expected ')' after label name".as_bytes(),
            ),
            Message::ExpectedAddress => push_all(
                &mut text,
                "expected identifier or number after '@'".as_bytes(),
            ),
            Message::ExpectedDestination => push_all(
                &mut text,
                "expected destination after '='".as_bytes(),
            ),
            Message::ExpectedComputation => push_all(
                &mut text,
                "expected proper computation in c-instruction".as_bytes(),
            ),
            Message::ExpectedJump => push_all(
                &mut text,
                "expected jump keyword after ';'".as_bytes(),
            ),
            Message::ExpectedLineEnd => push_all(
                &mut text,
                "unexpected token after statement, use line feed to separate statements".as_bytes(),
            ),
            Message::PredefinedName(name) => {
                push_all(&mut text, "identifier ".as_bytes());
                let name = lexeme_of(source, name);
                push_all(&mut text, name.as_slice());
                push_all(&mut text, " is predefined and cannot be redefined".as_bytes());
            },
            Message::DuplicateLabel(name) => {
                push_all(&mut text, "cannot declare label ".as_bytes());
                let name = lexeme_of(source, name);
                push_all(&mut text, name.as_slice());
                push_all(&mut text, " more than once".as_bytes());
            },
            Message::AddressOutOfRange => push_all(
                &mut text,
                "address out of range, max allowed value is 32767".as_bytes(),
            ),
        }
        assert(text@ =~= self.sentence(lines_view(source)));
        text
    }
}

/// One diagnostic: the message, and the span of the source that it is about.
/// `line` and `start` count from zero, `start` and `len` in bytes.
#[derive(Copy, Clone, PartialEq, Eq, Debug, Structural)]
pub struct Diagnostic {
    pub message: Message,
    pub line: usize,
    pub start: usize,
    pub len: usize,
}

/// The quoted line and the marker under it:
/// the line number counted from one, ` | ` and the line; then, on a second
/// line, blanks up to the span, one caret for each byte of it, and `--here`.
pub open spec fn excerpt(content: Seq<u8>, start: nat, len: nat, line_number: nat) -> Seq<u8> {
    decimal(line_number) + seq![' ' as u8, '|' as u8, ' ' as u8] + content + seq!['\n' as u8]
        + repeat(' ' as u8, decimal(line_number).len() + 3 + start) + repeat('^' as u8, len)
        + "--here".spec_bytes()
}

/// The whole text of a diagnostic: the excerpt of line `line`, counted from
/// zero, and under it the message.
pub open spec fn rendered(
    message: Seq<u8>,
    lines: Seq<Seq<u8>>,
    start: nat,
    len: nat,
    line: nat,
) -> Seq<u8> {
    excerpt(line_text(lines, line as int), start, len, line + 1) + "\n error: ".spec_bytes()
        + message
}

impl Diagnostic {
    /// A diagnostic about the span of `token`.
    pub open spec fn at(message: Message, token: Token) -> Diagnostic {
        Diagnostic { message, line: token.line, start: token.start, len: token.len() }
    }

    /// The class of the diagnostic.
    pub open spec fn spec_kind(&self) -> ErrorKind {
        self.message.kind()
    }

    #[verifier::when_used_as_spec(spec_kind)]
    pub fn kind(&self) -> (kind: ErrorKind)
        ensures
            kind == self.spec_kind(),
    {
        self.message.kind()
    }

    /// The text of the diagnostic against the source `lines`.
    pub open spec fn text(&self, lines: Seq<Seq<u8>>) -> Seq<u8> {
        rendered(
            self.message.sentence(lines),
            lines,
            self.start as nat,
            self.len as nat,
            self.line as nat,
        )
    }

    /// Writes the diagnostic out against the source it was raised on.
    pub fn render(&self, source: &Vec<Vec<u8>>) -> (text: Vec<u8>)
        ensures
            text@ == self.text(lines_view(source)),
    {
        let message = self.message.text(source);
        ErrorFormatter::gen_err(message.as_slice(), source, self.start, self.len, self.line)
    }
}

pub struct ErrorFormatter;

impl ErrorFormatter {
    /// The text of a diagnostic with the sentence `message` about `len` bytes
    /// from offset `start` of line `line`, counted from zero.
    pub fn gen_err(
        message: &[u8],
        source: &Vec<Vec<u8>>,
        start: usize,
        len: usize,
        line: usize,
    ) -> (text: Vec<u8>)
        ensures
            text@ == rendered(message@, lines_view(source), start as nat, len as nat, line as nat),
    {
        let number: u128 = line as u128 + 1;
        let mut text = if line < source.len() {
            ErrorFormatter::highlight(source[line].as_slice(), start, len, number)
        } else {
            let nothing: Vec<u8> = Vec::new();
            ErrorFormatter::highlight(nothing.as_slice(), start, len, number)
        };
        push_all(&mut text, "\n error: ".as_bytes());
        push_all(&mut text, message);
        text
    }

    /// The text of a diagnostic with the sentence `msg` about the span of
    /// `token`.
    pub fn err_from_token(msg: &[u8], source: &Vec<Vec<u8>>, token: &Token) -> (text: Vec<u8>)
        ensures
            text@ == rendered(
                msg@,
                lines_view(source),
                token.start as nat,
                token.len() as nat,
                token.line as nat,
            ),
    {
        ErrorFormatter::gen_err(msg, source, token.start, token.len(), token.line)
    }

    /// The quoted line `line_content`, numbered `line`, and the marker under
    /// it for `len` bytes from offset `start`.
    pub fn highlight(line_content: &[u8], start: usize, len: usize, line: u128) -> (text: Vec<u8>)
        ensures
            text@ == excerpt(line_content@, start as nat, len as nat, line as nat),
    {
        let mut text: Vec<u8> = Vec::new();
        push_decimal(&mut text, line);
        let digits = text.len();
        text.push(' ' as u8);
        text.push('|' as u8);
        text.push(' ' as u8);
        push_all(&mut text, line_content);
        text.push('\n' as u8);
        push_repeat(&mut text, ' ' as u8, digits);
        push_repeat(&mut text, ' ' as u8, 3);
        push_repeat(&mut text, ' ' as u8, start);
        push_repeat(&mut text, '^' as u8, len);
        push_all(&mut text, "--here".as_bytes());
        assert(repeat(' ' as u8, digits as nat) + repeat(' ' as u8, 3) + repeat(
            ' ' as u8,
            start as nat,
        ) =~= repeat(' ' as u8, digits as nat + 3 + start as nat));
        assert(text@ =~= excerpt(line_content@, start as nat, len as nat, line as nat));
        text
    }
}

} // verus!
