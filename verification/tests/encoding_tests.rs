use hack_asm::ast::{AInstruction, CInstruction, Comp, HackInstruction};
use hack_asm::error_formatting::{Diagnostic, ErrorFormatter, ErrorKind, Message};
use hack_asm::evaluator::Evaluator;
use hack_asm::scanner::token::{Token, TokenKind};
use hack_asm::symbols::{is_predefined_ident, SymbolTable};
use hack_asm::text::{push_all, push_binary, push_decimal, push_repeat, same_bytes};

fn one() -> TokenKind {
    TokenKind::Number(1, 1)
}

fn word(ins: HackInstruction) -> String {
    String::from_utf8(ins.to_binary()).unwrap()
}

fn compute(dest: Option<TokenKind>, comp: Comp, jump: Option<TokenKind>) -> HackInstruction {
    HackInstruction::CInstruction(CInstruction::new(
        dest.map(|kind| Token::new(kind, 0, 0)),
        comp,
        jump.map(|kind| Token::new(kind, 0, 0)),
    ))
}

#[test]
fn subtraction_needs_the_third_token() {
    assert_eq!(
        Comp::from_tokens(&[TokenKind::D, TokenKind::Minus, TokenKind::A]),
        Some(Comp::DMinusA)
    );
    assert_eq!(Comp::from_tokens(&[TokenKind::D, TokenKind::Minus, one()]), Some(Comp::DMinusOne));
    assert_eq!(
        Comp::from_tokens(&[TokenKind::D, TokenKind::Minus, TokenKind::M]),
        Some(Comp::DMinusM)
    );
    assert_eq!(
        Comp::from_tokens(&[TokenKind::A, TokenKind::Minus, TokenKind::D]),
        Some(Comp::AMinusD)
    );
    assert_eq!(
        Comp::from_tokens(&[TokenKind::M, TokenKind::Minus, TokenKind::D]),
        Some(Comp::MMinusD)
    );
}

#[test]
fn shorter_pattern_only_where_no_longer_one_matches() {
    assert_eq!(Comp::from_tokens(&[TokenKind::D, TokenKind::Minus, TokenKind::D]), Some(Comp::D));
    assert_eq!(Comp::from_tokens(&[TokenKind::D, TokenKind::Minus]), Some(Comp::D));
    assert_eq!(Comp::from_tokens(&[TokenKind::D, TokenKind::Semicolon, TokenKind::Jmp]), Some(Comp::D));
    assert_eq!(
        Comp::from_tokens(&[TokenKind::Minus, TokenKind::D, TokenKind::Plus]),
        Some(Comp::MinusD)
    );
    assert_eq!(Comp::from_tokens(&[TokenKind::Minus, one(), TokenKind::NewLine]), Some(Comp::MinusOne));
    assert_eq!(Comp::from_tokens(&[TokenKind::Minus]), None);
    assert_eq!(Comp::from_tokens(&[]), None);
    assert_eq!(Comp::from_tokens(&[TokenKind::Number(2, 1)]), None);
    assert_eq!(Comp::from_tokens(&[TokenKind::A, TokenKind::Plus, TokenKind::D]), Some(Comp::A));
    assert_eq!(Comp::from_tokens(&[TokenKind::Equals, TokenKind::D]), None);
}

#[test]
fn one_is_one_however_it_is_written() {
    assert_eq!(
        Comp::from_tokens(&[TokenKind::M, TokenKind::Plus, TokenKind::Number(1, 3)]),
        Some(Comp::MPlusOne)
    );
    assert_eq!(Comp::from_tokens(&[TokenKind::Number(0, 2)]), Some(Comp::Zero));
    assert_eq!(Comp::from_tokens(&[TokenKind::D, TokenKind::Plus, TokenKind::Number(2, 1)]), Some(Comp::D));
}

#[test]
fn every_computation_is_found_from_its_tokens() {
    let table: Vec<(Vec<TokenKind>, Comp, &str)> = vec![
        (vec![TokenKind::Number(0, 1)], Comp::Zero, "0101010"),
        (vec![one()], Comp::One, "0111111"),
        (vec![TokenKind::Minus, one()], Comp::MinusOne, "0111010"),
        (vec![TokenKind::D], Comp::D, "0001100"),
        (vec![TokenKind::A], Comp::A, "0110000"),
        (vec![TokenKind::Not, TokenKind::D], Comp::NotD, "0001101"),
        (vec![TokenKind::Not, TokenKind::A], Comp::NotA, "0110001"),
        (vec![TokenKind::Minus, TokenKind::D], Comp::MinusD, "0001111"),
        (vec![TokenKind::Minus, TokenKind::A], Comp::MinusA, "0110011"),
        (vec![TokenKind::D, TokenKind::Plus, one()], Comp::DPlusOne, "0011111"),
        (vec![TokenKind::A, TokenKind::Plus, one()], Comp::APlusOne, "0110111"),
        (vec![TokenKind::D, TokenKind::Minus, one()], Comp::DMinusOne, "0001110"),
        (vec![TokenKind::A, TokenKind::Minus, one()], Comp::AMinusOne, "0110010"),
        (vec![TokenKind::D, TokenKind::Plus, TokenKind::A], Comp::DPlusA, "0000010"),
        (vec![TokenKind::D, TokenKind::Minus, TokenKind::A], Comp::DMinusA, "0010011"),
        (vec![TokenKind::A, TokenKind::Minus, TokenKind::D], Comp::AMinusD, "0000111"),
        (vec![TokenKind::D, TokenKind::And, TokenKind::A], Comp::DAndA, "0000000"),
        (vec![TokenKind::D, TokenKind::Or, TokenKind::A], Comp::DOrA, "0010101"),
        (vec![TokenKind::M], Comp::M, "1110000"),
        (vec![TokenKind::Not, TokenKind::M], Comp::NotM, "1110001"),
        (vec![TokenKind::Minus, TokenKind::M], Comp::MinusM, "1110011"),
        (vec![TokenKind::M, TokenKind::Plus, one()], Comp::MPlusOne, "1110111"),
        (vec![TokenKind::M, TokenKind::Minus, one()], Comp::MMinusOne, "1110010"),
        (vec![TokenKind::D, TokenKind::Plus, TokenKind::M], Comp::DPlusM, "1000010"),
        (vec![TokenKind::D, TokenKind::Minus, TokenKind::M], Comp::DMinusM, "1010011"),
        (vec![TokenKind::M, TokenKind::Minus, TokenKind::D], Comp::MMinusD, "1000111"),
        (vec![TokenKind::D, TokenKind::And, TokenKind::M], Comp::DAndM, "1000000"),
        (vec![TokenKind::D, TokenKind::Or, TokenKind::M], Comp::DOrM, "1010101"),
    ];
    assert_eq!(table.len(), 28);
    for (tokens, comp, bits) in table {
        assert_eq!(Comp::from_tokens(&tokens), Some(comp));
        assert_eq!(comp.len(), tokens.len());
        assert_eq!(String::from_utf8(comp.to_binary()).unwrap(), bits);
        let mut longer = tokens.clone();
        longer.push(TokenKind::NewLine);
        longer.push(TokenKind::Eof);
        longer.truncate(3);
        assert_eq!(Comp::from_tokens(&longer), Some(comp));
    }
}

#[test]
fn address_instruction_is_zero_and_fifteen_bits() {
    assert_eq!(word(HackInstruction::AInstruction(AInstruction::Number(0))), "0000000000000000");
    assert_eq!(word(HackInstruction::AInstruction(AInstruction::Number(2))), "0000000000000010");
    assert_eq!(word(HackInstruction::AInstruction(AInstruction::Number(16384))), "0100000000000000");
    assert_eq!(word(HackInstruction::AInstruction(AInstruction::Number(24576))), "0110000000000000");
    assert_eq!(word(HackInstruction::AInstruction(AInstruction::Number(32767))), "0111111111111111");
}

#[test]
fn compute_instruction_is_packed_from_its_fields() {
    assert_eq!(word(compute(None, Comp::Zero, None)), "1110101010000000");
    assert_eq!(word(compute(Some(TokenKind::D), Comp::A, None)), "1110110000010000");
    assert_eq!(word(compute(Some(TokenKind::M), Comp::D, None)), "1110001100001000");
    assert_eq!(word(compute(Some(TokenKind::D), Comp::DPlusA, None)), "1110000010010000");
    assert_eq!(word(compute(None, Comp::Zero, Some(TokenKind::Jmp))), "1110101010000111");
    assert_eq!(word(compute(None, Comp::D, Some(TokenKind::Jgt))), "1110001100000001");
    assert_eq!(
        word(compute(Some(TokenKind::Amd), Comp::DOrM, Some(TokenKind::Jle))),
        "1111010101111110"
    );
    assert_eq!(word(compute(Some(TokenKind::Md), Comp::MMinusOne, None)), "1111110010011000");
}

#[test]
fn listing_has_one_line_for_each_instruction() {
    let program = vec![
        HackInstruction::AInstruction(AInstruction::Number(2)),
        compute(Some(TokenKind::D), Comp::A, None),
        HackInstruction::AInstruction(AInstruction::Number(3)),
    ];
    let count = program.len();
    let output = Evaluator::new(program).evaluate();
    assert_eq!(output.len(), 18 * count);
    assert_eq!(
        String::from_utf8(output).unwrap(),
        "0000000000000010\r\n1110110000010000\r\n0000000000000011\r\n"
    );
    assert_eq!(Evaluator::new(Vec::new()).evaluate(), Vec::<u8>::new());
}

#[test]
fn output_file_takes_the_stem_of_the_source_file() {
    let name = |path: &str| String::from_utf8(Evaluator::get_output_filename(path.as_bytes())).unwrap();
    assert_eq!(name("Add.asm"), "Add.hack");
    assert_eq!(name("tests/data/asm/Max.asm"), "tests/data/asm/Max.hack");
    assert_eq!(name("noext"), "noext.hack");
    assert_eq!(name("a.b/c"), "a.b/c.hack");
    assert_eq!(name("a.b\\c"), "a.b\\c.hack");
    assert_eq!(name("archive.tar.gz"), "archive.tar.hack");
    assert_eq!(name(".asm"), ".hack");
    assert_eq!(name("dir/"), "dir/.hack");
    assert_eq!(name(""), ".hack");
}

#[test]
fn excerpt_quotes_the_line_and_marks_the_span() {
    let source = vec![b"@1".to_vec(), b"   D=Q+1".to_vec()];
    let text = ErrorFormatter::gen_err(b"expected proper computation in c-instruction", &source, 5, 3, 1);
    assert_eq!(
        String::from_utf8(text).unwrap(),
        "2 |    D=Q+1\n         ^^^--here\n error: expected proper computation in c-instruction"
    );
}

#[test]
fn excerpt_padding_grows_with_the_line_number() {
    let mut source: Vec<Vec<u8>> = Vec::new();
    for _ in 0..120 {
        source.push(b"D=A".to_vec());
    }
    source[99] = b"D=#".to_vec();
    let text = ErrorFormatter::gen_err(b"unexpected character", &source, 2, 1, 99);
    assert_eq!(
        String::from_utf8(text).unwrap(),
        "100 | D=#\n        ^--here\n error: unexpected character"
    );
    let first = ErrorFormatter::highlight(b"abc", 0, 0, 7);
    assert_eq!(String::from_utf8(first).unwrap(), "7 | abc\n    --here");
}

#[test]
fn excerpt_of_a_line_that_is_not_there_is_empty() {
    let source = vec![b"D=".to_vec()];
    let text = ErrorFormatter::gen_err(b"m", &source, 1, 2, 1);
    assert_eq!(String::from_utf8(text).unwrap(), "2 | \n     ^^--here\n error: m");
}

#[test]
fn excerpt_from_a_token() {
    let source = vec![b"(LOOP".to_vec()];
    let token = Token::new(TokenKind::NewLine, 0, 5);
    let text = ErrorFormatter::err_from_token(b"expected ')' after label name", &source, &token);
    assert_eq!(
        String::from_utf8(text).unwrap(),
        "1 | (LOOP\n         ^--here\n error: expected ')' after label name"
    );
}

#[test]
fn every_message_has_its_sentence_and_its_class() {
    let source = vec![b"(LOOP)".to_vec()];
    let name = Token::new(TokenKind::Identifier(4), 0, 1);
    let table = vec![
        (Message::UnexpectedCharacter, ErrorKind::Lexical, "unexpected character"),
        (Message::BareSlash, ErrorKind::Lexical, "unexpected character, did you mean '//'?"),
        (Message::NumberOutOfRange, ErrorKind::Lexical, "number out of range, max allowed value is 32767"),
        (Message::ExpectedLabelName, ErrorKind::Syntax, "expected label name after '('"),
        (Message::ExpectedRightParen, ErrorKind::Syntax, "expected ')' after label name"),
        (Message::ExpectedAddress, ErrorKind::Syntax, "expected identifier or number after '@'"),
        (Message::ExpectedDestination, ErrorKind::Syntax, "expected destination after '='"),
        (Message::ExpectedComputation, ErrorKind::Syntax, "expected proper computation in c-instruction"),
        (Message::ExpectedJump, ErrorKind::Syntax, "expected jump keyword after ';'"),
        (
            Message::ExpectedLineEnd,
            ErrorKind::Syntax,
            "unexpected token after statement, use line feed to separate statements",
        ),
        (
            Message::PredefinedName(name),
            ErrorKind::Semantic,
            "identifier LOOP is predefined and cannot be redefined",
        ),
        (Message::DuplicateLabel(name), ErrorKind::Semantic, "cannot declare label LOOP more than once"),
        (Message::AddressOutOfRange, ErrorKind::Semantic, "address out of range, max allowed value is 32767"),
    ];
    for (message, kind, sentence) in table {
        assert_eq!(message.kind(), kind);
        assert_eq!(String::from_utf8(message.text(&source)).unwrap(), sentence);
        let diagnostic = Diagnostic { message, line: 0, start: 5, len: 1 };
        assert_eq!(diagnostic.kind(), kind);
        assert_eq!(
            String::from_utf8(diagnostic.render(&source)).unwrap(),
            format!("1 | (LOOP)\n         ^--here\n error: {}", sentence)
        );
    }
}

#[test]
fn predefined_names() {
    let table = SymbolTable::get_default_ident_map();
    let expected: Vec<(&str, u16)> = vec![
        ("SP", 0),
        ("LCL", 1),
        ("ARG", 2),
        ("THIS", 3),
        ("THAT", 4),
        ("SCREEN", 16384),
        ("KBD", 24576),
    ];
    for (name, address) in expected {
        assert_eq!(table.get(name.as_bytes()), Some(address));
        assert!(is_predefined_ident(name.as_bytes()));
    }
    for register in 0..16u16 {
        let name = format!("R{}", register);
        assert_eq!(table.get(name.as_bytes()), Some(register));
        assert!(is_predefined_ident(name.as_bytes()));
    }
    for name in ["R16", "sp", "S", "SPP", "", "LOOP"] {
        assert_eq!(table.get(name.as_bytes()), None);
        assert!(!table.contains_key(name.as_bytes()));
        assert!(!is_predefined_ident(name.as_bytes()));
    }
}

#[test]
fn later_binding_replaces_earlier_one() {
    let mut table = SymbolTable::new();
    assert_eq!(table.get(b"x"), None);
    table.insert(b"x", 1);
    table.insert(b"y", 2);
    assert_eq!(table.get(b"x"), Some(1));
    table.insert(b"x", 3);
    assert_eq!(table.get(b"x"), Some(3));
    assert_eq!(table.get(b"y"), Some(2));
    assert!(table.contains_key(b"y"));
}

#[test]
fn numbers_in_digits() {
    let mut out: Vec<u8> = Vec::new();
    push_binary(&mut out, 5, 3);
    push_all(&mut out, b" ");
    push_binary(&mut out, 5, 8);
    push_all(&mut out, b" ");
    push_binary(&mut out, 5, 0);
    push_all(&mut out, b" ");
    push_binary(&mut out, 0, 0);
    push_all(&mut out, b" ");
    push_decimal(&mut out, 0);
    push_all(&mut out, b" ");
    push_decimal(&mut out, 32767);
    push_all(&mut out, b" ");
    push_decimal(&mut out, 18446744073709551616);
    push_repeat(&mut out, b'!', 3);
    push_repeat(&mut out, b'?', 0);
    assert_eq!(
        String::from_utf8(out).unwrap(),
        "101 00000101 101 0 0 32767 18446744073709551616!!!"
    );
    assert!(same_bytes(b"abc", b"abc"));
    assert!(!same_bytes(b"abc", b"abd"));
    assert!(!same_bytes(b"abc", b"ab"));
    assert!(same_bytes(b"", b""));
}

#[test]
fn only_resolved_instructions_in_range_can_be_written_out() {
    assert!(HackInstruction::AInstruction(AInstruction::Number(32767)).can_encode());
    assert!(!HackInstruction::AInstruction(AInstruction::Number(32768)).can_encode());
    let name = Token::new(TokenKind::Identifier(1), 0, 1);
    assert!(!HackInstruction::AInstruction(AInstruction::Identifier(name)).can_encode());
    assert!(compute(Some(TokenKind::Amd), Comp::D, Some(TokenKind::Jmp)).can_encode());
    assert!(compute(None, Comp::D, None).can_encode());
    assert!(!compute(Some(TokenKind::Jmp), Comp::D, None).can_encode());
    assert!(!compute(None, Comp::D, Some(TokenKind::D)).can_encode());
}

#[test]
fn tokens_in_words() {
    let source = vec![b"@sum".to_vec(), b"AMD=1".to_vec()];
    let shown = |kind: TokenKind, line: usize, start: usize| {
        String::from_utf8(Token::new(kind, line, start).describe(&source)).unwrap()
    };
    assert_eq!(shown(TokenKind::At, 0, 0), "token<At, start 0>");
    assert_eq!(shown(TokenKind::Identifier(3), 0, 1), "token<Identifier: sum, start 1>");
    assert_eq!(shown(TokenKind::NewLine, 0, 4), "token<NewLine, start 4>");
    assert_eq!(shown(TokenKind::Amd, 1, 0), "token<AMd, start 0>");
    assert_eq!(shown(TokenKind::Equals, 1, 3), "token<Equals, start 3>");
    assert_eq!(shown(TokenKind::Number(1, 1), 1, 4), "token<Number: 1, start 4>");
    assert_eq!(shown(TokenKind::Eof, 2, 0), "token<Eof, start 0>");
    assert_eq!(shown(TokenKind::Jgt, 0, 12), "token<Jgt, start 12>");
    assert_eq!(shown(TokenKind::Md, 0, 0), "token<Md, start 0>");
    assert_eq!(shown(TokenKind::LeftParen, 0, 0), "token<LeftParen, start 0>");
    assert_eq!(shown(TokenKind::Identifier(3), 5, 1), "token<Identifier: , start 1>");
}
