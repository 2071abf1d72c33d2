use hack_asm::error_formatting::{Diagnostic, ErrorKind, Message};
use hack_asm::scanner::token::{Token, TokenKind};
use hack_asm::scanner::{lines_of, Scanner};

fn scan(source: &str) -> (Vec<Token>, Vec<Diagnostic>) {
    let mut scanner = Scanner::with_source(source.to_string());
    let clean = scanner.scan_tokens();
    assert_eq!(clean, scanner.errors().is_empty());
    assert_eq!(scanner.had_errors(), !clean);
    (scanner.tokens().clone(), scanner.errors().clone())
}

fn kinds(source: &str) -> Vec<TokenKind> {
    scan(source).0.iter().map(|token| token.kind).collect()
}

fn text(lines: &[Vec<u8>]) -> Vec<String> {
    lines.iter().map(|line| String::from_utf8(line.clone()).unwrap()).collect()
}

#[test]
fn lines_end_with_line_feed_or_carriage_return_line_feed() {
    assert_eq!(text(&lines_of(b"a\r\nb\n\nc")), vec!["a", "b", "", "c"]);
    assert_eq!(text(&lines_of(b"a\n")), vec!["a"]);
    assert_eq!(text(&lines_of(b"\n")), vec![""]);
    assert_eq!(text(&lines_of(b"")), Vec::<String>::new());
}

#[test]
fn carriage_return_stays_where_no_line_feed_follows() {
    assert_eq!(text(&lines_of(b"a\r")), vec!["a\r"]);
    assert_eq!(text(&lines_of(b"a\rb\n")), vec!["a\rb"]);
    assert_eq!(text(&lines_of(b"a\r\r\n")), vec!["a\r"]);
}

#[test]
fn scanner_keeps_the_lines_of_its_source() {
    let scanner = Scanner::with_source("@1\r\nD=A\n".to_string());
    assert_eq!(text(scanner.source()), vec!["@1", "D=A"]);
    assert!(!scanner.had_errors());
    assert!(scanner.tokens().is_empty());
}

#[test]
fn symbols_are_single_tokens() {
    assert_eq!(
        kinds("()@=+-&|!;"),
        vec![
            TokenKind::LeftParen,
            TokenKind::RightParen,
            TokenKind::At,
            TokenKind::Equals,
            TokenKind::Plus,
            TokenKind::Minus,
            TokenKind::And,
            TokenKind::Or,
            TokenKind::Not,
            TokenKind::Semicolon,
            TokenKind::NewLine,
            TokenKind::Eof,
        ]
    );
}

#[test]
fn keywords_are_matched_exactly() {
    assert_eq!(
        kinds("M D MD A AM AD AMD JGT JEQ JGE JLT JNE JLE JMP"),
        vec![
            TokenKind::M,
            TokenKind::D,
            TokenKind::Md,
            TokenKind::A,
            TokenKind::Am,
            TokenKind::Ad,
            TokenKind::Amd,
            TokenKind::Jgt,
            TokenKind::Jeq,
            TokenKind::Jge,
            TokenKind::Jlt,
            TokenKind::Jne,
            TokenKind::Jle,
            TokenKind::Jmp,
            TokenKind::NewLine,
            TokenKind::Eof,
        ]
    );
    assert_eq!(
        kinds("DM jmp AMDX m.d$_9"),
        vec![
            TokenKind::Identifier(2),
            TokenKind::Identifier(3),
            TokenKind::Identifier(4),
            TokenKind::Identifier(6),
            TokenKind::NewLine,
            TokenKind::Eof,
        ]
    );
}

#[test]
fn tokens_record_line_and_offset() {
    let (tokens, errors) = scan("@foo\n  D=M;JGT // note\n");
    assert!(errors.is_empty());
    assert_eq!(
        tokens,
        vec![
            Token::new(TokenKind::At, 0, 0),
            Token::new(TokenKind::Identifier(3), 0, 1),
            Token::new(TokenKind::NewLine, 0, 4),
            Token::new(TokenKind::D, 1, 2),
            Token::new(TokenKind::Equals, 1, 3),
            Token::new(TokenKind::M, 1, 4),
            Token::new(TokenKind::Semicolon, 1, 5),
            Token::new(TokenKind::Jgt, 1, 6),
            Token::new(TokenKind::NewLine, 1, 17),
            Token::new(TokenKind::Eof, 2, 0),
        ]
    );
}

#[test]
fn blank_lines_collapse_into_one_newline() {
    assert_eq!(
        kinds("\n\n// only a comment\nD\n\n\n\nA\n\n"),
        vec![TokenKind::D, TokenKind::NewLine, TokenKind::A, TokenKind::NewLine, TokenKind::Eof]
    );
}

#[test]
fn empty_source_is_a_lone_eof() {
    assert_eq!(scan("").0, vec![Token::new(TokenKind::Eof, 0, 0)]);
    assert_eq!(scan("\n\n").0, vec![Token::new(TokenKind::Eof, 2, 0)]);
}

#[test]
fn last_line_needs_no_line_feed() {
    assert_eq!(kinds("D"), vec![TokenKind::D, TokenKind::NewLine, TokenKind::Eof]);
}

#[test]
fn underscores_separate_digits() {
    let (tokens, errors) = scan("@1_000 0_ 007");
    assert!(errors.is_empty());
    assert_eq!(
        tokens,
        vec![
            Token::new(TokenKind::At, 0, 0),
            Token::new(TokenKind::Number(1000, 5), 0, 1),
            Token::new(TokenKind::Number(0, 2), 0, 7),
            Token::new(TokenKind::Number(7, 3), 0, 10),
            Token::new(TokenKind::NewLine, 0, 13),
            Token::new(TokenKind::Eof, 1, 0),
        ]
    );
}

#[test]
fn largest_address_is_in_range() {
    let (tokens, errors) = scan("@32767");
    assert!(errors.is_empty());
    assert_eq!(tokens[1].kind, TokenKind::Number(32767, 5));
}

#[test]
fn number_beyond_the_largest_address_is_reported_and_scanning_goes_on() {
    let (tokens, errors) = scan("@32768\nD");
    assert_eq!(
        errors,
        vec![Diagnostic { message: Message::NumberOutOfRange, line: 0, start: 1, len: 5 }]
    );
    assert_eq!(errors[0].kind(), ErrorKind::Lexical);
    assert_eq!(
        tokens.iter().map(|token| token.kind).collect::<Vec<_>>(),
        vec![
            TokenKind::At,
            TokenKind::Number(32768, 5),
            TokenKind::NewLine,
            TokenKind::D,
            TokenKind::NewLine,
            TokenKind::Eof,
        ]
    );
}

#[test]
fn huge_number_is_held_as_the_largest_the_token_can_hold() {
    let (tokens, errors) = scan("65535 65536 99999999999999999999999999");
    assert_eq!(errors.len(), 3);
    assert_eq!(tokens[0].kind, TokenKind::Number(65535, 5));
    assert_eq!(tokens[1].kind, TokenKind::Number(65535, 5));
    assert_eq!(tokens[2].kind, TokenKind::Number(65535, 26));
}

#[test]
fn bare_slash_is_reported() {
    let (tokens, errors) = scan("D / A");
    assert_eq!(errors, vec![Diagnostic { message: Message::BareSlash, line: 0, start: 2, len: 1 }]);
    assert_eq!(
        tokens.iter().map(|token| token.kind).collect::<Vec<_>>(),
        vec![TokenKind::D, TokenKind::A, TokenKind::NewLine, TokenKind::Eof]
    );
    let (_, errors) = scan("D /");
    assert_eq!(errors, vec![Diagnostic { message: Message::BareSlash, line: 0, start: 2, len: 1 }]);
}

#[test]
fn every_other_byte_is_reported_by_itself() {
    let (tokens, errors) = scan("@#\n\u{e9}");
    assert_eq!(
        errors,
        vec![
            Diagnostic { message: Message::UnexpectedCharacter, line: 0, start: 1, len: 1 },
            Diagnostic { message: Message::UnexpectedCharacter, line: 1, start: 0, len: 1 },
            Diagnostic { message: Message::UnexpectedCharacter, line: 1, start: 1, len: 1 },
        ]
    );
    assert_eq!(
        tokens.iter().map(|token| token.kind).collect::<Vec<_>>(),
        vec![TokenKind::At, TokenKind::NewLine, TokenKind::Eof]
    );
}

#[test]
fn comment_may_hold_anything() {
    let (tokens, errors) = scan("D // # / \u{e9} @@\nA");
    assert!(errors.is_empty());
    assert_eq!(tokens.len(), 5);
}

#[test]
fn one_token_at_a_time() {
    let mut scanner = Scanner::with_source("@7 x".to_string());
    scanner.scan_token();
    assert_eq!(scanner.tokens().clone(), vec![Token::new(TokenKind::At, 0, 0)]);
    scanner.scan_token();
    assert_eq!(scanner.tokens().len(), 2);
    assert_eq!(scanner.tokens()[1], Token::new(TokenKind::Number(7, 1), 0, 1));
    scanner.scan_token();
    assert_eq!(scanner.tokens().len(), 2);
    scanner.scan_token();
    assert_eq!(scanner.tokens()[2], Token::new(TokenKind::Identifier(1), 0, 3));
    scanner.scan_token();
    assert_eq!(scanner.tokens()[3], Token::new(TokenKind::NewLine, 0, 4));
    assert!(scanner.scan_tokens());
    assert_eq!(scanner.tokens()[4], Token::new(TokenKind::Eof, 1, 0));
}

#[test]
fn run_hands_clean_tokens_to_a_parser() {
    let parser = Scanner::with_source("@1\n".to_string()).run();
    assert!(parser.is_ok());
    let failed = Scanner::with_source("@1 ?\n%".to_string()).run();
    match failed {
        Ok(_) => panic!("two faulty bytes"),
        Err(errors) => assert_eq!(errors.len(), 2),
    }
}

#[test]
fn scanner_started_from_lines_reads_them_as_they_are() {
    let mut scanner = Scanner::with_lines(vec![b"D".to_vec(), b"".to_vec(), b"A".to_vec()]);
    assert!(scanner.scan_tokens());
    assert_eq!(
        scanner.tokens().clone(),
        vec![
            Token::new(TokenKind::D, 0, 0),
            Token::new(TokenKind::NewLine, 0, 1),
            Token::new(TokenKind::A, 2, 0),
            Token::new(TokenKind::NewLine, 2, 1),
            Token::new(TokenKind::Eof, 3, 0),
        ]
    );
}

#[test]
fn token_lengths() {
    assert_eq!(Token::new(TokenKind::Eof, 0, 0).len(), 0);
    assert_eq!(Token::new(TokenKind::NewLine, 0, 0).len(), 1);
    assert_eq!(Token::new(TokenKind::At, 0, 0).len(), 1);
    assert_eq!(Token::new(TokenKind::Md, 0, 0).len(), 2);
    assert_eq!(Token::new(TokenKind::Amd, 0, 0).len(), 3);
    assert_eq!(Token::new(TokenKind::Jmp, 0, 0).len(), 3);
    assert_eq!(Token::new(TokenKind::Identifier(9), 0, 0).len(), 9);
    assert_eq!(Token::new(TokenKind::Number(12, 4), 0, 0).len(), 4);
}

#[test]
fn keyword_classes() {
    assert!(TokenKind::Amd.is_dest_keyword());
    assert!(TokenKind::M.is_dest_keyword());
    assert!(!TokenKind::Jmp.is_dest_keyword());
    assert!(!TokenKind::Identifier(1).is_dest_keyword());
    assert!(TokenKind::Jne.is_jump_keyword());
    assert!(!TokenKind::D.is_jump_keyword());
    assert!(!TokenKind::Number(1, 1).is_jump_keyword());
}

#[test]
fn binary_codes_of_tokens() {
    let code = |kind: TokenKind| String::from_utf8(Token::new(kind, 0, 0).as_bin_code()).unwrap();
    assert_eq!(code(TokenKind::M), "001");
    assert_eq!(code(TokenKind::D), "010");
    assert_eq!(code(TokenKind::Md), "011");
    assert_eq!(code(TokenKind::A), "100");
    assert_eq!(code(TokenKind::Am), "101");
    assert_eq!(code(TokenKind::Ad), "110");
    assert_eq!(code(TokenKind::Amd), "111");
    assert_eq!(code(TokenKind::Jgt), "001");
    assert_eq!(code(TokenKind::Jeq), "010");
    assert_eq!(code(TokenKind::Jge), "011");
    assert_eq!(code(TokenKind::Jlt), "100");
    assert_eq!(code(TokenKind::Jne), "101");
    assert_eq!(code(TokenKind::Jle), "110");
    assert_eq!(code(TokenKind::Jmp), "111");
    assert_eq!(code(TokenKind::Number(2, 1)), "0b00000000000010");
    assert_eq!(code(TokenKind::Number(16384, 5)), "0b100000000000000");
    assert_eq!(code(TokenKind::Number(65535, 5)), "0b1111111111111111");
}
