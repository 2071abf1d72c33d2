//! An assembler for the Hack computer: symbolic assembly text in, sixteen-bit
//! machine words out, one line of binary digits per instruction.
//!
//! All text is handled as bytes. A name (a label, a variable) is never copied
//! out of the source while scanning and parsing: a token records where its
//! lexeme stands, and the name is that span of the source.

pub mod ast;
pub mod error_formatting;
pub mod evaluator;
pub mod grammar;
pub mod parser;
pub mod scanner;
pub mod symbols;
pub mod text;

use crate::error_formatting::Diagnostic;
use crate::evaluator::{encodable, lemma_listing_len, listing, Evaluator};
use crate::grammar::{lemma_parsed_is_encodable, parsed, ParseState};
use crate::scanner::{lemma_scan_all_terminated, scan_all, split_lines, ScanState, Scanner};
use vstd::prelude::*;

verus! {

/// What comes of assembling the source `text`: the listing of its program, or
/// the diagnostics. The lexical diagnostics come alone if there are any; else
/// those of the parser; only a source without any has a listing.
pub open spec fn assembled(text: Seq<u8>) -> Result<Seq<u8>, Seq<Diagnostic>> {
    let lines = split_lines(text);
    let scanned = scan_all(lines, ScanState::initial());
    if scanned.errors.len() > 0 {
        Err(scanned.errors)
    } else {
        match parsed(scanned.tokens, lines, ParseState::initial()) {
            Ok(program) => Ok(listing(program)),
            Err(errors) => Err(errors),
        }
    }
}

/// The number of instructions in the program of the source `text`, where it
/// has one.
pub open spec fn instruction_count(text: Seq<u8>) -> nat {
    let lines = split_lines(text);
    match parsed(scan_all(lines, ScanState::initial()).tokens, lines, ParseState::initial()) {
        Ok(program) => program.len(),
        Err(_) => 0,
    }
}

/// Assembles `source`: scans it, parses it, resolves its names and writes the
/// program out.
pub fn assemble(source: String) -> (output: Result<Vec<u8>, Vec<Diagnostic>>)
    ensures
        match output {
            Ok(text) => assembled(vstd::utf8::encode_utf8(source@)) == Ok::<
                Seq<u8>,
                Seq<Diagnostic>,
            >(text@),
            Err(errors) => errors@.len() > 0 && assembled(vstd::utf8::encode_utf8(source@))
                == Err::<Seq<u8>, Seq<Diagnostic>>(errors@),
        },
{
    let scanner = Scanner::with_source(source);
    let parser = match scanner.run() {
        Ok(parser) => parser,
        Err(errors) => {
            return Err(errors);
        },
    };
    match parser.run() {
        Ok(instructions) => Ok(Evaluator::new(instructions).evaluate()),
        Err(errors) => Err(errors),
    }
}

/// The same source gives the same outcome, whenever and however often it is
/// assembled: the outcome is a function of the bytes of the source.
pub proof fn lemma_assembling_is_repeatable(first: Seq<u8>, second: Seq<u8>)
    requires
        first =~= second,
    ensures
        assembled(first) == assembled(second),
{
}

/// A listing has eighteen bytes for each instruction of its program: sixteen
/// binary digits and the two bytes of the line break. This is stated of a
/// source whose tokens are no more than a machine can count.
pub proof fn lemma_assembled_len(text: Seq<u8>)
    requires
        scan_all(split_lines(text), ScanState::initial()).tokens.len() <= usize::MAX,
    ensures
        match assembled(text) {
            Ok(output) => output.len() == 18 * instruction_count(text),
            Err(_) => true,
        },
{
    let lines = split_lines(text);
    let scanned = scan_all(lines, ScanState::initial());
    lemma_scan_all_terminated(lines, ScanState::initial());
    lemma_parsed_is_encodable(scanned.tokens, lines, ParseState::initial());
    crate::symbols::lemma_predefined_addresses();
    match parsed(scanned.tokens, lines, ParseState::initial()) {
        Ok(program) => {
            lemma_listing_len(program);
        },
        Err(_) => {},
    }
}

} // verus!
