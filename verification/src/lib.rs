//! A two-stage assembler: source text is scanned into tokens, parsed into
//! labelled blocks of commands, and encoded into fixed-width instruction
//! records.

pub mod ast;
pub mod compiler;
pub mod error;
pub mod lexer;
pub mod machine_code;
pub mod parser;
pub mod span;
pub mod text;

use vstd::prelude::*;
use vstd::string::*;
use vstd::utf8::*;

use crate::compiler::{compile_program, lemma_compile_error_span_fits, MachineCodeCompiler};
use crate::error::{Error, ErrorView};
use crate::lexer::{lemma_scan_spans_fit, scan, token_views, Lexer};
use crate::machine_code::{binary_listing, MachineCode, MachineCodeInstruction};
use crate::parser::{lemma_program_span_fits, program_at, Parser};

verus! {

/// How much room the written-out digits get: in debug mode the groups of
/// digits stand apart, in release mode they follow each other directly.
#[derive(Copy, Clone, PartialEq, Eq, Structural, Debug)]
pub enum Mode {
    Debug,
    Release,
}

impl Mode {
    pub fn is_debug(&self) -> (yes: bool)
        ensures
            yes == (*self == Mode::Debug),
    {
        match self {
            Mode::Debug => true,
            Mode::Release => false,
        }
    }

    pub fn is_release(&self) -> (yes: bool)
        ensures
            yes == (*self == Mode::Release),
    {
        match self {
            Mode::Debug => false,
            Mode::Release => true,
        }
    }
}

/// What assembling a source text yields: the instructions, or the first
/// error of the stage that met one. The text is scanned from its start, the
/// tokens are parsed from the first one, and the program is compiled.
pub open spec fn assembled(bytes: Seq<u8>) -> Result<Seq<MachineCodeInstruction>, ErrorView> {
    let scanned = scan(bytes, 0);
    match scanned.error {
        Some(error) => Err(error),
        None => match program_at(scanned.tokens, 0).outcome {
            Err(error) => Err(error),
            Ok(program) => match compile_program(program).error {
                Some(error) => Err(error),
                None => Ok(compile_program(program).code),
            },
        },
    }
}

/// The span of an error of whatever stage can be cut out of the source
/// text: it lies inside the text and between characters.
pub proof fn lemma_error_span_fits(bytes: Seq<u8>)
    requires
        valid_utf8(bytes),
        bytes.len() <= usize::MAX,
    ensures
        assembled(bytes) matches Err(error) ==> error.span.fits(bytes),
{
    lemma_scan_spans_fit(bytes, 0);
    let scanned = scan(bytes, 0);
    if scanned.error is None {
        lemma_program_span_fits(scanned.tokens, 0, bytes);
        let parsed = program_at(scanned.tokens, 0);
        if parsed.outcome is Ok {
            lemma_compile_error_span_fits(parsed.outcome->Ok_0, bytes);
        }
    }
}

/// Assembles a source text into machine code. The span of an error can be
/// cut out of the text.
pub fn assemble(source: &str) -> (outcome: Result<MachineCode, Error>)
    ensures
        outcome matches Err(error) ==> error.span.fits(source.spec_bytes()),
        match outcome {
            Ok(machine_code) => assembled(source.spec_bytes()) == Ok::<
                Seq<MachineCodeInstruction>,
                ErrorView,
            >(machine_code.code@),
            Err(error) => assembled(source.spec_bytes()) == Err::<
                Seq<MachineCodeInstruction>,
                ErrorView,
            >(error@),
        },
{
    // Measuring the text tells the proof that its length is a machine
    // number, which the spans rely on.
    let _ = source.as_bytes().len();
    proof {
        encode_utf8_valid_utf8(source@);
        lemma_error_span_fits(source.spec_bytes());
    }
    let mut lexer = Lexer::new(source);
    match lexer.scan_tokens() {
        Ok(()) => {},
        Err(error) => {
            return Err(error);
        },
    }
    let ghost tokens = token_views(lexer.tokens@);
    let mut parser = Parser::new(lexer.tokens);
    let program = match parser.parse() {
        Ok(program) => program,
        Err(error) => {
            return Err(error);
        },
    };
    let mut compiler = MachineCodeCompiler::new(program);
    compiler.compile()
}

/// Assembles a source text and writes the machine code out in binary
/// digits, a line for each instruction. The span of an error can be cut out
/// of the text.
pub fn compile_string(string: &str, mode: &Mode) -> (outcome: Result<String, Error>)
    ensures
        outcome matches Err(error) ==> error.span.fits(string.spec_bytes()),
        match outcome {
            Ok(text) => assembled(string.spec_bytes()) matches Ok(code) && text@ == binary_listing(
                code,
                *mode,
            ),
            Err(error) => assembled(string.spec_bytes()) == Err::<
                Seq<MachineCodeInstruction>,
                ErrorView,
            >(error@),
        },
{
    match assemble(string) {
        Ok(machine_code) => Ok(machine_code.binary_string(mode)),
        Err(error) => Err(error),
    }
}

} // verus!
