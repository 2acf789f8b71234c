//! Compilation to C: the program is checked by the analyzer, then turned
//! into C source. Writing the source to a file and running the C compiler on
//! it are left to the caller.
pub mod analyzer;
pub mod codegen;

use vstd::prelude::*;
use crate::ast::Program;
use crate::text::{push_seq, string_of};
use crate::compiler::analyzer::{analyze, an_program};
use crate::compiler::codegen::{generate_c, gen_program};

verus! {

/// `std::io::Error`, the error of a failed read, write or process start.
#[verifier::external_type_specification]
#[verifier::external_body]
pub struct ExIoError(std::io::Error);

#[derive(Debug)]
pub enum CompileError {
    AnalyzerError(String),
    IoError(std::io::Error),
    GccError(String),
}

/// The `Display` text of `std::io::Error`, `format!("{}", e)`. It comes from
/// the operating system, so the contract says nothing of it.
#[verifier::external_body]
fn io_error_text(e: &std::io::Error) -> String {
    format!("{}", e)
}

impl CompileError {
    /// The message of the error: for an I/O error, `IO error: ` and the
    /// text of the error as the system gives it.
    pub fn message(&self) -> (r: String)
        ensures
            match self {
                CompileError::AnalyzerError(m) => r@ == "Analyzer error: "@ + m@,
                CompileError::IoError(_) => r@.len() >= 10 && r@.subrange(0, 10) == "IO error: "@,
                CompileError::GccError(m) => r@ == "C compiler error: "@ + m@,
            },
    {
        let mut s = String::new();
        match self {
            CompileError::AnalyzerError(m) => {
                push_seq(&mut s, &string_of("Analyzer error: "));
                push_seq(&mut s, m);
            },
            CompileError::IoError(e) => {
                let prefix = string_of("IO error: ");
                proof { reveal_strlit("IO error: "); }
                push_seq(&mut s, &prefix);
                push_seq(&mut s, &io_error_text(e));
                assert(s@.subrange(0, 10) =~= "IO error: "@);
            },
            CompileError::GccError(m) => {
                push_seq(&mut s, &string_of("C compiler error: "));
                push_seq(&mut s, m);
            },
        }
        s
    }
}

/// The C source of a program that the analyzer accepts, or the analyzer's
/// message.
pub open spec fn c_source(program: Seq<crate::ast::Statement>) -> Result<Seq<char>, Seq<char>> {
    match an_program(program) {
        Err(m) => Err(m),
        Ok(_) => Ok(gen_program(program)),
    }
}

/// Checks a program and, when the analyzer accepts it, gives its C source.
pub fn compile_to_c(program: &Program) -> (r: Result<String, CompileError>)
    ensures
        match r {
            Ok(code) => c_source(program@) == Ok::<Seq<char>, Seq<char>>(code@),
            Err(CompileError::AnalyzerError(m)) => c_source(program@) == Err::<Seq<char>, Seq<char>>(m@),
            Err(_) => false,
        },
{
    match analyze(program) {
        Err(m) => Err(CompileError::AnalyzerError(m)),
        Ok(()) => Ok(generate_c(program)),
    }
}

} // verus!
