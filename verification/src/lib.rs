//! A compiler and stack-machine interpreter for the Tiny-C language.
//!
//! Tiny-C is a minimal imperative language: the integer global variables
//! `a` to `z` are predefined and initialized to zero, and no further
//! variables can be declared.  A source program is compiled in four
//! stages: lexical analysis, recursive-descent parsing, code generation
//! with back-patched branch targets, and stack-machine interpretation.

use vstd::prelude::*;

pub mod codegen;
pub mod laws;
pub mod lexer;
pub mod parser;
pub mod vm;

use crate::codegen::CodegenError;
use crate::codegen::compile;
use crate::codegen::spec_compile;
use crate::lexer::SyntaxError;
use crate::lexer::spec_tokens_of;
use crate::parser::PRes;
use crate::parser::p_program;
use crate::parser::parse;
use crate::vm::VM;
use crate::vm::VmFault;
use crate::vm::VmStep;
use crate::vm::init_state;
use crate::vm::reaches_fault;
use crate::vm::reaches_halt;
use crate::vm::run_n;
use crate::vm::spec_report;

verus! {

/// Any failure of a compile-and-run cycle: a lexical or syntax error,
/// a code-generation error, or a runtime fault of the machine.
#[derive(Debug, Clone, Copy, PartialEq, Eq, Structural)]
pub enum RunError {
    Syntax(SyntaxError),
    Codegen(CodegenError),
    Vm(VmFault),
}

/// One whole cycle: compile `src` and execute it against `vm`'s
/// persistent globals, reporting every global that is then nonzero as
/// a `(letter, value)` pair in ascending alphabetical order.
///
/// On any error the pipeline stops at the first fault: a lexical or
/// syntax error or a code-generation error leaves the globals
/// untouched and names the error exactly as the stage specifications
/// say; a machine fault reports the globals the faulting state had.
pub fn compile_and_run(vm: &mut VM, src: &str) -> (r: Result<Vec<(char, isize)>, RunError>)
    requires
        old(vm).wf(),
    ensures
        final(vm).wf(),
        match spec_tokens_of(src@) {
            Err(le) => r == Err::<Vec<(char, isize)>, RunError>(RunError::Syntax(le))
                && final(vm).globals@ == old(vm).globals@,
            Ok(toks) => match p_program(toks, 0) {
                PRes::PFail(pe) => r == Err::<Vec<(char, isize)>, RunError>(RunError::Syntax(pe))
                    && final(vm).globals@ == old(vm).globals@,
                PRes::POk(ast, _) => match spec_compile(ast) {
                    Err(ce) => r == Err::<Vec<(char, isize)>, RunError>(RunError::Codegen(ce))
                        && final(vm).globals@ == old(vm).globals@,
                    Ok(code) => match r {
                        Ok(report) => reaches_halt(code, old(vm).globals@, final(vm).globals@)
                            && report@ == spec_report(final(vm).globals@, 0),
                        Err(re) => re matches RunError::Vm(f) && (if f == VmFault::StepLimit {
                            run_n(code, init_state(old(vm).globals@), u64::MAX as nat) matches VmStep::Next(s)
                                && s.globals == final(vm).globals@
                        } else {
                            reaches_fault(code, old(vm).globals@, f, final(vm).globals@)
                        }),
                    },
                },
            },
        },
{
    let ast = match parse(src) {
        Err(e) => return Err(RunError::Syntax(e)),
        Ok(a) => a,
    };
    let code = match compile(ast) {
        Err(e) => return Err(RunError::Codegen(e)),
        Ok(c) => c,
    };
    match vm.run(code) {
        Err(f) => Err(RunError::Vm(f)),
        Ok(()) => Ok(vm.nonzero_globals()),
    }
}

} // verus!
