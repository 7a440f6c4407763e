//! The backend interface, and the pipeline from source text to a backend's
//! artifact.

use std::convert::Infallible;
use vstd::prelude::*;
use crate::resolve::{spec_resolve, ResolveError, ResolvedProgram, ResolvedView};
use crate::wmach_stream::{spec_parse, Program, WmachErr};

verus! {

/// A compiler from resolved programs to artifacts of some kind.
///
/// A backend is only ever handed a [`ResolvedProgram`], never a raw
/// [`Program`]: the labels are checked and the jumps resolved before it runs.
pub trait Backend {
    /// What the backend produces.
    type Target;

    /// How the backend fails.
    type Error;

    /// Whether `result` is a result of this backend for `program`. A backend
    /// that says nothing of its results leaves this as it is: any result.
    open spec fn produces(
        &self,
        program: ResolvedView,
        result: Result<Self::Target, Self::Error>,
    ) -> bool {
        true
    }

    /// Compiles `program`.
    fn compile(&self, program: &ResolvedProgram) -> (result: Result<Self::Target, Self::Error>)
        ensures
            self.produces(program@, result),
    ;
}

/// The simplest backend: its artifact is the number of statements of the
/// program, and it never fails.
#[derive(Debug, Clone, Copy, PartialEq, Eq)]
pub struct InstructionCount;

impl Backend for InstructionCount {
    type Target = usize;

    type Error = Infallible;

    open spec fn produces(&self, program: ResolvedView, result: Result<usize, Infallible>) -> bool {
        result == Ok::<usize, Infallible>(program.instructions.len() as usize)
    }

    fn compile(&self, program: &ResolvedProgram) -> (result: Result<usize, Infallible>) {
        Ok(program.instructions().len())
    }
}

/// Why a source text was not compiled: the stage that failed, with its
/// error unchanged.
#[derive(Debug, PartialEq, Eq)]
pub enum CompileError<E> {
    Parse(WmachErr),
    Resolve(ResolveError),
    Backend(E),
}

/// The result of the pipeline where the backend has run and returned
/// `result`: its artifact, or its error as it is.
pub fn backend_outcome<T, E>(result: Result<T, E>) -> (r: Result<T, CompileError<E>>)
    ensures
        r == match result {
            Ok(artifact) => Ok::<T, CompileError<E>>(artifact),
            Err(e) => Err(CompileError::Backend(e)),
        },
{
    match result {
        Ok(artifact) => Ok(artifact),
        Err(e) => Err(CompileError::Backend(e)),
    }
}

/// Parses `source`, resolves the program and hands it to `backend`. The first
/// stage that fails ends the compilation: the backend runs only on a program
/// that parsed and resolved, and then decides the result.
pub fn compile<B: Backend>(source: &str, backend: &B) -> (r: Result<
    B::Target,
    CompileError<B::Error>,
>)
    ensures
        match spec_parse(source@) {
            Err(error) => r matches Err(CompileError::Parse(e)) && e@ == error,
            Ok(code) => match spec_resolve(code) {
                Err(error) => r matches Err(CompileError::Resolve(e)) && e@ == error,
                Ok(resolved) => match r {
                    Ok(artifact) => backend.produces(
                        resolved,
                        Ok::<B::Target, B::Error>(artifact),
                    ),
                    Err(CompileError::Backend(e)) => backend.produces(
                        resolved,
                        Err::<B::Target, B::Error>(e),
                    ),
                    Err(_) => false,
                },
            },
        },
{
    let program = match Program::from_str(source) {
        Ok(program) => program,
        Err(e) => {
            return Err(CompileError::Parse(e));
        },
    };
    let resolved = match program.resolve() {
        Ok(resolved) => resolved,
        Err(e) => {
            return Err(CompileError::Resolve(e));
        },
    };
    backend_outcome(backend.compile(&resolved))
}

} // verus!
