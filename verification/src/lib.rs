//! Front end of a compiler for a small tape-machine notation: source text is
//! parsed into a statement sequence, labels are checked and resolved to
//! addresses, and the resolved program is handed to a backend.

pub mod compiler;
pub mod driver;
pub mod grammar;
pub mod resolve;
mod scanner;
pub mod symbols;
pub mod wmach_stream;

pub use compiler::{Backend, CompileError, InstructionCount};
pub use driver::{Request, WmcError};
pub use resolve::{Address, ResolveError, ResolvedProgram};
pub use symbols::{Symbol, SymbolTable};
pub use wmach_stream::{Code, IoOp, LabelId, Program, SeekOp, Stmt, Target, WmachErr, WriteOp};
