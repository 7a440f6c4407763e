//! What the command line asks for, decided from the options that were given.

use vstd::prelude::*;

verus! {

/// Why the command line starts no compilation.
#[derive(Debug, Clone, Copy, PartialEq, Eq, Structural)]
pub enum WmcError {
    /// Help was asked for, or neither a source nor a directory was given.
    Help,
    /// A source was given, but no directory to write to.
    MissingDirectory,
    /// A directory was given, but no source.
    MissingSource,
}

impl WmcError {
    /// The error in words.
    pub fn message(&self) -> (r: String)
        ensures
            r@ == match *self {
                WmcError::Help => "Command-line help requested."@,
                WmcError::MissingDirectory => "Missing CRT directory."@,
                WmcError::MissingSource => "Missing source code."@,
            },
    {
        match self {
            WmcError::Help => "Command-line help requested.".to_owned(),
            WmcError::MissingDirectory => "Missing CRT directory.".to_owned(),
            WmcError::MissingSource => "Missing source code.".to_owned(),
        }
    }
}

/// One compilation: what was given as the source, and the directory that
/// receives the output.
#[derive(Debug, PartialEq, Eq)]
pub struct Request {
    pub source: String,
    pub out_dir: String,
}

/// What the options ask for. Help wins over everything, and stands for a
/// command line with neither source nor directory; of the two, a missing
/// source is reported where only the directory is there, a missing directory
/// where only the source is.
pub fn request(help: bool, source: Option<String>, out_dir: Option<String>) -> (r: Result<
    Request,
    WmcError,
>)
    ensures
        r == if help || (source is None && out_dir is None) {
            Err::<Request, WmcError>(WmcError::Help)
        } else if source is None {
            Err(WmcError::MissingSource)
        } else if out_dir is None {
            Err(WmcError::MissingDirectory)
        } else {
            Ok(Request { source: source->0, out_dir: out_dir->0 })
        },
{
    if help {
        return Err(WmcError::Help);
    }
    match (source, out_dir) {
        (None, None) => Err(WmcError::Help),
        (None, Some(_)) => Err(WmcError::MissingSource),
        (Some(_), None) => Err(WmcError::MissingDirectory),
        (Some(source), Some(out_dir)) => Ok(Request { source, out_dir }),
    }
}

} // verus!
