use vstd::prelude::*;

verus! {

/// Every failure the library or its callers can report.
///
/// `Filesystem` is constructed by unverified callers that perform the
/// actual copying; the remaining variants are produced by the library
/// itself under the conditions stated in each function's contract.
#[derive(Debug)]
pub enum Error {
    /// A user variable shadows the reserved name `home` or `config`.
    ReservedVariableName(String),
    /// A `${...}` reference names a variable absent from the scope.
    UndefinedVariable(String),
    /// Expansion did not settle within the pass bound.
    CircularVariableReference,
    /// The named game does not occur in the configuration.
    GameNotFound(String),
    /// Restore was requested for a game whose backup directory is missing.
    NoBackup(String),
    /// A save location's expanded path does not exist on disk.
    SourceMissing(String),
    /// An explicitly given configuration file does not exist.
    ConfigNotFound(String),
    /// No configuration file was found in the working directory.
    NoConfig,
    /// Several candidate configuration files were found; their names.
    AmbiguousConfig(Vec<String>),
    /// An underlying create/copy/read operation failed; its message.
    Filesystem(String),
    /// A bulk operation had this many per-game failures.
    AggregateFailure(usize),
    /// The configuration document could not be decoded; the decoder's message.
    ConfigMalformed(String),
    /// The configuration file could not be read; the reader's message.
    ConfigUnreadable(String),
}

} // verus!
