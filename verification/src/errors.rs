//! Error taxonomy of the tool.
//!
//! Every failure path ends in one of these values; only the solver's internal
//! overflow condition is recoverable, and that one is not an error but a
//! `Step::Relink` request.

use vstd::prelude::*;

verus! {

/// Which piece of required configuration was found missing.
#[derive(Clone, Copy, Debug, PartialEq, Eq, Structural)]
pub enum ConfigIssue {
    /// No `-o` flag was present in the linker argument vector.
    MissingOutputFlag,
    /// Neither a `.bss` nor a `.data` section exists in the linked binary.
    SectionsNotFound,
    /// No `__stack_top__` symbol exists in the symbol table.
    StackSymbolNotFound,
    /// The real linker executable was not found in the toolchain tree.
    LinkerNotFound,
}

/// A fatal condition of one run of the tool.
#[derive(Clone, Copy, Debug, PartialEq, Eq, Structural)]
pub enum Error {
    /// A file or child process could not be read or run.
    Io,
    /// The linked output is not a well-formed binary of the expected format.
    Decode,
    /// The build is not set up the way the tool requires.
    Config(ConfigIssue),
    /// The first linker invocation exited with a non-zero status.
    LinkFailure,
    /// A corrective linker invocation exited with a non-zero status.
    RelinkFailure,
    /// The relinked output broke an invariant the boundary arithmetic depends
    /// on; the output file must be deleted, and the condition points at a
    /// defect in this tool rather than in the user's build.
    FatalInconsistency,
}

impl Error {
    /// The diagnostic text shown for this error.
    pub open spec fn spec_message(&self) -> Seq<char> {
        match self {
            Error::Io => "i/o error while handling the linker output"@,
            Error::Decode => "the linker output is not a valid binary"@,
            Error::Config(ConfigIssue::MissingOutputFlag) => {
                "no `-o` flag was passed to the first linker invocation"@
            },
            Error::Config(ConfigIssue::SectionsNotFound) => "linker sections not found"@,
            Error::Config(ConfigIssue::StackSymbolNotFound) => {
                "symbol `__stack_top__` not found"@
            },
            Error::Config(ConfigIssue::LinkerNotFound) => "the linker was not found"@,
            Error::LinkFailure => "first linker invocation failed"@,
            Error::RelinkFailure => "second linker invocation failed"@,
            Error::FatalInconsistency => {
                "We are sorry. We couldn't make the linker do as we intended. Please file a bug report with steps to build this program so we can do better."@
            },
        }
    }

    /// Diagnostic text for this error, for the caller to print.
    pub fn message(&self) -> (r: &'static str)
        ensures
            r@ == self.spec_message(),
    {
        match self {
            Error::Io => "i/o error while handling the linker output",
            Error::Decode => "the linker output is not a valid binary",
            Error::Config(ConfigIssue::MissingOutputFlag) => {
                "no `-o` flag was passed to the first linker invocation"
            },
            Error::Config(ConfigIssue::SectionsNotFound) => "linker sections not found",
            Error::Config(ConfigIssue::StackSymbolNotFound) => "symbol `__stack_top__` not found",
            Error::Config(ConfigIssue::LinkerNotFound) => "the linker was not found",
            Error::LinkFailure => "first linker invocation failed",
            Error::RelinkFailure => "second linker invocation failed",
            Error::FatalInconsistency => {
                "We are sorry. We couldn't make the linker do as we intended. Please file a bug report with steps to build this program so we can do better."
            },
        }
    }
}

} // verus!
