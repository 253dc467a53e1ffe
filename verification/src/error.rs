//! The error type shared by every stage of the task pipeline.

use vstd::prelude::*;

verus! {

/// A typed error surfaced to the top-level invocation handler. Each variant
/// carries the offending name and, where applicable, the source file path.
#[derive(Debug)]
pub enum RunzError {
    /// A declared argument ended up without a value.
    MissingRequiredArg { name: String },
    /// The invoked task name is not in the merged task list.
    TaskNotFound { name: String },
    /// Neither a local nor a global configuration document was found.
    NoConfigFound,
    /// One configuration document defines the same task twice.
    DuplicateTask { name: String, path: String },
    /// A scaffolded configuration file is already present.
    AlreadyExists,
    /// A named argument does not match any declared argument.
    UnknownArg { name: String },
    /// One invocation mixes positional and named arguments.
    MixedArgStyles,
    /// The configuration document could not be parsed.
    ConfigParse { path: String, reason: String },
    /// The merged task list is empty.
    NoTasksDefined,
    /// The shell-integration snippet was asked for an unknown shell.
    UnsupportedShell { name: String },
    /// An input/output failure, carrying the underlying message.
    Io(String),
}

/// The mathematical shape of a [`RunzError`]: every string as a `Seq<char>`.
pub enum ErrorView {
    MissingRequiredArg { name: Seq<char> },
    TaskNotFound { name: Seq<char> },
    NoConfigFound,
    DuplicateTask { name: Seq<char>, path: Seq<char> },
    AlreadyExists,
    UnknownArg { name: Seq<char> },
    MixedArgStyles,
    ConfigParse { path: Seq<char>, reason: Seq<char> },
    NoTasksDefined,
    UnsupportedShell { name: Seq<char> },
    Io(Seq<char>),
}

impl View for RunzError {
    type V = ErrorView;

    open spec fn view(&self) -> ErrorView {
        match self {
            RunzError::MissingRequiredArg { name } => ErrorView::MissingRequiredArg {
                name: name@,
            },
            RunzError::TaskNotFound { name } => ErrorView::TaskNotFound { name: name@ },
            RunzError::NoConfigFound => ErrorView::NoConfigFound,
            RunzError::DuplicateTask { name, path } => ErrorView::DuplicateTask {
                name: name@,
                path: path@,
            },
            RunzError::AlreadyExists => ErrorView::AlreadyExists,
            RunzError::UnknownArg { name } => ErrorView::UnknownArg { name: name@ },
            RunzError::MixedArgStyles => ErrorView::MixedArgStyles,
            RunzError::ConfigParse { path, reason } => ErrorView::ConfigParse {
                path: path@,
                reason: reason@,
            },
            RunzError::NoTasksDefined => ErrorView::NoTasksDefined,
            RunzError::UnsupportedShell { name } => ErrorView::UnsupportedShell { name: name@ },
            RunzError::Io(message) => ErrorView::Io(message@),
        }
    }
}

/// The single-line message of an error, as a sequence of characters.
pub open spec fn message_of(e: ErrorView) -> Seq<char> {
    match e {
        ErrorView::MissingRequiredArg { name } => "error: missing required argument '"@ + name
            + "'"@,
        ErrorView::TaskNotFound { name } => "error: task '"@ + name + "' not found"@,
        ErrorView::NoConfigFound => "error: no runz.toml or global config found"@,
        ErrorView::DuplicateTask { name, path } => "error: duplicate task '"@ + name + "' in "@
            + path,
        ErrorView::AlreadyExists => "error: runz.toml already exists"@,
        ErrorView::UnknownArg { name } => "error: unknown argument '"@ + name + "'"@,
        ErrorView::MixedArgStyles => "error: cannot mix positional and named arguments"@,
        ErrorView::ConfigParse { path, reason } => "error: failed to parse "@ + path + ": "@
            + reason,
        ErrorView::NoTasksDefined => "error: no tasks defined"@,
        ErrorView::UnsupportedShell { name } => "error: unsupported shell '"@ + name + "'"@,
        ErrorView::Io(message) => message,
    }
}

impl RunzError {
    /// The human-readable, single-line message of this error.
    pub fn message(&self) -> (r: String)
        ensures
            r@ == message_of(self@),
    {
        match self {
            RunzError::MissingRequiredArg { name } => String::from_str(
                "error: missing required argument '",
            ).concat(name.as_str()).concat("'"),
            RunzError::TaskNotFound { name } => String::from_str("error: task '").concat(
                name.as_str(),
            ).concat("' not found"),
            RunzError::NoConfigFound => String::from_str(
                "error: no runz.toml or global config found",
            ),
            RunzError::DuplicateTask { name, path } => String::from_str(
                "error: duplicate task '",
            ).concat(name.as_str()).concat("' in ").concat(path.as_str()),
            RunzError::AlreadyExists => String::from_str("error: runz.toml already exists"),
            RunzError::UnknownArg { name } => String::from_str("error: unknown argument '").concat(
                name.as_str(),
            ).concat("'"),
            RunzError::MixedArgStyles => String::from_str(
                "error: cannot mix positional and named arguments",
            ),
            RunzError::ConfigParse { path, reason } => String::from_str(
                "error: failed to parse ",
            ).concat(path.as_str()).concat(": ").concat(reason.as_str()),
            RunzError::NoTasksDefined => String::from_str("error: no tasks defined"),
            RunzError::UnsupportedShell { name } => String::from_str(
                "error: unsupported shell '",
            ).concat(name.as_str()).concat("'"),
            RunzError::Io(message) => String::from_str(message.as_str()),
        }
    }
}

} // verus!
