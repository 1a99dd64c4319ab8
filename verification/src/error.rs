//! The errors of the library.
use vstd::prelude::*;

use crate::text::owned;

verus! {

/// What went wrong.
#[derive(Debug)]
pub enum Error {
    Config(String),
    ConfigParse { path: String, source: String },
    Registry(String),
    Watch(String),
    Io(String),
    ToolDefinition(String),
    Reconcile { path: String, detail: String },
    Daemon(String),
    ProjectNotFound(String),
    PathNotFound(String),
}

impl Error {
    /// The text of the error.
    pub open spec fn text(self) -> Seq<char> {
        match self {
            Error::Config(m) => "configuration error: "@ + m@,
            Error::ConfigParse { path, source } => "failed to parse config at "@ + path@ + ": "@
                + source@,
            Error::Registry(m) => "registry error: "@ + m@,
            Error::Watch(m) => "filesystem watch error: "@ + m@,
            Error::Io(m) => "IO error: "@ + m@,
            Error::ToolDefinition(m) => "tool definition error: "@ + m@,
            Error::Reconcile { path, detail } => "reconciliation failed for "@ + path@ + ": "@
                + detail@,
            Error::Daemon(m) => "daemon error: "@ + m@,
            Error::ProjectNotFound(p) => "project not found: "@ + p@,
            Error::PathNotFound(p) => "path does not exist: "@ + p@,
        }
    }

    /// The error as a sentence for people.
    pub fn message(&self) -> (r: String)
        ensures
            r@ == self.text(),
    {
        match self {
            Error::Config(m) => owned("configuration error: ").concat(m),
            Error::ConfigParse { path, source } => owned("failed to parse config at ").concat(
                path,
            ).concat(": ").concat(source),
            Error::Registry(m) => owned("registry error: ").concat(m),
            Error::Watch(m) => owned("filesystem watch error: ").concat(m),
            Error::Io(m) => owned("IO error: ").concat(m),
            Error::ToolDefinition(m) => owned("tool definition error: ").concat(m),
            Error::Reconcile { path, detail } => owned("reconciliation failed for ").concat(
                path,
            ).concat(": ").concat(detail),
            Error::Daemon(m) => owned("daemon error: ").concat(m),
            Error::ProjectNotFound(p) => owned("project not found: ").concat(p),
            Error::PathNotFound(p) => owned("path does not exist: ").concat(p),
        }
    }
}

} // verus!
