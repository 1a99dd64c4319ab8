//! Requests to the outside and what came of them.
use vstd::prelude::*;

use crate::migrate::types::{EnvOverrideRecord, ErrorView, MigrateError, RecordView};
use crate::text::{owned, views};

verus! {

/// One thing to be done or looked up outside.
#[allow(inconsistent_fields)]
#[derive(Debug, PartialEq, Eq)]
pub enum Request {
    /// Is there anything at the path, following symlinks?
    Exists { path: String },
    /// Create a directory and its parents.
    CreateDirs { path: String },
    /// Write a file.
    Write { path: String, text: String },
    /// Rename a file or a directory.
    Rename { from: String, to: String },
    /// Put a symlink at `link` that points at `target`.
    Symlink { target: String, link: String },
    /// Copy a file.
    CopyFile { from: String, to: String },
    /// Remove a file or a symlink.
    RemoveFile { path: String },
    /// Is there anything at the path, a dangling symlink included?
    Present { path: String },
    /// Is there a directory at the path?
    IsDir { path: String },
    /// Remove a directory with all that is in it.
    RemoveTree { path: String },
    /// Replace the path `old` by `new` in a field of a config file.
    RewriteField { path: String, field: String, format: String, old: String, new: String },
    /// Run the service manager with these arguments.
    Systemctl { args: Vec<String> },
    /// Take back an environment override.
    Uninstall { record: EnvOverrideRecord },
}

/// The model of a [`Request`].
#[allow(inconsistent_fields)]
pub enum Op {
    Exists { path: Seq<char> },
    CreateDirs { path: Seq<char> },
    Write { path: Seq<char>, text: Seq<char> },
    Rename { from: Seq<char>, to: Seq<char> },
    Symlink { target: Seq<char>, link: Seq<char> },
    CopyFile { from: Seq<char>, to: Seq<char> },
    RemoveFile { path: Seq<char> },
    Present { path: Seq<char> },
    IsDir { path: Seq<char> },
    RemoveTree { path: Seq<char> },
    RewriteField {
        path: Seq<char>,
        field: Seq<char>,
        format: Seq<char>,
        old: Seq<char>,
        new: Seq<char>,
    },
    Systemctl { args: Seq<Seq<char>> },
    Uninstall { record: RecordView },
}

impl View for Request {
    type V = Op;

    open spec fn view(&self) -> Op {
        match self {
            Request::Exists { path } => Op::Exists { path: path@ },
            Request::CreateDirs { path } => Op::CreateDirs { path: path@ },
            Request::Write { path, text } => Op::Write { path: path@, text: text@ },
            Request::Rename { from, to } => Op::Rename { from: from@, to: to@ },
            Request::Symlink { target, link } => Op::Symlink { target: target@, link: link@ },
            Request::CopyFile { from, to } => Op::CopyFile { from: from@, to: to@ },
            Request::RemoveFile { path } => Op::RemoveFile { path: path@ },
            Request::Present { path } => Op::Present { path: path@ },
            Request::IsDir { path } => Op::IsDir { path: path@ },
            Request::RemoveTree { path } => Op::RemoveTree { path: path@ },
            Request::RewriteField { path, field, format, old, new } => Op::RewriteField {
                path: path@,
                field: field@,
                format: format@,
                old: old@,
                new: new@,
            },
            Request::Systemctl { args } => Op::Systemctl { args: views(args@) },
            Request::Uninstall { record } => Op::Uninstall { record: record@ },
        }
    }
}

/// What came of a request.
#[derive(Debug)]
pub enum Reply {
    /// Yes, or done.
    Yes,
    /// No, or done without any effect.
    No,
    /// It failed, with this message.
    Failed { message: String },
    /// The program exited with an error.
    Exited { code: Option<i32>, stderr: String },
    /// A backend failed.
    Broken { error: MigrateError },
}

/// The model of a [`Reply`].
pub enum Answer {
    Yes,
    No,
    Failed { message: Seq<char> },
    Exited { code: Option<i32>, stderr: Seq<char> },
    Broken { error: ErrorView },
}

impl View for Reply {
    type V = Answer;

    open spec fn view(&self) -> Answer {
        match self {
            Reply::Yes => Answer::Yes,
            Reply::No => Answer::No,
            Reply::Failed { message } => Answer::Failed { message: message@ },
            Reply::Exited { code, stderr } => Answer::Exited { code: *code, stderr: stderr@ },
            Reply::Broken { error } => Answer::Broken { error: error@ },
        }
    }
}

impl Answer {
    /// The request was carried out without an error.
    pub open spec fn fine(self) -> bool {
        self == Answer::Yes || self == Answer::No
    }

    /// The failure as an error.
    pub open spec fn error(self) -> ErrorView {
        match self {
            Answer::Broken { error } => error,
            _ => ErrorView::Io(self.complaint()),
        }
    }

    /// Why the request failed.
    pub open spec fn complaint(self) -> Seq<char> {
        match self {
            Answer::Failed { message } => message,
            Answer::Exited { stderr, .. } => stderr,
            Answer::Broken { error } => error.text(),
            _ => "no effect"@,
        }
    }
}

impl Reply {
    /// The answer is yes.
    pub fn yes(&self) -> (r: bool)
        ensures
            r == (self@ == Answer::Yes),
    {
        match self {
            Reply::Yes => true,
            _ => false,
        }
    }

    /// The request was carried out without an error.
    pub fn ok(&self) -> (r: bool)
        ensures
            r == self@.fine(),
    {
        match self {
            Reply::Yes => true,
            Reply::No => true,
            _ => false,
        }
    }

    /// Why the request failed.
    pub fn why(&self) -> (r: String)
        ensures
            r@ == self@.complaint(),
    {
        match self {
            Reply::Failed { message } => message.clone(),
            Reply::Exited { stderr, .. } => stderr.clone(),
            Reply::Broken { error } => error.message(),
            _ => owned("no effect"),
        }
    }
}

impl Reply {
    /// The failure as an error.
    pub fn into_error(&self) -> (r: MigrateError)
        ensures
            r@ == self@.error(),
    {
        match self {
            Reply::Broken { error } => error.clone(),
            _ => MigrateError::Io(self.why()),
        }
    }
}

/// What a procedure does next, given all the answers it has had so far.
#[derive(Debug)]
pub enum Step<T> {
    /// Ask this, and come back with the answer.
    Ask(Request),
    /// The procedure is done.
    Give(T),
    /// The procedure has failed.
    Fail(MigrateError),
}

/// The model of a [`Step`].
pub enum Plan<V> {
    Ask(Op),
    Give(V),
    Fail(ErrorView),
}

impl<T: View> View for Step<T> {
    type V = Plan<T::V>;

    open spec fn view(&self) -> Plan<T::V> {
        match self {
            Step::Ask(r) => Plan::Ask(r@),
            Step::Give(t) => Plan::Give(t@),
            Step::Fail(e) => Plan::Fail(e@),
        }
    }
}

} // verus!
