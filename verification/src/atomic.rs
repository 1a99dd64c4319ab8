//! Writing a file whole or not at all.
use vstd::prelude::*;

use crate::paths::{file_name, join_path, joined, last_name, parent, parent_of};
use crate::text::{dec, decimal, owned};

verus! {

/// A sibling of a file, on the same file system, for a process to write to.
pub open spec fn temp_sibling(path: Seq<char>, pid: u32) -> Seq<char> {
    let dir = match parent_of(path) {
        Some(d) => d,
        None => "."@,
    };
    let name = match last_name(path) {
        Some(n) => n,
        None => "artifact"@,
    };
    joined(dir, "."@ + name + ".sg-tmp-"@ + dec(pid as nat))
}

fn temp_of(path: &str, pid: u32) -> (r: String)
    ensures
        r@ == temp_sibling(path@, pid),
{
    let dir = match parent(path) {
        Some(d) => d,
        None => owned("."),
    };
    let name = match file_name(path) {
        Some(n) => n,
        None => owned("artifact"),
    };
    join_path(
        &dir,
        &owned(".").concat(&name).concat(".sg-tmp-").concat(&decimal(pid as u64)),
    )
}

/// A step of writing a file.
#[derive(Debug, PartialEq, Eq)]
pub enum WriteStep {
    /// Write the text to this file and have it stored, with the permissions of
    /// the file that it is for.
    WriteTemp { temp: String, text: String, like: String },
    /// Put the one in the place of the other, at once.
    Rename { from: String, to: String },
    /// Remove what was written.
    Remove(String),
    /// It is done, or it failed.
    Finished(Result<(), String>),
}

/// The model of a [`WriteStep`].
pub enum WriteStepView {
    WriteTemp { temp: Seq<char>, text: Seq<char>, like: Seq<char> },
    Rename { from: Seq<char>, to: Seq<char> },
    Remove(Seq<char>),
    Finished(Result<(), Seq<char>>),
}

impl View for WriteStep {
    type V = WriteStepView;

    open spec fn view(&self) -> WriteStepView {
        match self {
            WriteStep::WriteTemp { temp, text, like } => WriteStepView::WriteTemp {
                temp: temp@,
                text: text@,
                like: like@,
            },
            WriteStep::Rename { from, to } => WriteStepView::Rename { from: from@, to: to@ },
            WriteStep::Remove(p) => WriteStepView::Remove(p@),
            WriteStep::Finished(r) => WriteStepView::Finished(
                match r {
                    Ok(()) => Ok(()),
                    Err(e) => Err(e@),
                },
            ),
        }
    }
}

/// How to go on with writing a file after these results. What was written
/// beside it is removed when it cannot be put in place.
pub open spec fn write_step(
    path: Seq<char>,
    text: Seq<char>,
    pid: u32,
    seen: Seq<Result<(), String>>,
) -> WriteStepView {
    let temp = temp_sibling(path, pid);
    if seen.len() == 0 {
        WriteStepView::WriteTemp { temp, text, like: path }
    } else {
        match seen[0] {
            Err(e) => if seen.len() == 1 {
                WriteStepView::Remove(temp)
            } else {
                WriteStepView::Finished(Err(e@))
            },
            Ok(()) => if seen.len() == 1 {
                WriteStepView::Rename { from: temp, to: path }
            } else {
                match seen[1] {
                    Ok(()) => WriteStepView::Finished(Ok(())),
                    Err(e) => if seen.len() == 2 {
                        WriteStepView::Remove(temp)
                    } else {
                        WriteStepView::Finished(Err(e@))
                    },
                }
            },
        }
    }
}

/// How to go on with writing a file, after the results so far.
pub fn atomic_write(path: &str, text: &str, pid: u32, seen: &Vec<Result<(), String>>) -> (r:
    WriteStep)
    ensures
        r@ == write_step(path@, text@, pid, seen@),
{
    let temp = temp_of(path, pid);
    if seen.len() == 0 {
        return WriteStep::WriteTemp { temp, text: owned(text), like: owned(path) };
    }
    match &seen[0] {
        Err(e) => if seen.len() == 1 {
            WriteStep::Remove(temp)
        } else {
            WriteStep::Finished(Err(e.clone()))
        },
        Ok(()) => if seen.len() == 1 {
            WriteStep::Rename { from: temp, to: owned(path) }
        } else {
            match &seen[1] {
                Ok(()) => WriteStep::Finished(Ok(())),
                Err(e) => if seen.len() == 2 {
                    WriteStep::Remove(temp)
                } else {
                    WriteStep::Finished(Err(e.clone()))
                },
            }
        },
    }
}

/// The file itself is touched by one step only, which puts the whole text in
/// its place: it holds the old text or the new one, never a part of it.
pub proof fn lemma_file_is_whole(
    path: Seq<char>,
    text: Seq<char>,
    pid: u32,
    seen: Seq<Result<(), String>>,
)
    ensures
        match write_step(path, text, pid, seen) {
            WriteStepView::WriteTemp { temp, text: t, .. } => temp == temp_sibling(path, pid) && t
                == text,
            WriteStepView::Rename { from, to } => from == temp_sibling(path, pid) && to == path
                && seen.len() == 1 && seen[0] is Ok,
            WriteStepView::Remove(p) => p == temp_sibling(path, pid),
            WriteStepView::Finished(Ok(())) => seen.len() >= 2 && seen[0] is Ok && seen[1] is Ok,
            WriteStepView::Finished(Err(_)) => true,
        },
{
}

} // verus!
