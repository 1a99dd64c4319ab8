//! The record of what was rewritten, so that it can be undone.
use vstd::prelude::*;

use crate::text::{contains, has, lower, to_lower};

verus! {

/// One rewrite of one field.
#[derive(Debug, PartialEq, Eq)]
pub struct ReconcileAction {
    pub tool_name: String,
    pub file_path: String,
    pub field: String,
    /// The format of the file, which decides how it is rewritten back.
    pub format: String,
    pub old_value: String,
    pub new_value: String,
}

/// The model of a [`ReconcileAction`].
pub struct ActionView {
    pub tool_name: Seq<char>,
    pub file_path: Seq<char>,
    pub field: Seq<char>,
    pub format: Seq<char>,
    pub old_value: Seq<char>,
    pub new_value: Seq<char>,
}

impl View for ReconcileAction {
    type V = ActionView;

    open spec fn view(&self) -> ActionView {
        ActionView {
            tool_name: self.tool_name@,
            file_path: self.file_path@,
            field: self.field@,
            format: self.format@,
            old_value: self.old_value@,
            new_value: self.new_value@,
        }
    }
}

impl Clone for ReconcileAction {
    fn clone(&self) -> (r: Self)
        ensures
            r@ == self@,
    {
        ReconcileAction {
            tool_name: self.tool_name.clone(),
            file_path: self.file_path.clone(),
            field: self.field.clone(),
            format: self.format.clone(),
            old_value: self.old_value.clone(),
            new_value: self.new_value.clone(),
        }
    }
}

/// A recorded rewrite.
#[derive(Debug)]
pub struct LogEntry {
    pub id: i64,
    pub timestamp: String,
    pub tool_name: String,
    pub file_path: String,
    pub field: String,
    pub format: String,
    pub old_value: String,
    pub new_value: String,
    /// When it was undone, if it was.
    pub undone_at: Option<String>,
}

impl LogEntry {
    /// The rewrite that the entry records.
    pub open spec fn action(self) -> ActionView {
        ActionView {
            tool_name: self.tool_name@,
            file_path: self.file_path@,
            field: self.field@,
            format: self.format@,
            old_value: self.old_value@,
            new_value: self.new_value@,
        }
    }

    /// The entry for a rewrite that has just been recorded.
    pub fn of(action: &ReconcileAction, id: i64, timestamp: String) -> (r: LogEntry)
        ensures
            r.action() == action@,
            r.id == id,
            r.timestamp == timestamp,
            r.undone_at is None,
    {
        LogEntry {
            id,
            timestamp,
            tool_name: action.tool_name.clone(),
            file_path: action.file_path.clone(),
            field: action.field.clone(),
            format: action.format.clone(),
            old_value: action.old_value.clone(),
            new_value: action.new_value.clone(),
            undone_at: None,
        }
    }
}

/// What a database says of a column that a table has already.
pub open spec fn names_existing_column(message: Seq<char>) -> bool {
    has(lower(message), "duplicate column"@) || has(lower(message), "already exists"@)
}

/// A column was not added because the table has it already, by the words of the
/// database: that is no error.
pub fn column_exists(message: &str) -> (r: bool)
    ensures
        r == names_existing_column(message@),
{
    let m = to_lower(message);
    contains(&m, "duplicate column") || contains(&m, "already exists")
}

} // verus!
