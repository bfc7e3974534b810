//! The failures that the todo engine reports.

use vstd::prelude::*;

verus! {

/// What went wrong in loading, editing, saving or launching an editor.
#[derive(Clone, Debug, PartialEq, Eq)]
pub enum TodoError {
    /// The storage file does not exist.
    NotFound,
    /// The storage file is not valid UTF-8.
    DecodeError,
    /// The storage file could not be created or written.
    IoWriteFailure,
    /// A position is below 1 or beyond the end of the list.
    IndexOutOfRange,
    /// An argument that should be an integer is not one, or is missing.
    InvalidArgument,
    /// The word in verb position names no known action.
    UnknownVerb(String),
    /// The external editor ended with this non-zero status.
    EditorFailed(i32),
    /// The external editor could not be started.
    SpawnFailed,
}

/// The words that tell the user about `e`.
pub open spec fn message_of(e: TodoError) -> Seq<char> {
    match e {
        TodoError::NotFound => "no todos file was found"@,
        TodoError::DecodeError => "the todos file is not valid UTF-8"@,
        TodoError::IoWriteFailure => "couldn't update your todos file"@,
        TodoError::IndexOutOfRange => "please choose a number that's in the list"@,
        TodoError::InvalidArgument => "please give a todo number"@,
        TodoError::UnknownVerb(v) => "unknown verb '"@ + v@ + "'"@,
        TodoError::EditorFailed(_) => "editor exited with non-zero status code"@,
        TodoError::SpawnFailed => "failed to execute editor"@,
    }
}

impl TodoError {
    /// The words that tell the user about this error.
    pub fn message(&self) -> (r: String)
        ensures
            r@ == message_of(*self),
    {
        match self {
            TodoError::NotFound => "no todos file was found".to_owned(),
            TodoError::DecodeError => "the todos file is not valid UTF-8".to_owned(),
            TodoError::IoWriteFailure => "couldn't update your todos file".to_owned(),
            TodoError::IndexOutOfRange => "please choose a number that's in the list".to_owned(),
            TodoError::InvalidArgument => "please give a todo number".to_owned(),
            TodoError::UnknownVerb(v) => {
                let mut m = "unknown verb '".to_owned();
                m.append(v.as_str());
                m.append("'");
                m
            },
            TodoError::EditorFailed(_) => "editor exited with non-zero status code".to_owned(),
            TodoError::SpawnFailed => "failed to execute editor".to_owned(),
        }
    }
}

} // verus!
