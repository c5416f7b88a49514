//! The error type of the library.
//!
//! Every variant carries enough context to render one descriptive line;
//! `message` produces that line.

use vstd::prelude::*;

verus! {

#[derive(Debug)]
pub enum MyError {
    /// A tokenizer could not be initialized.
    TokenizerError { tokenizer: String, error: String },
    /// A string could not be parsed as a number.
    ParseStringError { from: String, to: String, error: String },
    /// A directory argument does not exist.
    DirNotExistError { dir: String },
    /// A file argument does not exist.
    FileNotExistError { file: String },
    /// A command-line parameter is missing or malformed.
    ParaError { para: String },
    /// An input/output operation failed.
    IoError { error: String },
}

impl MyError {
    /// The single human-readable line that describes this error.
    pub open spec fn message_seq(&self) -> Seq<char> {
        match self {
            MyError::TokenizerError { tokenizer, error } => "Error - Initialize "@ + tokenizer@
                + " tokenizer: "@ + error@,
            MyError::ParseStringError { from, to, error } => "Error - parse "@ + from@ + " -> "@
                + to@ + ": "@ + error@,
            MyError::DirNotExistError { dir } => "Error - "@ + dir@ + " does not exist"@,
            MyError::FileNotExistError { file } => "Error - "@ + file@ + " does not exist"@,
            MyError::ParaError { para } => "Error - "@ + para@,
            MyError::IoError { error: _ } => "I/O error occurred"@,
        }
    }

    /// Renders the error as one line of text.
    pub fn message(&self) -> (r: String)
        ensures
            r@ == self.message_seq(),
    {
        let mut s = String::new();
        match self {
            MyError::TokenizerError { tokenizer, error } => {
                s.append("Error - Initialize ");
                s.append(tokenizer.as_str());
                s.append(" tokenizer: ");
                s.append(error.as_str());
            },
            MyError::ParseStringError { from, to, error } => {
                s.append("Error - parse ");
                s.append(from.as_str());
                s.append(" -> ");
                s.append(to.as_str());
                s.append(": ");
                s.append(error.as_str());
            },
            MyError::DirNotExistError { dir } => {
                s.append("Error - ");
                s.append(dir.as_str());
                s.append(" does not exist");
            },
            MyError::FileNotExistError { file } => {
                s.append("Error - ");
                s.append(file.as_str());
                s.append(" does not exist");
            },
            MyError::ParaError { para } => {
                s.append("Error - ");
                s.append(para.as_str());
            },
            MyError::IoError { error: _ } => {
                s.append("I/O error occurred");
            },
        }
        proof {
            assert(s@ =~= self.message_seq());
        }
        s
    }
}

} // verus!
