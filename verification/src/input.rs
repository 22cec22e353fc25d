//! Inputs: a file or standard input, and why reading one can fail.

use vstd::prelude::*;

verus! {

#[derive(Debug, Clone, PartialEq, Eq)]
pub struct Source {
    pub path: Option<String>,
    pub content: String,
}

/// Why an input could not be read; the causes of failed reads are kept as
/// their messages.
#[derive(Debug, Clone, PartialEq, Eq)]
pub enum InputError {
    EmptyInput,
    InvalidPath(String),
    ReadFailed { path: String, source: String },
    StdinReadFailed(String),
}

/// The source for what was read from `path` (`None`: standard input); empty
/// content is refused.
pub fn source_from(path: Option<String>, content: String) -> (r: Result<Source, InputError>)
    ensures
        content@.len() == 0 ==> (r matches Err(e) && e is EmptyInput),
        content@.len() > 0 ==> (r matches Ok(s) && s.content@ == content@ && s.path == path),
{
    if content.as_str().is_empty() {
        return Err(InputError::EmptyInput);
    }
    Ok(Source { path, content })
}

/// The message shown for an input error.
pub open spec fn input_error_message(e: InputError) -> Seq<char> {
    match e {
        InputError::EmptyInput => "input is empty"@,
        InputError::InvalidPath(p) => "'"@ + p@ + "' is not a regular file"@,
        InputError::ReadFailed { path, source } => "could not read '"@ + path@ + "': "@ + source@,
        InputError::StdinReadFailed(source) => "could not read stdin: "@ + source@,
    }
}

impl InputError {
    pub fn message(&self) -> (m: String)
        ensures
            m@ == input_error_message(*self),
    {
        match self {
            InputError::EmptyInput => "input is empty".to_owned(),
            InputError::InvalidPath(p) => {
                let mut m = "'".to_owned();
                m.append(p.as_str());
                m.append("' is not a regular file");
                m
            },
            InputError::ReadFailed { path, source } => {
                let mut m = "could not read '".to_owned();
                m.append(path.as_str());
                m.append("': ");
                m.append(source.as_str());
                m
            },
            InputError::StdinReadFailed(source) => {
                let mut m = "could not read stdin: ".to_owned();
                m.append(source.as_str());
                m
            },
        }
    }
}

} // verus!
