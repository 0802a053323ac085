use vstd::prelude::*;

verus! {

/// A path argument that does not name an existing regular file.
pub enum ArgError {
    NotAFile(String),
}

impl ArgError {
    /// The message shown for the error.
    pub fn message(&self) -> (r: String)
        ensures
            match self {
                ArgError::NotAFile(p) => r@ == "The specified ["@ + p@
                    + "] path does not exist or is not a file"@,
            },
    {
        match self {
            ArgError::NotAFile(p) => {
                let mut m = "The specified [".to_owned();
                m.append(p.as_str());
                m.append("] path does not exist or is not a file");
                m
            },
        }
    }
}

/// Accepts a path argument that names a regular file, as `is_file` reports
/// it, and rejects any other.
pub fn value_parser_for_pathbuf(path_str: &str, is_file: bool) -> (r: Result<String, ArgError>)
    ensures
        is_file ==> (r matches Ok(p) && p@ == path_str@),
        !is_file ==> (r matches Err(ArgError::NotAFile(p)) && p@ == path_str@),
{
    if is_file {
        Ok(path_str.to_owned())
    } else {
        Err(ArgError::NotAFile(path_str.to_owned()))
    }
}

} // verus!
