use vstd::prelude::*;
use vstd::string::StringExecFns;

verus! {

/// A failure of one processing run: the path it concerns, where there is one,
/// and a description of the underlying I/O failure.
#[derive(Debug)]
pub struct Error {
    pub path: Option<String>,
    pub reason: String,
}

/// The text an error is shown as: `"<path>: <reason>"`, or the reason alone.
pub open spec fn rendered(path: Option<String>, reason: Seq<char>) -> Seq<char> {
    match path {
        Some(p) => p@ + ": "@ + reason,
        None => reason,
    }
}

impl Error {
    /// An error tied to the file at `path`.
    pub fn for_path(path: String, reason: String) -> (r: Error)
        ensures
            r.path == Some(path),
            r.reason == reason,
    {
        Error { path: Some(path), reason }
    }

    /// An error that no single path accounts for.
    pub fn general(reason: String) -> (r: Error)
        ensures
            r.path is None,
            r.reason == reason,
    {
        Error { path: None, reason }
    }

    /// Renders the error for display.
    pub fn message(&self) -> (r: String)
        ensures
            r@ == rendered(self.path, self.reason@),
    {
        match &self.path {
            Some(p) => p.clone().concat(": ").concat(self.reason.as_str()),
            None => self.reason.clone(),
        }
    }
}

} // verus!
