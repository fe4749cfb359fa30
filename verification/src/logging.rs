//! Logging.
use crate::text::wrap;
use vstd::prelude::*;
use vstd::string::StringExecFns;

verus! {

/// Takes log messages.
pub trait Logger: Send + Sync {
    fn log(&self, message: String);
}

/// A log file.
#[derive(Debug)]
pub struct FileLogger {
    pub file_path: String,
}

impl FileLogger {
    pub fn new(file_name: String) -> (r: Self)
        ensures
            r.file_path == file_name,
    {
        FileLogger { file_path: file_name }
    }

    /// The line that a message becomes, with the time in front.
    pub fn entry(&self, timestamp: &str, message: &str) -> (r: String)
        ensures
            r@ == "\r\n"@ + timestamp@ + ": "@ + message@,
    {
        let mut r = wrap("\r\n", timestamp, ": ");
        r.append(message);
        r
    }
}

} // verus!
