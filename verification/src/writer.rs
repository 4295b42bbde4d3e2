//! The output sink's configuration: which file, if any, each of the two
//! channels goes to, and whether the file is opened appending or truncated.
//! Opening the files and writing through them is the surrounding process's
//! work; the builder only fixes what it must do.

use vstd::prelude::*;
use vstd::string::StringExecFns;

verus! {

use crate::parser::opt_view;

/// Where each output channel goes: `None` means the inherited stream; a path
/// means a file, truncated unless the matching append flag is set.
pub struct WriterBuilder {
    pub stdout_append: bool,
    pub stdout: Option<String>,
    pub stderr_append: bool,
    pub stderr: Option<String>,
}

impl Default for WriterBuilder {
    /// Both channels inherited.
    fn default() -> (r: Self)
        ensures
            r.stdout_append == false,
            r.stdout is None,
            r.stderr_append == false,
            r.stderr is None,
    {
        WriterBuilder { stdout_append: false, stdout: None, stderr_append: false, stderr: None }
    }
}

impl WriterBuilder {
    /// Sends stdout to `path`, truncating.
    pub fn stdout_new(self, path: &str) -> (r: Self)
        ensures
            r.stdout_append == false,
            opt_view(r.stdout) == Some(path@),
            r.stderr_append == self.stderr_append,
            r.stderr == self.stderr,
    {
        WriterBuilder { stdout_append: false, stdout: Some(String::from_str(path)), ..self }
    }

    /// Sends stdout to `path`, appending.
    pub fn stdout_append(self, path: &str) -> (r: Self)
        ensures
            r.stdout_append == true,
            opt_view(r.stdout) == Some(path@),
            r.stderr_append == self.stderr_append,
            r.stderr == self.stderr,
    {
        WriterBuilder { stdout_append: true, stdout: Some(String::from_str(path)), ..self }
    }

    /// Sends stderr to `path`, truncating.
    pub fn stderr_new(self, path: &str) -> (r: Self)
        ensures
            r.stderr_append == false,
            opt_view(r.stderr) == Some(path@),
            r.stdout_append == self.stdout_append,
            r.stdout == self.stdout,
    {
        WriterBuilder { stderr_append: false, stderr: Some(String::from_str(path)), ..self }
    }

    /// Sends stderr to `path`, appending.
    pub fn stderr_append(self, path: &str) -> (r: Self)
        ensures
            r.stderr_append == true,
            opt_view(r.stderr) == Some(path@),
            r.stdout_append == self.stdout_append,
            r.stdout == self.stdout,
    {
        WriterBuilder { stderr_append: true, stderr: Some(String::from_str(path)), ..self }
    }
}

} // verus!
