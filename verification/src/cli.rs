//! The checks made on the directories given on the command line.

use vstd::prelude::*;
use vstd::string::StringExecFns;

verus! {

/// What the file system says of a path.
#[derive(Clone, Copy)]
pub struct PathStatus {
    pub exists: bool,
    pub is_dir: bool,
}

/// The directories given on the command line.
pub struct RustAstGenCliArgs {
    pub input_dir: String,
    pub output_dir: String,
}

/// Why the directories given on the command line cannot be used.
#[derive(Debug)]
pub enum CliError {
    /// The input directory does not exist.
    InputMissing(String),
    /// The input path is not a directory.
    InputNotDir(String),
    /// The output path exists and is not a directory.
    OutputNotDir(String),
}

impl CliError {
    /// The text that describes the error.
    pub open spec fn spec_message(&self) -> Seq<char> {
        match self {
            CliError::InputMissing(p) => "input path does not exist: "@ + p@,
            CliError::InputNotDir(p) => "input path is not a directory: "@ + p@,
            CliError::OutputNotDir(p) => "output path is not a directory: "@ + p@,
        }
    }

    /// The text that describes the error.
    pub fn message(&self) -> (res: String)
        ensures
            res@ == self.spec_message(),
    {
        let (mut m, p) = match self {
            CliError::InputMissing(p) => ("input path does not exist: ".to_owned(), p),
            CliError::InputNotDir(p) => ("input path is not a directory: ".to_owned(), p),
            CliError::OutputNotDir(p) => ("output path is not a directory: ".to_owned(), p),
        };
        m.append(p.as_str());
        m
    }
}

impl RustAstGenCliArgs {
    /// The input directory must exist and be a directory; the output path, if
    /// it exists, must be a directory.
    pub fn validate(&self, input: PathStatus, output: PathStatus) -> (res: Result<(), CliError>)
        ensures
            match res {
                Ok(()) => input.exists && input.is_dir && (output.exists ==> output.is_dir),
                Err(e) => if !input.exists {
                    e == CliError::InputMissing(self.input_dir)
                } else if !input.is_dir {
                    e == CliError::InputNotDir(self.input_dir)
                } else {
                    output.exists && !output.is_dir && e == CliError::OutputNotDir(self.output_dir)
                },
            },
    {
        if !input.exists {
            return Err(CliError::InputMissing(self.input_dir.clone()));
        }
        if !input.is_dir {
            return Err(CliError::InputNotDir(self.input_dir.clone()));
        }
        if output.exists && !output.is_dir {
            return Err(CliError::OutputNotDir(self.output_dir.clone()));
        }
        Ok(())
    }
}

} // verus!
