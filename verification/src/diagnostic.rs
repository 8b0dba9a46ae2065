//! What a search reports beside its matches.

use vstd::prelude::*;
use vstd::string::*;

verus! {

/// A problem met during the walk. None of them stops it.
#[derive(Debug, PartialEq, Eq)]
pub enum Diagnostic {
    /// The path has no final component to take a name from.
    MissingName { path: String },
    /// The entry's name is not valid text.
    UndecodableName { name: String },
    /// The metadata lookup that the filter needs failed.
    Metadata { path: String, cause: String },
    /// The directory could not be listed.
    Listing { path: String, cause: String },
    /// The directory's listing failed at one entry.
    Iteration { path: String, cause: String },
}

impl Diagnostic {
    /// The one line that reports this problem.
    pub open spec fn text(self) -> Seq<char> {
        match self {
            Diagnostic::MissingName { path } => "Can't read file name for path '"@ + path@ + "'"@,
            Diagnostic::UndecodableName { name } => "Can't read UTF-8 string file name for '"@
                + name@ + "'"@,
            Diagnostic::Metadata { path, cause } => "Error reading '"@ + path@ + "': "@ + cause@,
            Diagnostic::Listing { path, cause } => "Can't list '"@ + path@ + "': "@ + cause@,
            Diagnostic::Iteration { path, cause } => "Can't iterate over '"@ + path@ + "': "@
                + cause@,
        }
    }

    /// A second copy of this problem.
    pub fn duplicate(&self) -> (copy: Diagnostic)
        ensures
            copy == *self,
    {
        match self {
            Diagnostic::MissingName { path } => Diagnostic::MissingName { path: path.clone() },
            Diagnostic::UndecodableName { name } => Diagnostic::UndecodableName {
                name: name.clone(),
            },
            Diagnostic::Metadata { path, cause } => Diagnostic::Metadata {
                path: path.clone(),
                cause: cause.clone(),
            },
            Diagnostic::Listing { path, cause } => Diagnostic::Listing {
                path: path.clone(),
                cause: cause.clone(),
            },
            Diagnostic::Iteration { path, cause } => Diagnostic::Iteration {
                path: path.clone(),
                cause: cause.clone(),
            },
        }
    }

    /// Writes the line that reports this problem.
    pub fn message(&self) -> (line: String)
        ensures
            line@ == self.text(),
    {
        match self {
            Diagnostic::MissingName { path } => {
                let mut line = String::from_str("Can't read file name for path '");
                line.append(path.as_str());
                line.append("'");
                line
            },
            Diagnostic::UndecodableName { name } => {
                let mut line = String::from_str("Can't read UTF-8 string file name for '");
                line.append(name.as_str());
                line.append("'");
                line
            },
            Diagnostic::Metadata { path, cause } => {
                let mut line = String::from_str("Error reading '");
                line.append(path.as_str());
                line.append("': ");
                line.append(cause.as_str());
                line
            },
            Diagnostic::Listing { path, cause } => {
                let mut line = String::from_str("Can't list '");
                line.append(path.as_str());
                line.append("': ");
                line.append(cause.as_str());
                line
            },
            Diagnostic::Iteration { path, cause } => {
                let mut line = String::from_str("Can't iterate over '");
                line.append(path.as_str());
                line.append("': ");
                line.append(cause.as_str());
                line
            },
        }
    }
}

/// Why a search did not start.
#[derive(Debug, PartialEq, Eq)]
pub enum SetupError {
    /// The pattern is no valid regular expression.
    InvalidPattern,
    /// The root directory does not exist.
    MissingRoot { dir: String },
    /// Whether the root directory exists could not be found out.
    UnreadableRoot { dir: String, cause: String },
}

impl SetupError {
    /// The message for the user.
    pub open spec fn text(self) -> Seq<char> {
        match self {
            SetupError::InvalidPattern => "Please provide a valid regex"@,
            SetupError::MissingRoot { dir } => dir@ + " directory doesn't exist"@,
            SetupError::UnreadableRoot { dir, cause } => "Can't open "@ + dir@ + ": "@ + cause@,
        }
    }

    /// Writes the message for the user.
    pub fn message(&self) -> (line: String)
        ensures
            line@ == self.text(),
    {
        match self {
            SetupError::InvalidPattern => String::from_str("Please provide a valid regex"),
            SetupError::MissingRoot { dir } => {
                let mut line = dir.clone();
                line.append(" directory doesn't exist");
                line
            },
            SetupError::UnreadableRoot { dir, cause } => {
                let mut line = String::from_str("Can't open ");
                line.append(dir.as_str());
                line.append(": ");
                line.append(cause.as_str());
                line
            },
        }
    }
}

/// One line of output, for one of the two streams.
#[derive(Debug, PartialEq, Eq)]
pub enum Emission {
    /// A selected path, for the output stream.
    Match(String),
    /// A problem, for the diagnostic stream.
    Problem(Diagnostic),
}

/// What an emission puts on which stream.
pub enum Printed {
    /// A line on the output stream.
    Match(Seq<char>),
    /// A line on the diagnostic stream.
    Problem(Seq<char>),
}

impl View for Emission {
    type V = Printed;

    open spec fn view(&self) -> Printed {
        match self {
            Emission::Match(line) => Printed::Match(line@),
            Emission::Problem(problem) => Printed::Problem(problem.text()),
        }
    }
}

impl Printed {
    /// The line, whichever stream it is for.
    pub open spec fn text(self) -> Seq<char> {
        match self {
            Printed::Match(line) => line,
            Printed::Problem(line) => line,
        }
    }
}

impl Emission {
    /// Whether the line belongs on the diagnostic stream.
    pub fn is_problem(&self) -> (yes: bool)
        ensures
            yes == (self@ is Problem),
    {
        match self {
            Emission::Match(_) => false,
            Emission::Problem(_) => true,
        }
    }

    /// Writes the line out.
    pub fn line(&self) -> (line: String)
        ensures
            line@ == self@.text(),
    {
        match self {
            Emission::Match(text) => text.clone(),
            Emission::Problem(problem) => problem.message(),
        }
    }
}

} // verus!
