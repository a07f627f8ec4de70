//! The command that is run when a new release is detected.
use vstd::prelude::*;

verus! {

/// A shell program handed to `sh -c` when a repository gets a new release.
pub struct Executor {
    command: String,
}

impl View for Executor {
    type V = Seq<char>;

    /// The shell program.
    closed spec fn view(&self) -> Seq<char> {
        self.command@
    }
}

impl Executor {
    pub fn new(command: String) -> (executor: Self)
        ensures
            executor@ == command@,
    {
        Executor { command }
    }

    /// The shell program that this executor runs, verbatim.
    pub fn command(&self) -> (command: &str)
        ensures
            command@ == self@,
    {
        self.command.as_str()
    }
}

} // verus!
