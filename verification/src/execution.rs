use vstd::prelude::*;

verus! {

/// Why a run of an outside program gave no output.
#[derive(Debug, PartialEq, Eq, Structural, Clone, Copy)]
pub enum ExecuteError {
    /// The program could not be started.
    Spawn,
    /// The program was started, but its end could not be awaited.
    OutputWait,
    /// The program ran and reported failure.
    Execution,
}

/// The stream on which a program writes what is of interest.
#[derive(Debug, PartialEq, Eq, Structural, Clone, Copy)]
pub enum Handle {
    /// Standard output.
    Out,
    /// Standard error.
    Error,
}

/// How a run of an outside program went.
pub enum Run {
    /// The program could not be started.
    NotSpawned,
    /// The program was started, but waiting for it failed.
    NotAwaited,
    /// The program ended: whether it reported success, and what it wrote to
    /// its standard output.
    Exited { success: bool, stdout: Vec<u8> },
}

/// A command for an outside program: which program, which stream to capture
/// and which arguments.
pub trait Execution {
    /// The stream to capture.
    const HANDLE: Handle;

    /// The name of the program.
    fn program(&self) -> String;

    /// The arguments, in the order in which the program takes them.
    fn assemble(&mut self) -> Vec<String>;
}

impl ExecuteError {
    /// The name of the failure, as it is shown in messages.
    pub open spec fn name(self) -> Seq<char> {
        match self {
            ExecuteError::Spawn => "Spawn"@,
            ExecuteError::OutputWait => "OutputWait"@,
            ExecuteError::Execution => "Execution"@,
        }
    }

    /// The name of the failure, as it is shown in messages.
    pub fn to_text(&self) -> (text: String)
        ensures
            text@ == self.name(),
    {
        match self {
            ExecuteError::Spawn => "Spawn".to_owned(),
            ExecuteError::OutputWait => "OutputWait".to_owned(),
            ExecuteError::Execution => "Execution".to_owned(),
        }
    }
}

/// What a run amounts to: the captured output where the program ended and
/// reported success, else the failure that says how far the run got.
pub fn conclude(run: Run) -> (result: Result<Vec<u8>, ExecuteError>)
    ensures
        result == match run {
            Run::NotSpawned => Err::<Vec<u8>, ExecuteError>(ExecuteError::Spawn),
            Run::NotAwaited => Err(ExecuteError::OutputWait),
            Run::Exited { success, stdout } => if success {
                Ok(stdout)
            } else {
                Err(ExecuteError::Execution)
            },
        },
{
    match run {
        Run::NotSpawned => Err(ExecuteError::Spawn),
        Run::NotAwaited => Err(ExecuteError::OutputWait),
        Run::Exited { success, stdout } => {
            if success {
                Ok(stdout)
            } else {
                Err(ExecuteError::Execution)
            }
        },
    }
}

} // verus!
