//! Writing the configuration: which step to try next, given how the last
//! one went. A step is tried without privileges first and with them only
//! after permission was denied.

use vstd::prelude::*;

verus! {

/// One step of writing a file.
#[derive(Debug, Clone, Copy, PartialEq, Eq, Structural)]
pub enum WriteStep {
    /// Create the directory that is to hold the file.
    CreateParent,
    /// Create that directory with privileges.
    ElevatedCreateParent,
    /// Write the file.
    DirectWrite,
    /// Write the file with privileges.
    ElevatedWrite,
}

/// How a step went.
#[derive(Debug, Clone, Copy, PartialEq, Eq, Structural)]
pub enum StepOutcome {
    /// It was done.
    Done,
    /// Permission was denied.
    Denied,
    /// It failed for another reason.
    Failed,
}

/// Where the writing stands after a step.
#[derive(Debug, Clone, Copy, PartialEq, Eq, Structural)]
pub enum WriteProgress {
    /// This step is to be tried next.
    Next(WriteStep),
    /// The file is written.
    Finished,
    /// The writing failed at this step, for good.
    Fatal(WriteStep),
}

/// Whether `step` runs with privileges.
pub open spec fn is_elevated(step: WriteStep) -> bool {
    step == WriteStep::ElevatedCreateParent || step == WriteStep::ElevatedWrite
}

/// How many steps can still follow `step`.
pub open spec fn steps_left(step: WriteStep) -> nat {
    match step {
        WriteStep::CreateParent => 3,
        WriteStep::ElevatedCreateParent => 2,
        WriteStep::DirectWrite => 1,
        WriteStep::ElevatedWrite => 0,
    }
}

/// The step to begin with: the directory first, where it is missing.
pub open spec fn first_step_of(parent_exists: bool) -> WriteStep {
    if parent_exists {
        WriteStep::DirectWrite
    } else {
        WriteStep::CreateParent
    }
}

/// Where the writing stands after `step` went as `outcome` says.
pub open spec fn progress_of(step: WriteStep, outcome: StepOutcome) -> WriteProgress {
    match (step, outcome) {
        (WriteStep::CreateParent, StepOutcome::Done) => WriteProgress::Next(WriteStep::DirectWrite),
        (WriteStep::CreateParent, StepOutcome::Denied) => WriteProgress::Next(
            WriteStep::ElevatedCreateParent,
        ),
        (WriteStep::ElevatedCreateParent, StepOutcome::Done) => WriteProgress::Next(
            WriteStep::DirectWrite,
        ),
        (WriteStep::DirectWrite, StepOutcome::Done) => WriteProgress::Finished,
        (WriteStep::DirectWrite, StepOutcome::Denied) => WriteProgress::Next(
            WriteStep::ElevatedWrite,
        ),
        (WriteStep::ElevatedWrite, StepOutcome::Done) => WriteProgress::Finished,
        (_, _) => WriteProgress::Fatal(step),
    }
}

/// The step to begin with.
pub fn first_step(parent_exists: bool) -> (step: WriteStep)
    ensures
        step == first_step_of(parent_exists),
{
    if parent_exists {
        WriteStep::DirectWrite
    } else {
        WriteStep::CreateParent
    }
}

/// Where the writing stands after `step` went as `outcome` says.
pub fn next_step(step: WriteStep, outcome: StepOutcome) -> (progress: WriteProgress)
    ensures
        progress == progress_of(step, outcome),
{
    match outcome {
        StepOutcome::Done => match step {
            WriteStep::CreateParent | WriteStep::ElevatedCreateParent => WriteProgress::Next(
                WriteStep::DirectWrite,
            ),
            WriteStep::DirectWrite | WriteStep::ElevatedWrite => WriteProgress::Finished,
        },
        StepOutcome::Denied => match step {
            WriteStep::CreateParent => WriteProgress::Next(WriteStep::ElevatedCreateParent),
            WriteStep::DirectWrite => WriteProgress::Next(WriteStep::ElevatedWrite),
            _ => WriteProgress::Fatal(step),
        },
        StepOutcome::Failed => WriteProgress::Fatal(step),
    }
}

/// The writing ends: each step leaves fewer steps to follow. A step with
/// privileges follows only the same step without them, after permission
/// was denied; and the file counts as written only after a write was done.
pub proof fn lemma_write_protocol(step: WriteStep, outcome: StepOutcome)
    ensures
        match progress_of(step, outcome) {
            WriteProgress::Next(next) => {
                &&& steps_left(next) < steps_left(step)
                &&& is_elevated(next) ==> outcome == StepOutcome::Denied && !is_elevated(step)
                &&& !is_elevated(next) ==> outcome == StepOutcome::Done
            },
            WriteProgress::Finished => outcome == StepOutcome::Done && (step
                == WriteStep::DirectWrite || step == WriteStep::ElevatedWrite),
            WriteProgress::Fatal(at) => at == step && outcome != StepOutcome::Done,
        },
{
}

} // verus!
