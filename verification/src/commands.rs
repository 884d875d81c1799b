use crate::execution::ExecuteError;
use crate::grouping::{merge, merged, views, Position, Slider, Source};
use crate::priming::PrimedView;
use crate::probing::{
    probe_views, same_dimensions, same_height, same_width, Probed, ProbedDimensions, ProbedView,
};
use crate::stacking::{classify, is_output_path, Stack, StackIdentity, Stacker};
use vstd::prelude::*;

verus! {

/// Whether a request was carried out.
#[derive(Debug, PartialEq, Eq, Structural, Clone, Copy)]
pub enum Status {
    Success,
    Failed,
}

/// The answer to a request for a composition.
#[derive(Debug)]
pub struct ProcessResult {
    pub status: Status,
    pub message: String,
}

/// The answer to a request for a probe. Where the probe failed, `probed` is
/// the record of an unknown file.
#[derive(Debug)]
pub struct ProbeResult {
    pub status: Status,
    pub message: String,
    pub probed: Probed,
}

/// Why a composition is not attempted.
#[derive(Debug, PartialEq, Eq, Structural, Clone, Copy)]
pub enum Rejection {
    /// Fewer than two clips have a source: there is nothing to put
    /// together.
    TooFewClips,
    /// A column needs files of one width.
    MismatchedWidth,
    /// A row needs files of one height.
    MismatchedHeight,
    /// A grid needs files of one width and one height.
    MismatchedDimensions,
}

impl Rejection {
    /// The message that tells the user of the rejection.
    pub open spec fn text(self) -> Seq<char> {
        match self {
            Rejection::TooFewClips => "Nothing to stack: fewer than two clips have a source"@,
            Rejection::MismatchedWidth => "Unable to process vertical stack with mismatched width"@,
            Rejection::MismatchedHeight => "Unable to process horizontal stack with mismatched height"@,
            Rejection::MismatchedDimensions => "Unable to process X stack with mismatched dimensions"@,
        }
    }

    /// The message that tells the user of the rejection.
    pub fn message(&self) -> (message: String)
        ensures
            message@ == self.text(),
    {
        match self {
            Rejection::TooFewClips => "Nothing to stack: fewer than two clips have a source".to_owned(),
            Rejection::MismatchedWidth => "Unable to process vertical stack with mismatched width".to_owned(),
            Rejection::MismatchedHeight => "Unable to process horizontal stack with mismatched height".to_owned(),
            Rejection::MismatchedDimensions => "Unable to process X stack with mismatched dimensions".to_owned(),
        }
    }
}

/// What a mode asks of the probed files, and which rejection follows where
/// they do not meet it.
pub open spec fn mismatch(stack: Stack, probes: Seq<ProbedView>) -> Option<Rejection> {
    match stack {
        Stack::Vertical => if same_width(probes) {
            None
        } else {
            Some(Rejection::MismatchedWidth)
        },
        Stack::Horizontal => if same_height(probes) {
            None
        } else {
            Some(Rejection::MismatchedHeight)
        },
        Stack::X => if same_dimensions(probes) {
            None
        } else {
            Some(Rejection::MismatchedDimensions)
        },
    }
}

/// Why clips with these probes are not composed, if they are not: too few
/// clips, or files that do not fit the mode of the clips.
pub open spec fn rejection(clips: Seq<PrimedView>, probes: Seq<ProbedView>) -> Option<Rejection> {
    if clips.len() < 2 {
        Some(Rejection::TooFewClips)
    } else {
        mismatch(classify(clips), probes)
    }
}

/// Holds the probed files against what the mode asks of them.
pub fn check_dimensions(stack: Stack, probes: &Vec<Probed>) -> (result: Result<(), Rejection>)
    ensures
        match result {
            Ok(_) => mismatch(stack, probe_views(probes@)) is None,
            Err(e) => mismatch(stack, probe_views(probes@)) == Some(e),
        },
{
    match stack {
        Stack::Vertical => {
            if !probes.is_same_width() {
                return Err(Rejection::MismatchedWidth);
            }
        },
        Stack::Horizontal => {
            if !probes.is_same_height() {
                return Err(Rejection::MismatchedHeight);
            }
        },
        Stack::X => {
            if !probes.is_same_dimensions() {
                return Err(Rejection::MismatchedDimensions);
            }
        },
    }
    Ok(())
}

/// Everything that can be decided of a request before the composition
/// runs: merges the attribute lists into clips, rejects the request where
/// fewer than two clips are left or the probed files do not fit the mode,
/// and else gives the composition, which writes a file with a fresh name in
/// the directory `output`.
pub fn prepare(
    positions: Vec<Position>,
    sources: Vec<Source>,
    sliders: Vec<Option<Slider>>,
    probes: Vec<Probed>,
    output: &str,
) -> (result: Result<Stacker, Rejection>)
    ensures
        match result {
            Ok(stacker) => {
                &&& rejection(merged(positions@, sources@, sliders@), probe_views(probes@)) is None
                &&& views(stacker.clips()) == merged(positions@, sources@, sliders@)
                &&& stacker.mode() == classify(merged(positions@, sources@, sliders@))
                &&& is_output_path(output@, stacker.destination())
            },
            Err(e) => rejection(merged(positions@, sources@, sliders@), probe_views(probes@))
                == Some(e),
        },
{
    let primed = merge(positions, sources, sliders);
    if primed.len() < 2 {
        return Err(Rejection::TooFewClips);
    }
    match check_dimensions(primed.identify(), &probes) {
        Err(e) => Err(e),
        Ok(_) => Ok(Stacker::new(primed, output)),
    }
}

/// The answer to a request that was rejected.
pub fn rejected(rejection: Rejection) -> (result: ProcessResult)
    ensures
        result.status == Status::Failed,
        result.message@ == rejection.text(),
{
    ProcessResult { status: Status::Failed, message: rejection.message() }
}

/// The answer to a request whose composition ran: where it went well, the
/// path of the file that it wrote, else the name of what went wrong.
pub fn stacked(path: &str, outcome: Result<Vec<u8>, ExecuteError>) -> (result: ProcessResult)
    ensures
        match outcome {
            Ok(_) => result.status == Status::Success && result.message@
                == "Saved stacked file to: "@ + path@,
            Err(e) => result.status == Status::Failed && result.message@ == "Stacking failed: "@
                + e.name(),
        },
{
    match outcome {
        Ok(_) => {
            let mut message = "Saved stacked file to: ".to_owned();
            message.append(path);
            ProcessResult { status: Status::Success, message }
        },
        Err(e) => {
            let mut message = "Stacking failed: ".to_owned();
            message.append(e.to_text().as_str());
            ProcessResult { status: Status::Failed, message }
        },
    }
}

/// How a probe went.
pub enum Probing {
    /// The prober did not run or reported failure.
    NotRun(ExecuteError),
    /// The prober ran, but what it wrote could not be read; the text says
    /// why.
    Unreadable(String),
    /// The prober ran and this is what it found.
    Read(Probed),
}

/// The answer to a request for a probe.
pub fn probed(probing: Probing) -> (result: ProbeResult)
    ensures
        match probing {
            Probing::Read(found) => {
                &&& result.status == Status::Success
                &&& result.message@ == "Succesful probe"@
                &&& result.probed == found
            },
            Probing::Unreadable(why) => {
                &&& result.status == Status::Failed
                &&& result.message@ == "Failed probing: "@ + why@
                &&& result.probed@.is_unknown()
            },
            Probing::NotRun(e) => {
                &&& result.status == Status::Failed
                &&& result.message@ == "Failed executing FFprobe: "@ + e.name()
                &&& result.probed@.is_unknown()
            },
        },
{
    match probing {
        Probing::Read(found) => ProbeResult {
            status: Status::Success,
            message: "Succesful probe".to_owned(),
            probed: found,
        },
        Probing::Unreadable(why) => {
            let mut message = "Failed probing: ".to_owned();
            message.append(why.as_str());
            ProbeResult { status: Status::Failed, message, probed: Probed::default() }
        },
        Probing::NotRun(e) => {
            let mut message = "Failed executing FFprobe: ".to_owned();
            message.append(e.to_text().as_str());
            ProbeResult { status: Status::Failed, message, probed: Probed::default() }
        },
    }
}

} // verus!
