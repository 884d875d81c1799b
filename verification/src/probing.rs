use crate::execution::{Execution, Handle};
use vstd::prelude::*;

verus! {

/// What a probe found out about a media file. `duration` is in whole
/// seconds.
#[derive(Debug, Clone)]
pub struct Probed {
    pub filename: String,
    pub duration: u32,
    pub height: u16,
    pub width: u16,
}

/// The mathematical value of a [`Probed`].
pub struct ProbedView {
    pub filename: Seq<char>,
    pub duration: u32,
    pub height: u16,
    pub width: u16,
}

impl View for Probed {
    type V = ProbedView;

    open spec fn view(&self) -> ProbedView {
        ProbedView {
            filename: self.filename@,
            duration: self.duration,
            height: self.height,
            width: self.width,
        }
    }
}

impl ProbedView {
    /// The record that stands for a file of which nothing is known: no
    /// name, no length, no size.
    pub open spec fn is_unknown(self) -> bool {
        self.filename.len() == 0 && self.duration == 0 && self.height == 0 && self.width == 0
    }
}

impl Default for Probed {
    fn default() -> (probed: Probed)
        ensures
            probed@.is_unknown(),
    {
        Probed { filename: String::new(), duration: 0, height: 0, width: 0 }
    }
}

impl Probed {
    /// Whether this is the record of a file of which nothing is known.
    pub fn is_unknown(&self) -> (unknown: bool)
        ensures
            unknown == self@.is_unknown(),
    {
        self.filename.as_str().is_empty() && self.duration == 0 && self.height == 0 && self.width
            == 0
    }
}

/// A probe of one media file.
pub struct Probe {
    input: String,
}

impl Probe {
    /// The path of the file to probe.
    pub closed spec fn target(&self) -> Seq<char> {
        self.input@
    }

    pub fn new(input: &str) -> (probe: Probe)
        ensures
            probe.target() == input@,
    {
        Probe { input: input.to_owned() }
    }
}

/// The arguments of a probe of the file `input`: quiet, JSON output, the
/// format and the streams, of the streams only the first video stream.
pub open spec fn probe_args(input: Seq<char>) -> Seq<Seq<char>> {
    seq![
        "-v"@,
        "quiet"@,
        "-print_format"@,
        "json"@,
        "-show_format"@,
        "-show_streams"@,
        "-select_streams"@,
        "v:0"@,
        input,
    ]
}

impl Execution for Probe {
    // FFprobe writes what it found to standard output.
    const HANDLE: Handle = Handle::Out;

    fn program(&self) -> (name: String)
        ensures
            name@ == "ffprobe"@,
    {
        "ffprobe".to_owned()
    }

    fn assemble(&mut self) -> (args: Vec<String>)
        ensures
            final(self).target() == old(self).target(),
            args@.map_values(|s: String| s@) == probe_args(old(self).target()),
    {
        let mut args: Vec<String> = Vec::new();
        args.push("-v".to_owned());
        args.push("quiet".to_owned());
        args.push("-print_format".to_owned());
        args.push("json".to_owned());
        args.push("-show_format".to_owned());
        args.push("-show_streams".to_owned());
        args.push("-select_streams".to_owned());
        args.push("v:0".to_owned());
        args.push(self.input.clone());
        args
    }
}

/// The views of a list of probe records.
pub open spec fn probe_views(probes: Seq<Probed>) -> Seq<ProbedView> {
    probes.map_values(|p: Probed| p@)
}

/// Two records or more can only be compared where each of them is known.
/// Fewer than two need no comparing.
pub open spec fn comparable(probes: Seq<ProbedView>) -> bool {
    probes.len() >= 2 ==> forall|i: int| 0 <= i < probes.len() ==> !probes[i].is_unknown()
}

/// All files are known and have one width.
pub open spec fn same_width(probes: Seq<ProbedView>) -> bool {
    &&& comparable(probes)
    &&& forall|i: int, j: int|
        0 <= i < probes.len() && 0 <= j < probes.len() ==> probes[i].width == probes[j].width
}

/// All files are known and have one height.
pub open spec fn same_height(probes: Seq<ProbedView>) -> bool {
    &&& comparable(probes)
    &&& forall|i: int, j: int|
        0 <= i < probes.len() && 0 <= j < probes.len() ==> probes[i].height == probes[j].height
}

/// All files are known and have one width and one height.
pub open spec fn same_dimensions(probes: Seq<ProbedView>) -> bool {
    same_width(probes) && same_height(probes)
}

/// Sets of probe records that can say whether their files fit together.
pub trait ProbedDimensions {
    spec fn probes(&self) -> Seq<ProbedView>;

    fn is_same_width(&self) -> (same: bool)
        ensures
            same == same_width(self.probes()),
    ;

    fn is_same_height(&self) -> (same: bool)
        ensures
            same == same_height(self.probes()),
    ;

    fn is_same_dimensions(&self) -> (same: bool)
        ensures
            same == same_dimensions(self.probes()),
    ;
}

fn all_known(probes: &Vec<Probed>) -> (known: bool)
    ensures
        known == comparable(probe_views(probes@)),
{
    if probes.len() < 2 {
        return true;
    }
    let mut i: usize = 0;
    while i < probes.len()
        invariant
            i <= probes.len(),
            probes.len() >= 2,
            forall|k: int| 0 <= k < i ==> !probe_views(probes@)[k].is_unknown(),
        decreases probes.len() - i,
    {
        if probes[i].is_unknown() {
            assert(probe_views(probes@)[i as int].is_unknown());
            return false;
        }
        i += 1;
    }
    true
}

impl ProbedDimensions for Vec<Probed> {
    open spec fn probes(&self) -> Seq<ProbedView> {
        probe_views(self@)
    }

    fn is_same_width(&self) -> (same: bool) {
        if !all_known(self) {
            return false;
        }
        let mut i: usize = 1;
        while i < self.len()
            invariant
                1 <= i,
                forall|k: int|
                    0 <= k < i && k < self.len() ==> (#[trigger] probe_views(self@)[k]).width
                        == probe_views(self@)[0].width,
            decreases self.len() - i,
        {
            if self[i - 1].width != self[i].width {
                assert(probe_views(self@)[i - 1].width != probe_views(self@)[i as int].width);
                return false;
            }
            assert(probe_views(self@)[i - 1].width == probe_views(self@)[0].width);
            i += 1;
        }
        true
    }

    fn is_same_height(&self) -> (same: bool) {
        if !all_known(self) {
            return false;
        }
        let mut i: usize = 1;
        while i < self.len()
            invariant
                1 <= i,
                forall|k: int|
                    0 <= k < i && k < self.len() ==> (#[trigger] probe_views(self@)[k]).height
                        == probe_views(self@)[0].height,
            decreases self.len() - i,
        {
            if self[i - 1].height != self[i].height {
                assert(probe_views(self@)[i - 1].height != probe_views(self@)[i as int].height);
                return false;
            }
            assert(probe_views(self@)[i - 1].height == probe_views(self@)[0].height);
            i += 1;
        }
        true
    }

    fn is_same_dimensions(&self) -> (same: bool) {
        self.is_same_width() && self.is_same_height()
    }
}

} // verus!
