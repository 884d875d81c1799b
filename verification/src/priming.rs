use crate::text::{decimal, decimal_string};
use vstd::prelude::*;

verus! {

/// `v` in decimal, padded on the left with a zero to two digits. Values of
/// three digits and more keep all their digits.
pub open spec fn two_digits(v: nat) -> Seq<char> {
    if v < 10 {
        seq!['0'] + decimal(v)
    } else {
        decimal(v)
    }
}

/// A number of whole seconds as `HH:MM:SS`. Minutes and seconds wrap at 60,
/// hours do not wrap.
pub open spec fn timestamp(seconds: nat) -> Seq<char> {
    two_digits(seconds / 3600) + seq![':'] + two_digits((seconds / 60) % 60) + seq![':']
        + two_digits(seconds % 60)
}

/// What is shown for a trim bound: its timestamp, or a fixed text where the
/// bound is absent.
pub open spec fn timestamp_or_unset(bound: Option<u32>) -> Seq<char> {
    match bound {
        Some(v) => timestamp(v as nat),
        None => "Not set"@,
    }
}

/// A length of time that can be written as a timestamp.
pub trait Duration {
    /// The length in whole seconds.
    spec fn seconds(&self) -> nat;

    /// The timestamp `HH:MM:SS` of this length.
    fn as_ts(&self) -> (ts: String)
        ensures
            ts@ == timestamp(self.seconds()),
    ;
}

fn push_two_digits(out: &mut String, v: u32)
    ensures
        final(out)@ == old(out)@ + two_digits(v as nat),
{
    if v < 10 {
        out.push('0');
    }
    let digits = decimal_string(v as usize);
    out.append(digits.as_str());
}

impl Duration for u32 {
    open spec fn seconds(&self) -> nat {
        *self as nat
    }

    fn as_ts(&self) -> (ts: String) {
        let total: u32 = *self;
        let mut ts = String::new();
        push_two_digits(&mut ts, total / 60 / 60);
        ts.push(':');
        push_two_digits(&mut ts, (total / 60) % 60);
        ts.push(':');
        push_two_digits(&mut ts, total % 60);
        assert(total as nat / 60 / 60 == total as nat / 3600) by (nonlinear_arith);
        ts
    }
}

/// One clip, ready to be classified and composed: its place on the grid, its
/// source file and its trim range, if it has one.
#[derive(Debug, PartialEq, Clone)]
pub struct Primed {
    pub id: String,
    pub x: u8,
    pub y: u8,
    pub path: String,
    pub start: Option<u32>,
    pub end: Option<u32>,
}

/// The mathematical value of a [`Primed`].
pub struct PrimedView {
    pub id: Seq<char>,
    pub x: u8,
    pub y: u8,
    pub path: Seq<char>,
    pub start: Option<u32>,
    pub end: Option<u32>,
}

impl View for Primed {
    type V = PrimedView;

    open spec fn view(&self) -> PrimedView {
        PrimedView {
            id: self.id@,
            x: self.x,
            y: self.y,
            path: self.path@,
            start: self.start,
            end: self.end,
        }
    }
}

impl PrimedView {
    /// A trim has two ends: `start` and `end` are both there or both absent.
    pub open spec fn paired(self) -> bool {
        self.start is Some <==> self.end is Some
    }

    /// The one-line description of a record.
    pub open spec fn described(self) -> Seq<char> {
        "Id: "@ + self.id + " | x: "@ + decimal(self.x as nat) + ", y: "@ + decimal(self.y as nat)
            + " | path: "@ + self.path + " | start: "@ + timestamp_or_unset(self.start)
            + ", end: "@ + timestamp_or_unset(self.end)
    }
}

impl Default for Primed {
    fn default() -> (p: Primed)
        ensures
            p@ == (PrimedView {
                id: Seq::empty(),
                x: 0,
                y: 0,
                path: Seq::empty(),
                start: None,
                end: None,
            }),
    {
        Primed { id: String::new(), x: 0, y: 0, path: String::new(), start: None, end: None }
    }
}

fn bound_as_ts(bound: Option<u32>) -> (ts: String)
    ensures
        ts@ == timestamp_or_unset(bound),
{
    match bound {
        Some(v) => v.as_ts(),
        None => "Not set".to_owned(),
    }
}

impl Primed {
    /// The start of the trim as a timestamp, `Not set` where there is none.
    pub fn start_as_ts(&self) -> (ts: String)
        ensures
            ts@ == timestamp_or_unset(self.start),
    {
        bound_as_ts(self.start)
    }

    /// The end of the trim as a timestamp, `Not set` where there is none.
    pub fn end_as_ts(&self) -> (ts: String)
        ensures
            ts@ == timestamp_or_unset(self.end),
    {
        bound_as_ts(self.end)
    }

    /// The record on one line, for logs and messages.
    pub fn describe(&self) -> (line: String)
        ensures
            line@ == self@.described(),
    {
        let mut line = "Id: ".to_owned();
        line.append(self.id.as_str());
        line.append(" | x: ");
        line.append(decimal_string(self.x as usize).as_str());
        line.append(", y: ");
        line.append(decimal_string(self.y as usize).as_str());
        line.append(" | path: ");
        line.append(self.path.as_str());
        line.append(" | start: ");
        line.append(self.start_as_ts().as_str());
        line.append(", end: ");
        line.append(self.end_as_ts().as_str());
        line
    }
}

} // verus!
