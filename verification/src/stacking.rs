use crate::execution::{Execution, Handle};
use crate::grouping::views;
use crate::priming::{timestamp, Duration, Primed, PrimedView};
use crate::stack_laws::lemma_sorted_same_mode;
use crate::text::{decimal, decimal_string};
use rand::Rng;
use vstd::prelude::*;

verus! {

/// How the clips are put together.
#[derive(Debug, PartialEq, Eq, Structural, Clone, Copy)]
pub enum Stack {
    /// A grid of rows and columns.
    X,
    /// One row.
    Horizontal,
    /// One column.
    Vertical,
}

/// The mode that a set of records calls for. A set in which every column is
/// zero is a column, also where every row is zero too; a set in which every
/// row is zero is a row; any other is a grid.
pub open spec fn classify(records: Seq<PrimedView>) -> Stack {
    if forall|i: int| 0 <= i < records.len() ==> records[i].x == 0 {
        Stack::Vertical
    } else if forall|i: int| 0 <= i < records.len() ==> records[i].y == 0 {
        Stack::Horizontal
    } else {
        Stack::X
    }
}

/// Sets of records that know how they are to be put together.
pub trait StackIdentity {
    /// The mode that the set calls for.
    spec fn identity(&self) -> Stack;

    fn identify(&self) -> (stack: Stack)
        ensures
            stack == self.identity(),
    ;
}

fn all_in_first_column(records: &Vec<Primed>) -> (all: bool)
    ensures
        all == forall|i: int| 0 <= i < records.len() ==> views(records@)[i].x == 0,
{
    let mut i: usize = 0;
    while i < records.len()
        invariant
            i <= records.len(),
            forall|k: int| 0 <= k < i ==> views(records@)[k].x == 0,
        decreases records.len() - i,
    {
        if records[i].x != 0 {
            assert(views(records@)[i as int].x != 0);
            return false;
        }
        i += 1;
    }
    true
}

fn all_in_first_row(records: &Vec<Primed>) -> (all: bool)
    ensures
        all == forall|i: int| 0 <= i < records.len() ==> views(records@)[i].y == 0,
{
    let mut i: usize = 0;
    while i < records.len()
        invariant
            i <= records.len(),
            forall|k: int| 0 <= k < i ==> views(records@)[k].y == 0,
        decreases records.len() - i,
    {
        if records[i].y != 0 {
            assert(views(records@)[i as int].y != 0);
            return false;
        }
        i += 1;
    }
    true
}

impl StackIdentity for Vec<Primed> {
    open spec fn identity(&self) -> Stack {
        classify(views(self@))
    }

    fn identify(&self) -> (stack: Stack) {
        if all_in_first_column(self) {
            return Stack::Vertical;
        }
        if all_in_first_row(self) {
            return Stack::Horizontal;
        }
        Stack::X
    }
}

/// Whether `r` is the whole part of the square root of `n`.
pub open spec fn is_root(n: nat, r: nat) -> bool {
    r * r <= n < (r + 1) * (r + 1)
}

/// The number of columns of a grid of `n` cells: the whole part of the
/// square root of `n`.
pub open spec fn columns(n: nat) -> nat {
    choose|r: nat| is_root(n, r)
}

/// The part of an offset that sums the first `count` sizes: `w0+w1+..`
/// where the prefix is `w`.
pub open spec fn offset_terms(prefix: Seq<char>, count: nat) -> Seq<char>
    decreases count,
{
    if count == 0 {
        Seq::empty()
    } else if count == 1 {
        prefix + decimal(0)
    } else {
        offset_terms(prefix, (count - 1) as nat) + seq!['+'] + prefix + decimal((count - 1) as nat)
    }
}

/// The offset of a cell that has `count` cells before it in its row or
/// column: `0` for the first, else the sum of the sizes of those before.
pub open spec fn offset_text(prefix: Seq<char>, count: nat) -> Seq<char> {
    if count == 0 {
        seq!['0']
    } else {
        offset_terms(prefix, count)
    }
}

/// The label of input `index`: `[index:v]`.
pub open spec fn label_text(index: nat) -> Seq<char> {
    seq!['['] + decimal(index) + seq![':', 'v', ']']
}

/// The labels of the first `n` inputs, one after the other.
pub open spec fn labels_text(n: nat) -> Seq<char>
    decreases n,
{
    if n == 0 {
        Seq::empty()
    } else {
        labels_text((n - 1) as nat) + label_text((n - 1) as nat)
    }
}

/// The place of cell `index` of a grid of `cols` columns, filled row by
/// row: the widths to its left, `_`, the heights above it.
pub open spec fn cell_text(cols: nat, index: nat) -> Seq<char>
    recommends
        cols > 0,
{
    offset_text(seq!['w'], index % cols) + seq!['_'] + offset_text(seq!['h'], index / cols)
}

/// The places of the first `count` cells of a grid of `cols` columns,
/// with `|` between them.
pub open spec fn cells_text(cols: nat, count: nat) -> Seq<char>
    recommends
        cols > 0,
    decreases count,
{
    if count == 0 {
        Seq::empty()
    } else if count == 1 {
        cell_text(cols, 0)
    } else {
        cells_text(cols, (count - 1) as nat) + seq!['|'] + cell_text(cols, (count - 1) as nat)
    }
}

/// The layout of a grid of `n` cells.
pub open spec fn layout_text(n: nat) -> Seq<char> {
    cells_text(columns(n), n)
}

/// The filter that lays `n` inputs out as a grid and names the result `[v]`.
pub open spec fn composed_text(n: nat) -> Seq<char> {
    labels_text(n) + "xstack=inputs="@ + decimal(n) + ":layout='"@ + layout_text(n) + "'[v]"@
}

/// A number has at most one whole root.
pub proof fn lemma_root_unique(n: nat, a: nat, b: nat)
    requires
        is_root(n, a),
        is_root(n, b),
    ensures
        a == b,
{
    if a < b {
        assert((a + 1) * (a + 1) <= b * b) by (nonlinear_arith)
            requires
                a + 1 <= b,
        ;
    }
    if b < a {
        assert((b + 1) * (b + 1) <= a * a) by (nonlinear_arith)
            requires
                b + 1 <= a,
        ;
    }
}

/// The whole part of the square root of `n`.
pub fn root(n: usize) -> (r: usize)
    ensures
        is_root(n as nat, r as nat),
        r == columns(n as nat),
{
    let mut r: usize = 0;
    while r < n && r + 1 <= n / (r + 1)
        invariant
            r <= n,
            r * r <= n,
        decreases n - r,
    {
        assert((r + 1) * (r + 1) <= n) by (nonlinear_arith)
            requires
                r + 1 <= (n as int) / ((r + 1) as int),
        ;
        r += 1;
    }
    proof {
        if r < n {
            assert(n < (r + 1) * (r + 1)) by (nonlinear_arith)
                requires
                    r + 1 > (n as int) / ((r + 1) as int),
                    r >= 0,
                    n >= 0,
            ;
        } else {
            assert(n < (r + 1) * (r + 1)) by (nonlinear_arith)
                requires
                    r == n,
                    r >= 0,
            ;
        }
        lemma_root_unique(n as nat, r as nat, columns(n as nat));
    }
    r
}

/// The filter that lays a number of inputs out as a grid.
pub struct Xstack {
    n: usize,
}

impl Xstack {
    /// The number of inputs.
    pub closed spec fn count(&self) -> nat {
        self.n as nat
    }

    pub fn new(n: usize) -> (xstack: Xstack)
        ensures
            xstack.count() == n,
    {
        Xstack { n }
    }

    /// The whole filter: the labels of the inputs, their number, the layout
    /// and the name of the result.
    pub fn compose(&self) -> (filter: String)
        ensures
            filter@ == composed_text(self.count()),
    {
        let mut filter = self.gen_labels();
        filter.append("xstack=inputs=");
        filter.append(decimal_string(self.n).as_str());
        filter.append(":layout='");
        filter.append(self.gen_layout().as_str());
        filter.append("'[v]");
        filter
    }

    /// The offset of a cell with `offset` cells before it, over sizes named
    /// by `char` and a number.
    pub fn gen_offset(char: String, offset: usize) -> (text: String)
        ensures
            text@ == offset_text(char@, offset as nat),
    {
        let mut text = String::new();
        if offset == 0 {
            text.push('0');
            return text;
        }
        let mut i: usize = 0;
        while i < offset
            invariant
                i <= offset,
                text@ == offset_terms(char@, i as nat),
            decreases offset - i,
        {
            if i > 0 {
                text.push('+');
            }
            text.append(char.as_str());
            text.append(decimal_string(i).as_str());
            i += 1;
        }
        text
    }

    /// The labels of the inputs, in the order of the cells.
    pub fn gen_labels(&self) -> (labels: String)
        ensures
            labels@ == labels_text(self.count()),
    {
        let mut labels = String::new();
        let mut i: usize = 0;
        while i < self.n
            invariant
                i <= self.n,
                labels@ == labels_text(i as nat),
            decreases self.n - i,
        {
            labels.push('[');
            labels.append(decimal_string(i).as_str());
            labels.push(':');
            labels.push('v');
            labels.push(']');
            i += 1;
        }
        labels
    }

    /// The places of the cells, row by row.
    pub fn gen_layout(&self) -> (layout: String)
        ensures
            layout@ == layout_text(self.count()),
    {
        let cols = root(self.n);
        let mut layout = String::new();
        let mut i: usize = 0;
        while i < self.n
            invariant
                i <= self.n,
                cols == columns(self.n as nat),
                is_root(self.n as nat, cols as nat),
                layout@ == cells_text(cols as nat, i as nat),
            decreases self.n - i,
        {
            assert(cols > 0) by {
                if cols == 0 {
                    assert((cols as nat + 1) * (cols as nat + 1) == 1) by (nonlinear_arith)
                        requires
                            cols == 0,
                    ;
                }
            }
            let x_offset = Xstack::gen_offset("w".to_owned(), i % cols);
            let y_offset = Xstack::gen_offset("h".to_owned(), i / cols);
            if i > 0 {
                layout.push('|');
            }
            layout.append(x_offset.as_str());
            layout.push('_');
            layout.append(y_offset.as_str());
            proof {
                reveal_strlit("w");
                reveal_strlit("h");
                assert("w"@ =~= seq!['w']);
                assert("h"@ =~= seq!['h']);
            }
            i += 1;
        }
        layout
    }
}

/// The number by which a mode orders the records: the column for a row, the
/// row for a column, and for a grid row and column together, the row
/// counting first.
pub open spec fn sort_key(stack: Stack, p: PrimedView) -> int {
    match stack {
        Stack::Horizontal => p.x as int,
        Stack::Vertical => p.y as int,
        Stack::X => p.y * 256 + p.x,
    }
}

/// An ordered sequence with one more record in it: behind every record
/// whose key is not greater than its own.
pub open spec fn inserted(stack: Stack, records: Seq<Primed>, p: Primed) -> Seq<Primed>
    decreases records.len(),
{
    if records.len() == 0 {
        seq![p]
    } else if sort_key(stack, records.last()@) <= sort_key(stack, p@) {
        records.push(p)
    } else {
        inserted(stack, records.drop_last(), p).push(records.last())
    }
}

/// The records in the order of their keys. Records with the same key stay
/// in the order in which they came.
pub open spec fn sorted(stack: Stack, records: Seq<Primed>) -> Seq<Primed>
    decreases records.len(),
{
    if records.len() == 0 {
        records
    } else {
        inserted(stack, sorted(stack, records.drop_last()), records.last())
    }
}

/// The texts of a list of strings.
pub open spec fn texts(strings: Seq<String>) -> Seq<Seq<char>> {
    strings.map_values(|s: String| s@)
}

/// The arguments for one clip: its trim, where it has both ends, and then
/// its file.
pub open spec fn clip_args(p: PrimedView) -> Seq<Seq<char>> {
    if p.start is Some && p.end is Some {
        seq![
            "-ss"@,
            timestamp(p.start->0 as nat),
            "-to"@,
            timestamp(p.end->0 as nat),
            "-i"@,
            p.path,
        ]
    } else {
        seq!["-i"@, p.path]
    }
}

/// The arguments for the clips, clip after clip.
pub open spec fn input_args(records: Seq<PrimedView>) -> Seq<Seq<char>>
    decreases records.len(),
{
    if records.len() == 0 {
        Seq::empty()
    } else {
        input_args(records.drop_last()) + clip_args(records.last())
    }
}

/// The arguments that name the filter for `n` inputs. Only a grid names
/// its result and maps it to the output.
pub open spec fn filter_args(stack: Stack, n: nat) -> Seq<Seq<char>> {
    match stack {
        Stack::Horizontal => seq!["-filter_complex"@, "hstack=inputs="@ + decimal(n)],
        Stack::Vertical => seq!["-filter_complex"@, "vstack=inputs="@ + decimal(n)],
        Stack::X => seq!["-filter_complex"@, composed_text(n), "-map"@, "[v]"@],
    }
}

/// All arguments of a composition: the clips in their order, the filter and
/// the file to write.
pub open spec fn assembled(stack: Stack, records: Seq<PrimedView>, output: Seq<char>) -> Seq<
    Seq<char>,
> {
    input_args(records) + filter_args(stack, records.len()) + seq![output]
}

/// Whether `c` is an ASCII letter or digit.
pub open spec fn is_alphanumeric(c: char) -> bool {
    ('0' <= c && c <= '9') || ('A' <= c && c <= 'Z') || ('a' <= c && c <= 'z')
}

/// The number of random characters in a file name.
pub const SUFFIX_LEN: usize = 30;

/// Whether `stem` is `stacked-` followed by as many letters and digits as
/// a file name has.
pub open spec fn is_stem(stem: Seq<char>) -> bool {
    &&& stem.len() >= SUFFIX_LEN
    &&& stem.take(stem.len() - SUFFIX_LEN) == "stacked-"@
    &&& forall|i: int| stem.len() - SUFFIX_LEN <= i < stem.len() ==> is_alphanumeric(stem[i])
}

/// The path of `file` in the directory `dir`. A `/` comes between the two
/// unless the directory is empty or ends in one.
pub open spec fn joined_path(dir: Seq<char>, file: Seq<char>) -> Seq<char> {
    if dir.len() == 0 {
        file
    } else if dir.last() == '/' {
        dir + file
    } else {
        dir + seq!['/'] + file
    }
}

/// Whether `path` names a file in `dir` whose name is a stem and `.mkv`.
pub open spec fn is_output_path(dir: Seq<char>, path: Seq<char>) -> bool {
    exists|stem: Seq<char>| #[trigger] is_stem(stem) && path == joined_path(dir, stem + ".mkv"@)
}

/// Calls `rand::thread_rng` and samples `rand::distributions::Alphanumeric`
/// once with `Rng::sample`. Believed of it: the byte is an ASCII letter or
/// digit. Which one is left open. The generator is seeded by the system
/// and the call panics where the system gives no seed.
#[verifier::external_body]
fn sample_alphanumeric() -> (b: u8)
    ensures
        is_alphanumeric(b as char),
{
    rand::thread_rng().sample(rand::distributions::Alphanumeric)
}

fn key_of(stack: Stack, p: &Primed) -> (k: u16)
    ensures
        k == sort_key(stack, p@),
{
    match stack {
        Stack::Horizontal => p.x as u16,
        Stack::Vertical => p.y as u16,
        Stack::X => p.y as u16 * 256 + p.x as u16,
    }
}

proof fn lemma_inserted_at(stack: Stack, records: Seq<Primed>, p: Primed, j: int)
    requires
        0 <= j <= records.len(),
        forall|m: int| j <= m < records.len() ==> sort_key(stack, records[m]@) > sort_key(stack, p@),
        j > 0 ==> sort_key(stack, records[j - 1]@) <= sort_key(stack, p@),
    ensures
        inserted(stack, records, p) == records.insert(j, p),
    decreases records.len(),
{
    if records.len() == 0 {
    } else if j == records.len() {
    } else {
        let front = records.drop_last();
        lemma_inserted_at(stack, front, p, j);
    }
}

proof fn lemma_inserted_len(stack: Stack, records: Seq<Primed>, p: Primed)
    ensures
        inserted(stack, records, p).len() == records.len() + 1,
    decreases records.len(),
{
    if records.len() > 0 {
        lemma_inserted_len(stack, records.drop_last(), p);
    }
}

/// Sorting neither adds nor drops a record.
pub proof fn lemma_sorted_len(stack: Stack, records: Seq<Primed>)
    ensures
        sorted(stack, records).len() == records.len(),
    decreases records.len(),
{
    if records.len() > 0 {
        lemma_sorted_len(stack, records.drop_last());
        lemma_inserted_len(stack, sorted(stack, records.drop_last()), records.last());
    }
}

/// Puts the records in the order of their keys, keeping records with the
/// same key in the order in which they came.
pub fn sort_records(stack: Stack, records: &mut Vec<Primed>)
    ensures
        final(records)@ == sorted(stack, old(records)@),
{
    let mut rest: Vec<Primed> = Vec::new();
    std::mem::swap(records, &mut rest);
    let ghost all = rest@;
    for p in it: rest
        invariant
            it.seq() == all,
            records@ == sorted(stack, all.take(it.index() as int)),
    {
        let k = key_of(stack, &p);
        let mut j: usize = records.len();
        while j > 0 && key_of(stack, &records[j - 1]) > k
            invariant
                j <= records.len(),
                k == sort_key(stack, p@),
                forall|m: int| j <= m < records.len() ==> sort_key(stack, records[m]@) > k,
            decreases j,
        {
            j -= 1;
        }
        proof {
            lemma_inserted_at(stack, records@, p, j as int);
            assert(all.take(it.index() + 1).drop_last() =~= all.take(it.index() as int));
        }
        records.insert(j, p);
    }
    proof {
        assert(all.take(all.len() as int) =~= all);
    }
}

/// A composition: the clips, the mode that they call for and the file to
/// write.
pub struct Stacker {
    stack: Stack,
    primed: Vec<Primed>,
    output: String,
}

impl Stacker {
    /// The mode of the composition.
    pub closed spec fn mode(&self) -> Stack {
        self.stack
    }

    /// The clips, in the order in which they stand now.
    pub closed spec fn clips(&self) -> Seq<Primed> {
        self.primed@
    }

    /// The path of the file to write.
    pub closed spec fn destination(&self) -> Seq<char> {
        self.output@
    }

    /// A composition of the given clips that writes a file with a fresh
    /// random name in the directory `output`.
    pub fn new(primed: Vec<Primed>, output: &str) -> (stacker: Stacker)
        ensures
            stacker.mode() == classify(views(primed@)),
            stacker.clips() == primed@,
            is_output_path(output@, stacker.destination()),
    {
        Stacker { stack: primed.identify(), primed, output: Stacker::create_output_path(output) }
    }

    /// A composition of the given clips that writes the file `file` in the
    /// directory `output`.
    pub fn with_file(primed: Vec<Primed>, output: &str, file: &str) -> (stacker: Stacker)
        ensures
            stacker.mode() == classify(views(primed@)),
            stacker.clips() == primed@,
            stacker.destination() == joined_path(output@, file@),
    {
        Stacker { stack: primed.identify(), primed, output: Stacker::join_path(output, file) }
    }

    fn arg_trimmings(&self) -> (args: Vec<String>)
        ensures
            texts(args@) == input_args(views(self.clips())),
    {
        let mut args: Vec<String> = Vec::new();
        let mut i: usize = 0;
        while i < self.primed.len()
            invariant
                i <= self.primed.len(),
                texts(args@) == input_args(views(self.primed@.take(i as int))),
            decreases self.primed.len() - i,
        {
            let prime = &self.primed[i];
            // A trim always comes with both of its ends.
            if let (Some(start), Some(end)) = (prime.start, prime.end) {
                args.push("-ss".to_owned());
                args.push(start.as_ts());
                args.push("-to".to_owned());
                args.push(end.as_ts());
            }
            args.push("-i".to_owned());
            args.push(prime.path.clone());
            proof {
                let upto = views(self.primed@.take(i + 1));
                assert(upto.drop_last() =~= views(self.primed@.take(i as int)));
            }
            i += 1;
        }
        proof {
            assert(self.primed@.take(self.primed@.len() as int) =~= self.primed@);
        }
        args
    }

    /// `stacked-` and a fresh run of random letters and digits.
    fn rand_fname() -> (stem: String)
        ensures
            is_stem(stem@),
    {
        let mut stem = "stacked-".to_owned();
        let mut i: usize = 0;
        while i < SUFFIX_LEN
            invariant
                i <= SUFFIX_LEN,
                stem@.len() == "stacked-"@.len() + i,
                stem@.take(stem@.len() - i) == "stacked-"@,
                forall|k: int| stem@.len() - i <= k < stem@.len() ==> is_alphanumeric(stem@[k]),
            decreases SUFFIX_LEN - i,
        {
            stem.push(sample_alphanumeric() as char);
            i += 1;
        }
        stem
    }

    fn join_path(output: &str, file: &str) -> (path: String)
        ensures
            path@ == joined_path(output@, file@),
    {
        let mut path = output.to_owned();
        let len = output.unicode_len();
        if len > 0 && output.get_char(len - 1) != '/' {
            path.push('/');
        }
        path.append(file);
        path
    }

    fn create_output_path(output: &str) -> (path: String)
        ensures
            is_output_path(output@, path@),
    {
        let mut file = Stacker::rand_fname();
        file.append(".mkv");
        Stacker::join_path(output, file.as_str())
    }

    /// The path of the file to write.
    pub fn output_path(&self) -> (path: String)
        ensures
            path@ == self.destination(),
    {
        self.output.clone()
    }
}

impl Execution for Stacker {
    // FFmpeg reports on standard error.
    const HANDLE: Handle = Handle::Error;

    fn program(&self) -> (name: String)
        ensures
            name@ == "ffmpeg"@,
    {
        "ffmpeg".to_owned()
    }

    /// Puts the clips in the order of the mode and gives the arguments of
    /// the composition.
    fn assemble(&mut self) -> (args: Vec<String>)
        ensures
            final(self).mode() == old(self).mode(),
            final(self).destination() == old(self).destination(),
            final(self).clips() == sorted(old(self).mode(), old(self).clips()),
            classify(views(final(self).clips())) == classify(views(old(self).clips())),
            texts(args@) == assembled(
                old(self).mode(),
                views(final(self).clips()),
                old(self).destination(),
            ),
    {
        let n = self.primed.len();
        sort_records(self.stack, &mut self.primed);
        let mut args = self.arg_trimmings();
        args.push("-filter_complex".to_owned());
        match self.stack {
            Stack::Horizontal => {
                let mut filter = "hstack=inputs=".to_owned();
                filter.append(decimal_string(n).as_str());
                args.push(filter);
            },
            Stack::Vertical => {
                let mut filter = "vstack=inputs=".to_owned();
                filter.append(decimal_string(n).as_str());
                args.push(filter);
            },
            Stack::X => {
                args.push(Xstack::new(n).compose());
                args.push("-map".to_owned());
                args.push("[v]".to_owned());
            },
        }
        args.push(self.output_path());
        proof {
            lemma_sorted_len(self.stack, old(self).primed@);
            lemma_sorted_same_mode(self.stack, old(self).primed@);
        }
        args
    }
}

} // verus!
