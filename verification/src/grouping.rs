use crate::priming::{Primed, PrimedView};
use vstd::prelude::*;
use vstd::std_specs::convert::FromSpecImpl;
use vstd::std_specs::convert::IntoSpec;

verus! {

/// Anything that carries the identifier of the clip it belongs to.
pub trait Identifiable {
    /// The identifier as a sequence of characters.
    spec fn ident(&self) -> Seq<char>;

    fn id(&self) -> (id: &str)
        ensures
            id@ == self.ident(),
    ;
}

/// Where a clip sits on the grid: column `x`, row `y`.
#[derive(Debug, Clone, Default)]
pub struct Position {
    pub id: String,
    pub x: u8,
    pub y: u8,
}

/// The media file of a clip.
#[derive(Debug, Clone, Default)]
pub struct Source {
    pub id: String,
    pub path: String,
}

/// The trim range of a clip in whole seconds: `values[0]` is the start,
/// `values[1]` the end.
#[derive(Debug, Clone, Default)]
pub struct Slider {
    pub id: String,
    pub values: [u32; 2],
}

/// One attribute of a clip, of any of the three kinds.
pub enum Inputs {
    Position(Position),
    Source(Source),
    Slider(Slider),
}

pub struct PositionView {
    pub id: Seq<char>,
    pub x: u8,
    pub y: u8,
}

pub struct SourceView {
    pub id: Seq<char>,
    pub path: Seq<char>,
}

pub struct SliderView {
    pub id: Seq<char>,
    pub start: u32,
    pub end: u32,
}

pub enum InputsView {
    Position(PositionView),
    Source(SourceView),
    Slider(SliderView),
}

impl View for Position {
    type V = PositionView;

    open spec fn view(&self) -> PositionView {
        PositionView { id: self.id@, x: self.x, y: self.y }
    }
}

impl View for Source {
    type V = SourceView;

    open spec fn view(&self) -> SourceView {
        SourceView { id: self.id@, path: self.path@ }
    }
}

impl View for Slider {
    type V = SliderView;

    open spec fn view(&self) -> SliderView {
        SliderView { id: self.id@, start: self.values[0], end: self.values[1] }
    }
}

impl View for Inputs {
    type V = InputsView;

    open spec fn view(&self) -> InputsView {
        match self {
            Inputs::Position(p) => InputsView::Position(p@),
            Inputs::Source(s) => InputsView::Source(s@),
            Inputs::Slider(s) => InputsView::Slider(s@),
        }
    }
}

impl Identifiable for Slider {
    open spec fn ident(&self) -> Seq<char> {
        self.id@
    }

    fn id(&self) -> (id: &str) {
        self.id.as_str()
    }
}

impl Identifiable for Position {
    open spec fn ident(&self) -> Seq<char> {
        self.id@
    }

    fn id(&self) -> (id: &str) {
        self.id.as_str()
    }
}

impl Identifiable for Source {
    open spec fn ident(&self) -> Seq<char> {
        self.id@
    }

    fn id(&self) -> (id: &str) {
        self.id.as_str()
    }
}

impl From<Position> for Inputs {
    fn from(position: Position) -> (inputs: Inputs) {
        Inputs::Position(position)
    }
}

impl FromSpecImpl<Position> for Inputs {
    open spec fn obeys_from_spec() -> bool {
        true
    }

    open spec fn from_spec(position: Position) -> Inputs {
        Inputs::Position(position)
    }
}

impl From<Source> for Inputs {
    fn from(source: Source) -> (inputs: Inputs) {
        Inputs::Source(source)
    }
}

impl FromSpecImpl<Source> for Inputs {
    open spec fn obeys_from_spec() -> bool {
        true
    }

    open spec fn from_spec(source: Source) -> Inputs {
        Inputs::Source(source)
    }
}

impl From<Slider> for Inputs {
    fn from(slider: Slider) -> (inputs: Inputs) {
        Inputs::Slider(slider)
    }
}

impl FromSpecImpl<Slider> for Inputs {
    open spec fn obeys_from_spec() -> bool {
        true
    }

    open spec fn from_spec(slider: Slider) -> Inputs {
        Inputs::Slider(slider)
    }
}

/// The attributes collected for one identifier, in the order in which they
/// came.
pub struct Bucket {
    pub id: Seq<char>,
    pub inputs: Seq<InputsView>,
}

/// The place of the first bucket for `id`, or the number of buckets where
/// there is none.
pub open spec fn slot(buckets: Seq<Bucket>, id: Seq<char>) -> int
    decreases buckets.len(),
{
    if buckets.len() == 0 {
        0
    } else {
        let before = slot(buckets.drop_last(), id);
        if before < buckets.len() - 1 || buckets.last().id == id {
            before
        } else {
            before + 1
        }
    }
}

/// The buckets after one more attribute came for `id`: it joins the bucket
/// of that identifier, or opens a new one after all the others.
pub open spec fn pushed(buckets: Seq<Bucket>, id: Seq<char>, input: InputsView) -> Seq<Bucket> {
    let k = slot(buckets, id);
    if k < buckets.len() {
        buckets.update(k, Bucket { id: buckets[k].id, inputs: buckets[k].inputs.push(input) })
    } else {
        buckets.push(Bucket { id, inputs: seq![input] })
    }
}

/// The buckets after a list of attributes came, each under its identifier.
pub open spec fn added(buckets: Seq<Bucket>, items: Seq<(Seq<char>, InputsView)>) -> Seq<Bucket>
    decreases items.len(),
{
    if items.len() == 0 {
        buckets
    } else {
        pushed(added(buckets, items.drop_last()), items.last().0, items.last().1)
    }
}

/// Each value under the identifier it gives for itself, as the attribute it
/// converts into.
pub open spec fn keyed<T: Identifiable + Into<Inputs>>(values: Seq<T>) -> Seq<
    (Seq<char>, InputsView),
> {
    values.map_values(|v: T| (v.ident(), T::into_spec(v)@))
}

/// The values that are there, in their order, without the holes.
pub open spec fn present<T>(values: Seq<Option<T>>) -> Seq<T>
    decreases values.len(),
{
    if values.len() == 0 {
        Seq::empty()
    } else {
        match values.last() {
            Some(v) => present(values.drop_last()).push(v),
            None => present(values.drop_last()),
        }
    }
}

/// Whether a source is among the attributes.
pub open spec fn has_source(inputs: Seq<InputsView>) -> bool {
    exists|j: int| 0 <= j < inputs.len() && inputs[j] is Source
}

/// The buckets that hold a source, in their order.
pub open spec fn cleaned(buckets: Seq<Bucket>) -> Seq<Bucket> {
    buckets.filter(|b: Bucket| has_source(b.inputs))
}

/// Column and row from the last position among the attributes, `(0, 0)`
/// where there is none.
pub open spec fn place_of(inputs: Seq<InputsView>) -> (u8, u8)
    decreases inputs.len(),
{
    if inputs.len() == 0 {
        (0, 0)
    } else {
        match inputs.last() {
            InputsView::Position(p) => (p.x, p.y),
            _ => place_of(inputs.drop_last()),
        }
    }
}

/// The path of the last source among the attributes, empty where there is
/// none.
pub open spec fn path_of(inputs: Seq<InputsView>) -> Seq<char>
    decreases inputs.len(),
{
    if inputs.len() == 0 {
        Seq::empty()
    } else {
        match inputs.last() {
            InputsView::Source(s) => s.path,
            _ => path_of(inputs.drop_last()),
        }
    }
}

/// Start and end of the last trim among the attributes, if there is one.
pub open spec fn trim_of(inputs: Seq<InputsView>) -> Option<(u32, u32)>
    decreases inputs.len(),
{
    if inputs.len() == 0 {
        None
    } else {
        match inputs.last() {
            InputsView::Slider(s) => Some((s.start, s.end)),
            _ => trim_of(inputs.drop_last()),
        }
    }
}

/// The record that a bucket stands for. Of several attributes of one kind
/// the last one counts.
pub open spec fn record(id: Seq<char>, inputs: Seq<InputsView>) -> PrimedView {
    PrimedView {
        id,
        x: place_of(inputs).0,
        y: place_of(inputs).1,
        path: path_of(inputs),
        start: match trim_of(inputs) {
            Some(t) => Some(t.0),
            None => None,
        },
        end: match trim_of(inputs) {
            Some(t) => Some(t.1),
            None => None,
        },
    }
}

/// One record for each bucket, in the buckets' order.
pub open spec fn primed(buckets: Seq<Bucket>) -> Seq<PrimedView> {
    buckets.map_values(|b: Bucket| record(b.id, b.inputs))
}

/// The views of a list of records.
pub open spec fn views(records: Seq<Primed>) -> Seq<PrimedView> {
    records.map_values(|p: Primed| p@)
}

/// What the merge of three attribute lists gives: the lists are taken in,
/// positions first, then sources, then trims; identifiers without a source
/// are dropped; each identifier left gives one record.
pub open spec fn merged(
    positions: Seq<Position>,
    sources: Seq<Source>,
    sliders: Seq<Option<Slider>>,
) -> Seq<PrimedView> {
    primed(
        cleaned(
            added(
                added(added(Seq::empty(), keyed(positions)), keyed(sources)),
                keyed(present(sliders)),
            ),
        ),
    )
}

struct Entry {
    id: String,
    inputs: Vec<Inputs>,
}

impl View for Entry {
    type V = Bucket;

    closed spec fn view(&self) -> Bucket {
        Bucket { id: self.id@, inputs: self.inputs@.map_values(|i: Inputs| i@) }
    }
}

/// Groups the positions, sources and trims that arrive in separate lists by
/// the identifier of their clip.
pub struct Group {
    group: Vec<Entry>,
}

impl View for Group {
    type V = Seq<Bucket>;

    closed spec fn view(&self) -> Seq<Bucket> {
        self.group@.map_values(|e: Entry| e@)
    }
}

/// The slot of an identifier is the place of its first bucket: the bucket
/// there has the identifier, and no bucket before it has.
pub proof fn lemma_slot(buckets: Seq<Bucket>, id: Seq<char>)
    ensures
        0 <= slot(buckets, id) <= buckets.len(),
        slot(buckets, id) < buckets.len() ==> buckets[slot(buckets, id)].id == id,
        forall|j: int| 0 <= j < slot(buckets, id) ==> (#[trigger] buckets[j]).id != id,
    decreases buckets.len(),
{
    if buckets.len() > 0 {
        let front = buckets.drop_last();
        lemma_slot(front, id);
        assert forall|j: int| 0 <= j < slot(buckets, id) implies (#[trigger] buckets[j]).id
            != id by {
            if j < front.len() {
                assert(front[j] == buckets[j]);
            }
        }
        if slot(buckets, id) < front.len() {
        }
    }
}

proof fn lemma_slot_is(buckets: Seq<Bucket>, id: Seq<char>, k: int)
    requires
        0 <= k <= buckets.len(),
        forall|j: int| 0 <= j < k ==> buckets[j].id != id,
        k < buckets.len() ==> buckets[k].id == id,
    ensures
        slot(buckets, id) == k,
{
    lemma_slot(buckets, id);
}

impl Group {
    /// A group in which nothing has come yet.
    pub fn new() -> (group: Group)
        ensures
            group@ == Seq::<Bucket>::empty(),
    {
        Group { group: Vec::new() }
    }

    fn find(&self, id: &String) -> (k: usize)
        ensures
            k == slot(self@, id@),
    {
        let mut k: usize = 0;
        while k < self.group.len()
            invariant
                k <= self.group.len(),
                forall|j: int| 0 <= j < k ==> self@[j].id != id@,
            decreases self.group.len() - k,
        {
            if self.group[k].id == *id {
                proof {
                    lemma_slot_is(self@, id@, k as int);
                }
                return k;
            }
            k += 1;
        }
        proof {
            lemma_slot_is(self@, id@, k as int);
        }
        k
    }

    fn push_value<T>(&mut self, value: T) where T: Identifiable + Into<Inputs>
        ensures
            T::obeys_into_spec() ==> final(self)@ == pushed(
                old(self)@,
                value.ident(),
                T::into_spec(value)@,
            ),
    {
        let id = value.id().to_owned();
        let k = self.find(&id);
        let input: Inputs = value.into();
        proof {
            lemma_slot(self@, id@);
        }
        if k < self.group.len() {
            self.group[k].inputs.push(input);
            proof {
                assert(self.group@[k as int]@.inputs =~= old(self)@[k as int].inputs.push(input@));
            }
        } else {
            let mut inputs = Vec::new();
            inputs.push(input);
            let entry = Entry { id, inputs };
            proof {
                assert(entry@.inputs =~= seq![input@]);
            }
            self.group.push(entry);
        }
    }

    /// Takes in a list of attributes of one kind, each under its identifier.
    pub fn add<T>(&mut self, values: Vec<T>) -> (group: &mut Group) where
        T: Identifiable + Into<Inputs>,

        ensures
            T::obeys_into_spec() ==> group@ == added(old(self)@, keyed(values@)),
            *final(self) == *final(group),
    {
        let ghost all = values@;
        for value in it: values
            invariant
                it.seq() == all,
                T::obeys_into_spec() ==> self@ == added(old(self)@, keyed(all.take(it.index() as int))),
        {
            proof {
                assert(keyed(all.take(it.index() + 1)).drop_last() =~= keyed(all.take(it.index() as int)));
            }
            self.push_value(value);
        }
        proof {
            assert(all.take(all.len() as int) =~= all);
        }
        self
    }

    /// Takes in a list of attributes of one kind in which some may be
    /// missing: the holes are passed over.
    pub fn add_optional<T>(&mut self, values: Vec<Option<T>>) -> (group: &mut Group) where
        T: Identifiable + Into<Inputs>,

        ensures
            T::obeys_into_spec() ==> group@ == added(old(self)@, keyed(present(values@))),
            *final(self) == *final(group),
    {
        let ghost all = values@;
        for value in it: values
            invariant
                it.seq() == all,
                T::obeys_into_spec() ==> self@ == added(
                    old(self)@,
                    keyed(present(all.take(it.index() as int))),
                ),
        {
            proof {
                assert(all.take(it.index() + 1).drop_last() =~= all.take(it.index() as int));
            }
            if let Some(value) = value {
                proof {
                    assert(keyed(present(all.take(it.index() + 1))).drop_last() =~= keyed(
                        present(all.take(it.index() as int)),
                    ));
                }
                self.push_value(value);
            }
        }
        proof {
            assert(all.take(all.len() as int) =~= all);
        }
        self
    }

    /// Drops every identifier for which no source came.
    pub fn clean(&mut self) -> (group: &mut Group)
        ensures
            group@ == cleaned(old(self)@),
            *final(self) == *final(group),
    {
        let mut entries: Vec<Entry> = Vec::new();
        std::mem::swap(&mut self.group, &mut entries);
        let ghost all = entries@;
        proof {
            reveal(Seq::filter);
        }
        for entry in it: entries
            invariant
                it.seq() == all,
                self@ == cleaned(all.take(it.index() as int).map_values(|e: Entry| e@)),
        {
            proof {
                reveal(Seq::filter);
                let before = all.take(it.index() as int).map_values(|e: Entry| e@);
                let after = all.take(it.index() + 1).map_values(|e: Entry| e@);
                assert(after.drop_last() =~= before);
            }
            if entry.has_source() {
                self.group.push(entry);
            }
        }
        proof {
            assert(all.take(all.len() as int) =~= all);
        }
        self
    }

    /// One record for each identifier of the group, in the order in which
    /// the identifiers first came. The group stays as it is.
    pub fn prime(&mut self) -> (records: Vec<Primed>)
        ensures
            views(records@) == primed(old(self)@),
            final(self)@ == old(self)@,
            forall|i: int| 0 <= i < records.len() ==> (#[trigger] records[i]@).paired(),
    {
        let mut records: Vec<Primed> = Vec::new();
        let mut i: usize = 0;
        while i < self.group.len()
            invariant
                i <= self.group.len(),
                views(records@) == primed(self@.take(i as int)),
                forall|k: int| 0 <= k < records.len() ==> (#[trigger] records[k]@).paired(),
            decreases self.group.len() - i,
        {
            let record = self.group[i].prime();
            proof {
                assert(primed(self@.take(i + 1)) =~= primed(self@.take(i as int)).push(record@));
            }
            records.push(record);
            i += 1;
        }
        records
    }
}

impl Entry {
    fn has_source(&self) -> (found: bool)
        ensures
            found == has_source(self@.inputs),
    {
        let mut j: usize = 0;
        while j < self.inputs.len()
            invariant
                j <= self.inputs.len(),
                forall|k: int| 0 <= k < j ==> !(self@.inputs[k] is Source),
            decreases self.inputs.len() - j,
        {
            if let Inputs::Source(_) = &self.inputs[j] {
                assert(self@.inputs[j as int] is Source);
                return true;
            }
            j += 1;
        }
        false
    }

    fn prime(&self) -> (p: Primed)
        ensures
            p@ == record(self@.id, self@.inputs),
            p@.paired(),
    {
        let mut p = Primed {
            id: self.id.clone(),
            x: 0,
            y: 0,
            path: String::new(),
            start: None,
            end: None,
        };
        let mut j: usize = 0;
        while j < self.inputs.len()
            invariant
                j <= self.inputs.len(),
                p@ == record(self@.id, self@.inputs.take(j as int)),
            decreases self.inputs.len() - j,
        {
            proof {
                assert(self@.inputs.take(j + 1).drop_last() =~= self@.inputs.take(j as int));
            }
            match &self.inputs[j] {
                Inputs::Position(position) => {
                    p.x = position.x;
                    p.y = position.y;
                },
                Inputs::Source(source) => {
                    p.path = source.path.clone();
                },
                Inputs::Slider(slider) => {
                    p.start = Some(slider.values[0]);
                    p.end = Some(slider.values[1]);
                },
            }
            j += 1;
        }
        proof {
            assert(self@.inputs.take(self@.inputs.len() as int) =~= self@.inputs);
        }
        p
    }
}

/// Merges the three attribute lists of a request into one record for each
/// clip that has a source.
pub fn merge(positions: Vec<Position>, sources: Vec<Source>, sliders: Vec<Option<Slider>>) -> (records:
    Vec<Primed>)
    ensures
        views(records@) == merged(positions@, sources@, sliders@),
        forall|i: int| 0 <= i < records.len() ==> (#[trigger] records[i]@).paired(),
{
    let mut group = Group::new();
    group.add(positions);
    group.add(sources);
    group.add_optional(sliders);
    group.clean();
    group.prime()
}

} // verus!
