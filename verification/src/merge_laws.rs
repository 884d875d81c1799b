use crate::grouping::{
    added, cleaned, has_source, keyed, lemma_slot, merged, path_of, place_of, present, primed,
    pushed, record, slot, trim_of, Bucket, Identifiable, InputsView, Position, Slider, Source,
};
use crate::priming::PrimedView;
use vstd::prelude::*;

verus! {

/// The attributes that came under `id`, in the order in which they came.
pub open spec fn attributes(items: Seq<(Seq<char>, InputsView)>, id: Seq<char>) -> Seq<InputsView>
    decreases items.len(),
{
    if items.len() == 0 {
        Seq::empty()
    } else if items.last().0 == id {
        attributes(items.drop_last(), id).push(items.last().1)
    } else {
        attributes(items.drop_last(), id)
    }
}

/// The three lists as one: positions, then sources, then the trims that
/// are there.
pub open spec fn all_items(
    positions: Seq<Position>,
    sources: Seq<Source>,
    sliders: Seq<Option<Slider>>,
) -> Seq<(Seq<char>, InputsView)> {
    keyed(positions) + keyed(sources) + keyed(present(sliders))
}

/// Whether the buckets hold exactly what came in `items`: each bucket the
/// attributes of its identifier, no identifier twice, and a bucket for
/// every identifier that came.
spec fn holds(buckets: Seq<Bucket>, items: Seq<(Seq<char>, InputsView)>) -> bool {
    &&& forall|k: int|
        0 <= k < buckets.len() ==> (#[trigger] buckets[k]).inputs == attributes(
            items,
            buckets[k].id,
        ) && buckets[k].inputs.len() > 0
    &&& forall|i: int, j: int|
        0 <= i < j < buckets.len() ==> (#[trigger] buckets[i]).id != (#[trigger] buckets[j]).id
    &&& forall|id: Seq<char>|
        (#[trigger] attributes(items, id)).len() > 0 ==> slot(buckets, id) < buckets.len()
}

proof fn lemma_pushed_holds(
    buckets: Seq<Bucket>,
    items: Seq<(Seq<char>, InputsView)>,
    id: Seq<char>,
    input: InputsView,
)
    requires
        holds(buckets, items),
    ensures
        holds(pushed(buckets, id, input), items.push((id, input))),
{
    let after = pushed(buckets, id, input);
    let more = items.push((id, input));
    let k = slot(buckets, id);
    lemma_slot(buckets, id);
    assert(more.drop_last() =~= items);
    assert forall|other: Seq<char>| true implies #[trigger] attributes(more, other) == if other
        == id {
        attributes(items, id).push(input)
    } else {
        attributes(items, other)
    } by {}
    if k < buckets.len() {
        assert forall|m: int| 0 <= m < after.len() implies (#[trigger] after[m]).inputs
            == attributes(more, after[m].id) && after[m].inputs.len() > 0 by {}
        assert forall|other: Seq<char>| (#[trigger] attributes(more, other)).len() > 0 implies slot(
            after,
            other,
        ) < after.len() by {
            lemma_slot(after, other);
            let s = if other == id {
                k
            } else {
                lemma_slot(buckets, other);
                slot(buckets, other)
            };
            assert(after[s].id == other);
        }
    } else {
        assert forall|m: int| 0 <= m < after.len() implies (#[trigger] after[m]).inputs
            == attributes(more, after[m].id) && after[m].inputs.len() > 0 by {}
        assert forall|other: Seq<char>| (#[trigger] attributes(more, other)).len() > 0 implies slot(
            after,
            other,
        ) < after.len() by {
            lemma_slot(after, other);
            let s = if other == id {
                buckets.len() as int
            } else {
                lemma_slot(buckets, other);
                slot(buckets, other)
            };
            assert(after[s].id == other);
        }
    }
}

proof fn lemma_added_holds(items: Seq<(Seq<char>, InputsView)>)
    ensures
        holds(added(Seq::empty(), items), items),
    decreases items.len(),
{
    if items.len() > 0 {
        lemma_added_holds(items.drop_last());
        lemma_pushed_holds(
            added(Seq::empty(), items.drop_last()),
            items.drop_last(),
            items.last().0,
            items.last().1,
        );
        assert(items.drop_last().push((items.last().0, items.last().1)) =~= items);
    }
}

proof fn lemma_added_twice(
    buckets: Seq<Bucket>,
    first: Seq<(Seq<char>, InputsView)>,
    second: Seq<(Seq<char>, InputsView)>,
)
    ensures
        added(added(buckets, first), second) == added(buckets, first + second),
    decreases second.len(),
{
    if second.len() > 0 {
        lemma_added_twice(buckets, first, second.drop_last());
        assert((first + second).drop_last() =~= first + second.drop_last());
    }
}

/// Whether no identifier occurs twice among the buckets.
spec fn distinct(buckets: Seq<Bucket>) -> bool {
    forall|i: int, j: int|
        0 <= i < j < buckets.len() ==> (#[trigger] buckets[i]).id != (#[trigger] buckets[j]).id
}

proof fn lemma_cleaned(buckets: Seq<Bucket>)
    requires
        distinct(buckets),
    ensures
        distinct(cleaned(buckets)),
        forall|k: int|
            0 <= k < cleaned(buckets).len() ==> has_source((#[trigger] cleaned(buckets)[k]).inputs)
                && buckets.contains(cleaned(buckets)[k]),
        forall|j: int|
            0 <= j < buckets.len() && has_source((#[trigger] buckets[j]).inputs) ==> cleaned(
                buckets,
            ).contains(buckets[j]),
    decreases buckets.len(),
{
    reveal(Seq::filter);
    if buckets.len() > 0 {
        lemma_cleaned(buckets.drop_last());
    }
}

/// What the merge gives, told from what came in: each record is made from
/// the attributes that came under its identifier, among them a source; no
/// identifier has two records; and every identifier under which a source
/// came has a record.
pub proof fn lemma_merged(
    positions: Seq<Position>,
    sources: Seq<Source>,
    sliders: Seq<Option<Slider>>,
)
    ensures
        forall|k: int|
            #![trigger merged(positions, sources, sliders)[k]]
            0 <= k < merged(positions, sources, sliders).len() ==> {
                let r = merged(positions, sources, sliders)[k];
                let came = attributes(all_items(positions, sources, sliders), r.id);
                has_source(came) && r == record(r.id, came)
            },
        forall|i: int, j: int|
            #![trigger merged(positions, sources, sliders)[i], merged(positions, sources, sliders)[j]]
            0 <= i < j < merged(positions, sources, sliders).len() ==> merged(
                positions,
                sources,
                sliders,
            )[i].id != merged(positions, sources, sliders)[j].id,
        forall|id: Seq<char>|
            has_source(#[trigger] attributes(all_items(positions, sources, sliders), id))
                ==> exists|k: int|
                0 <= k < merged(positions, sources, sliders).len() && (#[trigger] merged(
                    positions,
                    sources,
                    sliders,
                )[k]).id == id,
{
    let items = all_items(positions, sources, sliders);
    let empty = Seq::<Bucket>::empty();
    let buckets = added(empty, items);
    lemma_added_twice(empty, keyed(positions), keyed(sources));
    lemma_added_twice(empty, keyed(positions) + keyed(sources), keyed(present(sliders)));
    lemma_added_holds(items);
    lemma_cleaned(buckets);
    let kept = cleaned(buckets);
    let m = merged(positions, sources, sliders);
    assert forall|id: Seq<char>| has_source(#[trigger] attributes(items, id)) implies exists|k: int|
        0 <= k < m.len() && (#[trigger] m[k]).id == id by {
        lemma_slot(buckets, id);
        let j = slot(buckets, id);
        let k = choose|k: int| 0 <= k < kept.len() && kept[k] == buckets[j];
        assert(m[k].id == id);
    }
}

proof fn lemma_attributes_contain(items: Seq<(Seq<char>, InputsView)>, id: Seq<char>)
    ensures
        forall|a: InputsView| #[trigger]
            attributes(items, id).contains(a) <==> items.contains((id, a)),
    decreases items.len(),
{
    let came = attributes(items, id);
    if items.len() > 0 {
        let front = items.drop_last();
        let before = attributes(front, id);
        lemma_attributes_contain(front, id);
        assert forall|a: InputsView| #[trigger] came.contains(a) implies items.contains((id, a)) by {
            let j = choose|j: int| 0 <= j < came.len() && came[j] == a;
            if j < before.len() {
                assert(before.contains(a));
            }
        }
        assert forall|a: InputsView| items.contains((id, a)) implies #[trigger] came.contains(a) by {
            let i = choose|i: int| 0 <= i < items.len() && items[i] == (id, a);
            if i < front.len() {
                assert(front[i] == (id, a));
                assert(before.contains(a));
                let j = choose|j: int| 0 <= j < before.len() && before[j] == a;
                assert(came[j] == a);
            } else {
                assert(came[came.len() - 1] == a);
            }
        }
    }
}

/// Whether a position is among the attributes.
spec fn has_place(inputs: Seq<InputsView>) -> bool {
    exists|j: int| 0 <= j < inputs.len() && inputs[j] is Position
}

/// Whether a trim is among the attributes.
spec fn has_trim(inputs: Seq<InputsView>) -> bool {
    exists|j: int| 0 <= j < inputs.len() && inputs[j] is Slider
}

spec fn place(a: InputsView) -> (u8, u8) {
    match a {
        InputsView::Position(p) => (p.x, p.y),
        _ => (0, 0),
    }
}

spec fn path(a: InputsView) -> Seq<char> {
    match a {
        InputsView::Source(s) => s.path,
        _ => Seq::empty(),
    }
}

spec fn trim(a: InputsView) -> Option<(u32, u32)> {
    match a {
        InputsView::Slider(s) => Some((s.start, s.end)),
        _ => None,
    }
}

proof fn lemma_place_of(inputs: Seq<InputsView>)
    ensures
        has_place(inputs) ==> exists|j: int|
            0 <= j < inputs.len() && (#[trigger] inputs[j]) is Position && place_of(inputs)
                == place(inputs[j]),
        !has_place(inputs) ==> place_of(inputs) == (0u8, 0u8),
    decreases inputs.len(),
{
    if inputs.len() > 0 {
        let front = inputs.drop_last();
        lemma_place_of(front);
        if !(inputs.last() is Position) && has_place(inputs) {
            let j = choose|j: int| 0 <= j < inputs.len() && inputs[j] is Position;
            assert(front[j] is Position);
        }
    }
}

proof fn lemma_path_of(inputs: Seq<InputsView>)
    ensures
        has_source(inputs) ==> exists|j: int|
            0 <= j < inputs.len() && (#[trigger] inputs[j]) is Source && path_of(inputs) == path(
                inputs[j],
            ),
        !has_source(inputs) ==> path_of(inputs) == Seq::<char>::empty(),
    decreases inputs.len(),
{
    if inputs.len() > 0 {
        let front = inputs.drop_last();
        lemma_path_of(front);
        if !(inputs.last() is Source) && has_source(inputs) {
            let j = choose|j: int| 0 <= j < inputs.len() && inputs[j] is Source;
            assert(front[j] is Source);
        }
    }
}

proof fn lemma_trim_of(inputs: Seq<InputsView>)
    ensures
        has_trim(inputs) ==> exists|j: int|
            0 <= j < inputs.len() && (#[trigger] inputs[j]) is Slider && trim_of(inputs) == trim(
                inputs[j],
            ),
        !has_trim(inputs) ==> trim_of(inputs) is None,
    decreases inputs.len(),
{
    if inputs.len() > 0 {
        let front = inputs.drop_last();
        lemma_trim_of(front);
        if !(inputs.last() is Slider) && has_trim(inputs) {
            let j = choose|j: int| 0 <= j < inputs.len() && inputs[j] is Slider;
            assert(front[j] is Slider);
        }
    }
}

/// A record made from attributes has both ends of a trim or neither.
pub proof fn lemma_record_paired(id: Seq<char>, inputs: Seq<InputsView>)
    ensures
        record(id, inputs).paired(),
{
}

/// Each record of a merge has both ends of a trim or neither.
pub proof fn lemma_merged_paired(
    positions: Seq<Position>,
    sources: Seq<Source>,
    sliders: Seq<Option<Slider>>,
)
    ensures
        forall|k: int|
            0 <= k < merged(positions, sources, sliders).len() ==> (#[trigger] merged(
                positions,
                sources,
                sliders,
            )[k]).paired(),
{
}

proof fn lemma_all_items(
    positions: Seq<Position>,
    sources: Seq<Source>,
    sliders: Seq<Option<Slider>>,
)
    ensures
        all_items(positions, sources, sliders).len() == positions.len() + sources.len() + present(
            sliders,
        ).len(),
        forall|i: int|
            0 <= i < positions.len() ==> #[trigger] all_items(positions, sources, sliders)[i] == (
                positions[i].id@,
                InputsView::Position(positions[i]@),
            ),
        forall|i: int|
            0 <= i < sources.len() ==> #[trigger] all_items(positions, sources, sliders)[positions.len()
                + i] == (sources[i].id@, InputsView::Source(sources[i]@)),
        forall|i: int|
            0 <= i < present(sliders).len() ==> #[trigger] all_items(
                positions,
                sources,
                sliders,
            )[positions.len() + sources.len() + i] == (
                present(sliders)[i].id@,
                InputsView::Slider(present(sliders)[i]@),
            ),
{
}

/// Whether a value of the list carries the identifier `id`.
pub open spec fn names<T: Identifiable>(values: Seq<T>, id: Seq<char>) -> bool {
    exists|j: int| 0 <= j < values.len() && (#[trigger] values[j]).ident() == id
}

proof fn lemma_came(
    positions: Seq<Position>,
    sources: Seq<Source>,
    sliders: Seq<Option<Slider>>,
    id: Seq<char>,
)
    ensures
        ({
            let came = attributes(all_items(positions, sources, sliders), id);
            &&& forall|a: InputsView|
                came.contains(a) && a is Position ==> exists|j: int|
                    0 <= j < positions.len() && (#[trigger] positions[j]).id@ == id && a
                        == InputsView::Position(positions[j]@)
            &&& forall|a: InputsView|
                came.contains(a) && a is Source ==> exists|j: int|
                    0 <= j < sources.len() && (#[trigger] sources[j]).id@ == id && a
                        == InputsView::Source(sources[j]@)
            &&& forall|a: InputsView|
                came.contains(a) && a is Slider ==> exists|j: int|
                    0 <= j < present(sliders).len() && (#[trigger] present(sliders)[j]).id@ == id
                        && a == InputsView::Slider(present(sliders)[j]@)
            &&& forall|j: int|
                0 <= j < positions.len() && (#[trigger] positions[j]).id@ == id ==> came.contains(
                    InputsView::Position(positions[j]@),
                )
            &&& forall|j: int|
                0 <= j < sources.len() && (#[trigger] sources[j]).id@ == id ==> came.contains(
                    InputsView::Source(sources[j]@),
                )
            &&& forall|j: int|
                0 <= j < present(sliders).len() && (#[trigger] present(sliders)[j]).id@ == id
                    ==> came.contains(InputsView::Slider(present(sliders)[j]@))
        }),
{
    let items = all_items(positions, sources, sliders);
    let came = attributes(items, id);
    let np = positions.len();
    let ns = sources.len();
    lemma_all_items(positions, sources, sliders);
    lemma_attributes_contain(items, id);
    assert forall|j: int|
        0 <= j < positions.len() && (#[trigger] positions[j]).id@ == id implies came.contains(
        InputsView::Position(positions[j]@),
    ) by {
        assert(items[j] == (id, InputsView::Position(positions[j]@)));
    }
    assert forall|j: int|
        0 <= j < sources.len() && (#[trigger] sources[j]).id@ == id implies came.contains(
        InputsView::Source(sources[j]@),
    ) by {
        assert(items[np + j] == (id, InputsView::Source(sources[j]@)));
    }
    assert forall|j: int|
        0 <= j < present(sliders).len() && (#[trigger] present(sliders)[j]).id@ == id implies came.contains(
        InputsView::Slider(present(sliders)[j]@),
    ) by {
        assert(items[np + ns + j] == (id, InputsView::Slider(present(sliders)[j]@)));
    }
}

/// An identifier has a record in the merge if and only if a source names
/// it.
pub proof fn lemma_merged_ids(
    positions: Seq<Position>,
    sources: Seq<Source>,
    sliders: Seq<Option<Slider>>,
    id: Seq<char>,
)
    ensures
        names(sources, id) <==> exists|k: int|
            0 <= k < merged(positions, sources, sliders).len() && (#[trigger] merged(
                positions,
                sources,
                sliders,
            )[k]).id == id,
{
    let items = all_items(positions, sources, sliders);
    let m = merged(positions, sources, sliders);
    let came = attributes(items, id);
    lemma_merged(positions, sources, sliders);
    lemma_came(positions, sources, sliders, id);
    if exists|k: int| 0 <= k < m.len() && (#[trigger] m[k]).id == id {
        let i = choose|i: int| 0 <= i < came.len() && came[i] is Source;
        assert(came.contains(came[i]));
    }
}

/// Where the fields of a record of the merge come from: the path from a
/// source of its identifier; column and row from a position of its
/// identifier, or zero where no position names it; both ends of the trim
/// from a trim of its identifier, or neither where no trim names it.
pub proof fn lemma_merged_fields(
    positions: Seq<Position>,
    sources: Seq<Source>,
    sliders: Seq<Option<Slider>>,
    k: int,
)
    requires
        0 <= k < merged(positions, sources, sliders).len(),
    ensures
        ({
            let r = merged(positions, sources, sliders)[k];
            &&& exists|j: int|
                0 <= j < sources.len() && (#[trigger] sources[j]).id@ == r.id && r.path
                    == sources[j].path@
            &&& if names(positions, r.id) {
                exists|j: int|
                    0 <= j < positions.len() && (#[trigger] positions[j]).id@ == r.id && r.x
                        == positions[j].x && r.y == positions[j].y
            } else {
                r.x == 0 && r.y == 0
            }
            &&& if names(present(sliders), r.id) {
                exists|j: int|
                    0 <= j < present(sliders).len() && (#[trigger] present(sliders)[j]).id@ == r.id
                        && r.start == Some(present(sliders)[j].values[0]) && r.end == Some(
                        present(sliders)[j].values[1],
                    )
            } else {
                r.start is None && r.end is None
            }
        }),
{
    let items = all_items(positions, sources, sliders);
    let m = merged(positions, sources, sliders);
    let r = m[k];
    let came = attributes(items, r.id);
    lemma_merged(positions, sources, sliders);
    lemma_came(positions, sources, sliders, r.id);
    lemma_place_of(came);
    lemma_path_of(came);
    lemma_trim_of(came);
    {
        let i = choose|i: int|
            0 <= i < came.len() && (#[trigger] came[i]) is Source && path_of(came) == path(came[i]);
        assert(came.contains(came[i]));
    }
    if names(positions, r.id) {
        let i = choose|i: int|
            0 <= i < came.len() && (#[trigger] came[i]) is Position && place_of(came) == place(
                came[i],
            );
        assert(came.contains(came[i]));
    } else {
        if has_place(came) {
            let i = choose|i: int| 0 <= i < came.len() && came[i] is Position;
            assert(came.contains(came[i]));
        }
    }
    if names(present(sliders), r.id) {
        let i = choose|i: int|
            0 <= i < came.len() && (#[trigger] came[i]) is Slider && trim_of(came) == trim(came[i]);
        assert(came.contains(came[i]));
    } else {
        if has_trim(came) {
            let i = choose|i: int| 0 <= i < came.len() && came[i] is Slider;
            assert(came.contains(came[i]));
        }
    }
}

/// No record of a merge has an empty path, as long as no source has one.
pub proof fn lemma_merged_paths(
    positions: Seq<Position>,
    sources: Seq<Source>,
    sliders: Seq<Option<Slider>>,
)
    requires
        forall|j: int| 0 <= j < sources.len() ==> (#[trigger] sources[j]).path@.len() > 0,
    ensures
        forall|k: int|
            0 <= k < merged(positions, sources, sliders).len() ==> (#[trigger] merged(
                positions,
                sources,
                sliders,
            )[k]).path.len() > 0,
{
    let m = merged(positions, sources, sliders);
    assert forall|k: int| 0 <= k < m.len() implies (#[trigger] m[k]).path.len() > 0 by {
        lemma_merged_fields(positions, sources, sliders, k);
    }
}

spec fn same_kind(a: InputsView, b: InputsView) -> bool {
    (a is Position && b is Position) || (a is Source && b is Source) || (a is Slider && b is Slider)
}

/// Whether the attributes of one kind that came under one identifier are
/// all the same.
spec fn consistent(items: Seq<(Seq<char>, InputsView)>) -> bool {
    forall|a: (Seq<char>, InputsView), b: (Seq<char>, InputsView)|
        #![trigger items.contains(a), items.contains(b)]
        items.contains(a) && items.contains(b) && a.0 == b.0 && same_kind(a.1, b.1) ==> a.1 == b.1
}

spec fn same_elements<T>(a: Seq<T>, b: Seq<T>) -> bool {
    forall|e: T| #[trigger] a.contains(e) <==> b.contains(e)
}

proof fn lemma_record_of_same(
    first: Seq<(Seq<char>, InputsView)>,
    second: Seq<(Seq<char>, InputsView)>,
    id: Seq<char>,
)
    requires
        same_elements(first, second),
        consistent(first),
    ensures
        has_source(attributes(first, id)) == has_source(attributes(second, id)),
        record(id, attributes(first, id)) == record(id, attributes(second, id)),
{
    let a = attributes(first, id);
    let b = attributes(second, id);
    lemma_attributes_contain(first, id);
    lemma_attributes_contain(second, id);
    assert forall|x: InputsView| #[trigger] a.contains(x) <==> b.contains(x) by {}
    lemma_place_of(a);
    lemma_place_of(b);
    lemma_path_of(a);
    lemma_path_of(b);
    lemma_trim_of(a);
    lemma_trim_of(b);
    if has_place(a) {
        let i = choose|i: int|
            0 <= i < a.len() && (#[trigger] a[i]) is Position && place_of(a) == place(a[i]);
        assert(a.contains(a[i]));
        let j = choose|j: int|
            0 <= j < b.len() && (#[trigger] b[j]) is Position && place_of(b) == place(b[j]);
        assert(a.contains(b[j]));
    } else if has_place(b) {
        let j = choose|j: int| 0 <= j < b.len() && b[j] is Position;
        assert(a.contains(b[j]));
    }
    if has_source(a) {
        let i = choose|i: int|
            0 <= i < a.len() && (#[trigger] a[i]) is Source && path_of(a) == path(a[i]);
        assert(a.contains(a[i]));
        let j = choose|j: int|
            0 <= j < b.len() && (#[trigger] b[j]) is Source && path_of(b) == path(b[j]);
        assert(a.contains(b[j]));
    } else if has_source(b) {
        let j = choose|j: int| 0 <= j < b.len() && b[j] is Source;
        assert(a.contains(b[j]));
    }
    if has_trim(a) {
        let i = choose|i: int|
            0 <= i < a.len() && (#[trigger] a[i]) is Slider && trim_of(a) == trim(a[i]);
        assert(a.contains(a[i]));
        let j = choose|j: int|
            0 <= j < b.len() && (#[trigger] b[j]) is Slider && trim_of(b) == trim(b[j]);
        assert(a.contains(b[j]));
    } else if has_trim(b) {
        let j = choose|j: int| 0 <= j < b.len() && b[j] is Slider;
        assert(a.contains(b[j]));
    }
}

/// The same values in another order.
pub open spec fn reordered<T>(first: Seq<T>, second: Seq<T>) -> bool {
    first.to_multiset() == second.to_multiset()
}

/// No identifier occurs twice among the values.
pub open spec fn one_each<T: Identifiable>(values: Seq<T>) -> bool {
    forall|i: int, j: int|
        0 <= i < j < values.len() ==> (#[trigger] values[i]).ident() != (
        #[trigger] values[j]).ident()
}

proof fn lemma_present_contains<T>(values: Seq<Option<T>>)
    ensures
        forall|v: T| #[trigger] present(values).contains(v) <==> values.contains(Some(v)),
    decreases values.len(),
{
    let there = present(values);
    if values.len() > 0 {
        let front = values.drop_last();
        let before = present(front);
        lemma_present_contains(front);
        assert forall|v: T| #[trigger] there.contains(v) implies values.contains(Some(v)) by {
            let j = choose|j: int| 0 <= j < there.len() && there[j] == v;
            if j < before.len() {
                assert(before.contains(v));
            }
        }
        assert forall|v: T| values.contains(Some(v)) implies #[trigger] there.contains(v) by {
            let i = choose|i: int| 0 <= i < values.len() && values[i] == Some(v);
            if i < front.len() {
                assert(front[i] == Some(v));
                assert(before.contains(v));
                let j = choose|j: int| 0 <= j < before.len() && before[j] == v;
                assert(there[j] == v);
            } else {
                assert(there[there.len() - 1] == v);
            }
        }
    }
}

proof fn lemma_reordered_items(
    positions: Seq<Position>,
    sources: Seq<Source>,
    sliders: Seq<Option<Slider>>,
    positions2: Seq<Position>,
    sources2: Seq<Source>,
    sliders2: Seq<Option<Slider>>,
    e: (Seq<char>, InputsView),
)
    requires
        reordered(positions, positions2),
        reordered(sources, sources2),
        reordered(sliders, sliders2),
        all_items(positions, sources, sliders).contains(e),
    ensures
        all_items(positions2, sources2, sliders2).contains(e),
{
    let items = all_items(positions, sources, sliders);
    let items2 = all_items(positions2, sources2, sliders2);
    lemma_all_items(positions, sources, sliders);
    lemma_all_items(positions2, sources2, sliders2);
    positions.to_multiset_ensures();
    positions2.to_multiset_ensures();
    sources.to_multiset_ensures();
    sources2.to_multiset_ensures();
    sliders.to_multiset_ensures();
    sliders2.to_multiset_ensures();
    lemma_present_contains(sliders);
    lemma_present_contains(sliders2);
    let i = choose|i: int| 0 <= i < items.len() && items[i] == e;
    if i < positions.len() {
        assert(positions.to_multiset().count(positions[i]) > 0);
        let j = choose|j: int| 0 <= j < positions2.len() && positions2[j] == positions[i];
        assert(items2[j] == e);
    } else if i < positions.len() + sources.len() {
        let at = i - positions.len();
        assert(sources.to_multiset().count(sources[at]) > 0);
        let j = choose|j: int| 0 <= j < sources2.len() && sources2[j] == sources[at];
        assert(items2[positions2.len() + j] == e);
    } else {
        let at = i - positions.len() - sources.len();
        let v = present(sliders)[at];
        assert(present(sliders).contains(v));
        assert(sliders.to_multiset().count(Some(v)) > 0);
        assert(present(sliders2).contains(v));
        let j = choose|j: int| 0 <= j < present(sliders2).len() && present(sliders2)[j] == v;
        assert(items2[positions2.len() + sources2.len() + j] == e);
    }
}

proof fn lemma_one_each_consistent(
    positions: Seq<Position>,
    sources: Seq<Source>,
    sliders: Seq<Option<Slider>>,
)
    requires
        one_each(positions),
        one_each(sources),
        one_each(present(sliders)),
    ensures
        consistent(all_items(positions, sources, sliders)),
{
    lemma_all_items(positions, sources, sliders);
}

proof fn lemma_merged_within(
    first: (Seq<Position>, Seq<Source>, Seq<Option<Slider>>),
    second: (Seq<Position>, Seq<Source>, Seq<Option<Slider>>),
    r: PrimedView,
)
    requires
        same_elements(
            all_items(first.0, first.1, first.2),
            all_items(second.0, second.1, second.2),
        ),
        consistent(all_items(first.0, first.1, first.2)),
        merged(first.0, first.1, first.2).contains(r),
    ensures
        merged(second.0, second.1, second.2).contains(r),
{
    let items1 = all_items(first.0, first.1, first.2);
    let items2 = all_items(second.0, second.1, second.2);
    lemma_merged(first.0, first.1, first.2);
    lemma_merged(second.0, second.1, second.2);
    lemma_record_of_same(items1, items2, r.id);
}

/// A merge gives the same set of records whatever the order of each of the
/// three lists, as long as no list names an identifier twice.
pub proof fn lemma_merged_reordered(
    positions: Seq<Position>,
    sources: Seq<Source>,
    sliders: Seq<Option<Slider>>,
    positions2: Seq<Position>,
    sources2: Seq<Source>,
    sliders2: Seq<Option<Slider>>,
)
    requires
        reordered(positions, positions2),
        reordered(sources, sources2),
        reordered(sliders, sliders2),
        one_each(positions),
        one_each(sources),
        one_each(present(sliders)),
    ensures
        merged(positions, sources, sliders).to_set() == merged(
            positions2,
            sources2,
            sliders2,
        ).to_set(),
{
    let items = all_items(positions, sources, sliders);
    let items2 = all_items(positions2, sources2, sliders2);
    let m = merged(positions, sources, sliders);
    let m2 = merged(positions2, sources2, sliders2);
    assert forall|e: (Seq<char>, InputsView)| #[trigger] items.contains(e) <==> items2.contains(
        e,
    ) by {
        if items.contains(e) {
            lemma_reordered_items(positions, sources, sliders, positions2, sources2, sliders2, e);
        }
        if items2.contains(e) {
            lemma_reordered_items(positions2, sources2, sliders2, positions, sources, sliders, e);
        }
    }
    lemma_one_each_consistent(positions, sources, sliders);
    assert(consistent(items2)) by {
        assert forall|a: (Seq<char>, InputsView), b: (Seq<char>, InputsView)|
            #![trigger items2.contains(a), items2.contains(b)]
            items2.contains(a) && items2.contains(b) && a.0 == b.0 && same_kind(a.1, b.1) implies a.1
            == b.1 by {
            assert(items.contains(a) && items.contains(b));
        }
    }
    assert forall|r: PrimedView| m.contains(r) <==> m2.contains(r) by {
        if m.contains(r) {
            lemma_merged_within(
                (positions, sources, sliders),
                (positions2, sources2, sliders2),
                r,
            );
        }
        if m2.contains(r) {
            lemma_merged_within(
                (positions2, sources2, sliders2),
                (positions, sources, sliders),
                r,
            );
        }
    }
}

} // verus!
