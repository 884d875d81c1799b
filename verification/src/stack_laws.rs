use crate::grouping::views;
use crate::priming::{Primed, PrimedView};
use crate::stacking::{
    classify, columns, inserted, is_root, lemma_root_unique, sort_key, sorted, Stack,
};
use vstd::prelude::*;

verus! {

/// A set in which every column is zero is a column, whatever its rows.
pub proof fn lemma_classify_vertical(records: Seq<PrimedView>)
    requires
        forall|i: int| 0 <= i < records.len() ==> records[i].x == 0,
    ensures
        classify(records) == Stack::Vertical,
{
}

/// A set in which every row is zero, but not every column, is a row.
pub proof fn lemma_classify_horizontal(records: Seq<PrimedView>, i: int)
    requires
        forall|j: int| 0 <= j < records.len() ==> records[j].y == 0,
        0 <= i < records.len(),
        records[i].x != 0,
    ensures
        classify(records) == Stack::Horizontal,
{
}

/// A set with a column that is not zero and a row that is not zero is a
/// grid.
pub proof fn lemma_classify_grid(records: Seq<PrimedView>, i: int, j: int)
    requires
        0 <= i < records.len(),
        records[i].x != 0,
        0 <= j < records.len(),
        records[j].y != 0,
    ensures
        classify(records) == Stack::X,
{
}

proof fn lemma_root_exists(n: nat) -> (r: nat)
    ensures
        is_root(n, r),
    decreases n,
{
    if n == 0 {
        assert(is_root(0, 0)) by (nonlinear_arith);
        0
    } else {
        let r = lemma_root_exists((n - 1) as nat);
        if (r + 1) * (r + 1) <= n {
            assert(n < (r + 2) * (r + 2)) by (nonlinear_arith)
                requires
                    n - 1 < (r + 1) * (r + 1),
            ;
            r + 1
        } else {
            r
        }
    }
}

/// Every grid has a number of columns, and it is the one whole root of the
/// number of its cells.
pub proof fn lemma_columns(n: nat)
    ensures
        is_root(n, columns(n)),
        forall|r: nat| is_root(n, r) ==> r == columns(n),
{
    lemma_root_exists(n);
    assert forall|r: nat| is_root(n, r) implies r == columns(n) by {
        lemma_root_unique(n, r, columns(n));
    }
}

/// Whether the keys never fall along the sequence.
pub open spec fn ordered(stack: Stack, records: Seq<Primed>) -> bool {
    forall|i: int, j: int|
        0 <= i <= j < records.len() ==> sort_key(stack, records[i]@) <= sort_key(
            stack,
            records[j]@,
        )
}

/// The records with key `k`, in their order.
pub open spec fn with_key(stack: Stack, records: Seq<Primed>, k: int) -> Seq<Primed>
    decreases records.len(),
{
    if records.len() == 0 {
        records
    } else if sort_key(stack, records.last()@) == k {
        with_key(stack, records.drop_last(), k).push(records.last())
    } else {
        with_key(stack, records.drop_last(), k)
    }
}

proof fn lemma_with_key_add(stack: Stack, first: Seq<Primed>, second: Seq<Primed>, k: int)
    ensures
        with_key(stack, first + second, k) == with_key(stack, first, k) + with_key(
            stack,
            second,
            k,
        ),
    decreases second.len(),
{
    if second.len() > 0 {
        lemma_with_key_add(stack, first, second.drop_last(), k);
        assert((first + second).drop_last() =~= first + second.drop_last());
    }
}

proof fn lemma_with_key_none(stack: Stack, records: Seq<Primed>, k: int)
    requires
        forall|i: int| 0 <= i < records.len() ==> sort_key(stack, records[i]@) != k,
    ensures
        with_key(stack, records, k) == Seq::<Primed>::empty(),
    decreases records.len(),
{
    if records.len() > 0 {
        lemma_with_key_none(stack, records.drop_last(), k);
    }
}

/// Where a record lands in an ordered sequence: at the place `at` behind
/// the records whose keys are not greater and before those whose keys are.
proof fn lemma_inserted(stack: Stack, records: Seq<Primed>, p: Primed) -> (at: int)
    requires
        ordered(stack, records),
    ensures
        0 <= at <= records.len(),
        inserted(stack, records, p) == records.insert(at, p),
        forall|m: int| 0 <= m < at ==> sort_key(stack, records[m]@) <= sort_key(stack, p@),
        forall|m: int|
            at <= m < records.len() ==> sort_key(stack, records[m]@) > sort_key(stack, p@),
    decreases records.len(),
{
    if records.len() == 0 {
        0
    } else if sort_key(stack, records.last()@) <= sort_key(stack, p@) {
        assert forall|m: int| 0 <= m < records.len() implies sort_key(stack, records[m]@)
            <= sort_key(stack, p@) by {}
        records.len() as int
    } else {
        let front = records.drop_last();
        let at = lemma_inserted(stack, front, p);
        assert forall|m: int| at <= m < records.len() implies sort_key(stack, records[m]@)
            > sort_key(stack, p@) by {
            if m < front.len() {
                assert(front[m] == records[m]);
            }
        }
        at
    }
}

proof fn lemma_inserted_ordered(stack: Stack, records: Seq<Primed>, p: Primed)
    requires
        ordered(stack, records),
    ensures
        ordered(stack, inserted(stack, records, p)),
{
    lemma_inserted(stack, records, p);
}

proof fn lemma_inserted_with_key(stack: Stack, records: Seq<Primed>, p: Primed, k: int)
    requires
        ordered(stack, records),
    ensures
        with_key(stack, inserted(stack, records, p), k) == if sort_key(stack, p@) == k {
            with_key(stack, records, k).push(p)
        } else {
            with_key(stack, records, k)
        },
{
    let at = lemma_inserted(stack, records, p);
    let front = records.subrange(0, at);
    let back = records.subrange(at, records.len() as int);
    assert(records =~= front + back);
    lemma_with_key_add(stack, front, back, k);
    lemma_with_key_add(stack, front.push(p), back, k);
    assert(front.push(p).drop_last() =~= front);
    if sort_key(stack, p@) == k {
        lemma_with_key_none(stack, back, k);
    }
}

/// Sorting puts the records in the order of their keys.
pub proof fn lemma_sorted_ordered(stack: Stack, records: Seq<Primed>)
    ensures
        ordered(stack, sorted(stack, records)),
    decreases records.len(),
{
    if records.len() > 0 {
        lemma_sorted_ordered(stack, records.drop_last());
        lemma_inserted_ordered(stack, sorted(stack, records.drop_last()), records.last());
    }
}

/// Sorting is stable: the records of any one key stand after it as they
/// stood before.
pub proof fn lemma_sorted_stable(stack: Stack, records: Seq<Primed>, k: int)
    ensures
        with_key(stack, sorted(stack, records), k) == with_key(stack, records, k),
    decreases records.len(),
{
    if records.len() > 0 {
        lemma_sorted_stable(stack, records.drop_last(), k);
        lemma_sorted_ordered(stack, records.drop_last());
        lemma_inserted_with_key(stack, sorted(stack, records.drop_last()), records.last(), k);
    }
}

/// Sorting keeps every record, as often as it was there.
pub proof fn lemma_sorted_permutes(stack: Stack, records: Seq<Primed>)
    ensures
        sorted(stack, records).to_multiset() == records.to_multiset(),
    decreases records.len(),
{
    if records.len() > 0 {
        let front = records.drop_last();
        lemma_sorted_permutes(stack, front);
        lemma_sorted_ordered(stack, front);
        let at = lemma_inserted(stack, sorted(stack, front), records.last());
        vstd::seq_lib::to_multiset_insert(sorted(stack, front), at, records.last());
        vstd::seq_lib::to_multiset_build(front, records.last());
        assert(front.push(records.last()) =~= records);
    }
}

/// Sorting does not change the mode that the records call for.
pub proof fn lemma_sorted_same_mode(stack: Stack, records: Seq<Primed>)
    ensures
        classify(views(sorted(stack, records))) == classify(views(records)),
{
    let after = sorted(stack, records);
    lemma_sorted_permutes(stack, records);
    after.to_multiset_ensures();
    records.to_multiset_ensures();
    assert forall|p: Primed| after.contains(p) <==> records.contains(p) by {
        assert(after.contains(p) <==> after.to_multiset().count(p) > 0);
    }
    let a = views(after);
    let b = views(records);
    assert forall|i: int| 0 <= i < a.len() implies b.contains(#[trigger] a[i]) by {
        assert(after.contains(after[i]));
        let j = choose|j: int| 0 <= j < records.len() && records[j] == after[i];
        assert(b[j] == a[i]);
    }
    assert forall|j: int| 0 <= j < b.len() implies a.contains(#[trigger] b[j]) by {
        assert(records.contains(records[j]));
        let i = choose|i: int| 0 <= i < after.len() && after[i] == records[j];
        assert(a[i] == b[j]);
    }
    let all_x_a = forall|i: int| 0 <= i < a.len() ==> a[i].x == 0;
    let all_x_b = forall|i: int| 0 <= i < b.len() ==> b[i].x == 0;
    let all_y_a = forall|i: int| 0 <= i < a.len() ==> a[i].y == 0;
    let all_y_b = forall|i: int| 0 <= i < b.len() ==> b[i].y == 0;
    assert(all_x_a == all_x_b);
    assert(all_y_a == all_y_b);
}

} // verus!
