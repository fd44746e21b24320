//! What holds of reconciliation as a whole.

use crate::aggregate::{aggregated, projection, row_amounts, row_key, BucketView, Qualifier};
use crate::arrange::{arranges, ascending};
use crate::grouping::{
    combined, field_of, group_key, group_of, group_tally, lemma_combined_known,
    lemma_combined_permutation, lemma_combined_unknown, lemma_grouped_all_known,
    lemma_grouped_all_unknown, lemma_grouped_keys, lemma_grouped_partition,
    lemma_grouped_permutation, lemma_grouped_total, lemma_keys_single, lemma_total_permutation,
    mass, total, Field, TallyView,
};
use crate::ledger::merged_rows;
use crate::order::{key_precedes, lemma_key_order_irreflexive, lemma_key_order_transitive};
use crate::reconcile::{
    collected, reconciled, stage_reports, NodeCapacity, PodRequest, PodUsage, Stage, StageOutcome,
};
use crate::sample::{IdentityView, RowView};
use vstd::prelude::*;
use vstd::seq_lib::*;

verus! {

/// The sums of the bucket of one key.
pub open spec fn bucket_tally(
    samples: Seq<RowView>,
    qualifiers: Seq<Qualifier>,
    key: Seq<Option<Seq<char>>>,
) -> TallyView {
    combined(merged_rows(samples), row_key(qualifiers), row_amounts(), key)
}

/// Buckets in ascending order are in one order only: two sequences that hold
/// the same buckets are the same sequence.
pub proof fn lemma_arrangement_unique(first: Seq<BucketView>, second: Seq<BucketView>)
    requires
        ascending(first),
        ascending(second),
        first.to_multiset() == second.to_multiset(),
    ensures
        first == second,
    decreases first.len(),
{
    broadcast use group_to_multiset_ensures;

    to_multiset_len(first);
    to_multiset_len(second);
    if first.len() == 0 {
        assert(first =~= second);
    } else {
        let x = first[0];
        let y = second[0];
        assert(first.contains(x));
        assert(second.contains(y));
        assert(second.to_multiset().count(x) > 0);
        assert(first.to_multiset().count(y) > 0);
        assert(second.contains(x));
        assert(first.contains(y));
        let j = choose|j: int| 0 <= j < second.len() && second[j] == x;
        let i = choose|i: int| 0 <= i < first.len() && first[i] == y;
        if j > 0 && i > 0 {
            assert(key_precedes(second[0].key, second[j].key));
            assert(key_precedes(first[0].key, first[i].key));
            lemma_key_order_transitive(x.key, y.key, x.key);
            lemma_key_order_irreflexive(x.key);
        }
        assert(x == y);
        let a = first.remove(0);
        let b = second.remove(0);
        assert(a.to_multiset() =~= b.to_multiset());
        assert forall|p: int, q: int| 0 <= p < q < a.len() implies key_precedes(
            (#[trigger] a[p]).key,
            (#[trigger] a[q]).key,
        ) by {
            assert(a[p] == first[p + 1] && a[q] == first[q + 1]);
        }
        assert forall|p: int, q: int| 0 <= p < q < b.len() implies key_precedes(
            (#[trigger] b[p]).key,
            (#[trigger] b[q]).key,
        ) by {
            assert(b[p] == second[p + 1] && b[q] == second[q + 1]);
        }
        lemma_arrangement_unique(a, b);
        assert forall|k: int| 0 <= k < first.len() implies first[k] == second[k] by {
            if k > 0 {
                assert(first[k] == a[k - 1]);
                assert(second[k] == b[k - 1]);
            }
        }
        assert(first =~= second);
    }
}

/// The buckets of one key are the same, whatever the order of the samples.
pub proof fn lemma_same_buckets(
    first: Seq<RowView>,
    second: Seq<RowView>,
    qualifiers: Seq<Qualifier>,
)
    requires
        first.to_multiset() == second.to_multiset(),
    ensures
        reconciled(first, qualifiers).to_multiset() == reconciled(second, qualifiers).to_multiset(),
        forall|key: Seq<Option<Seq<char>>>|
            bucket_tally(first, qualifiers, key) == bucket_tally(second, qualifiers, key),
{
    lemma_grouped_permutation(first, second, group_key(), group_tally());
    lemma_grouped_permutation(
        merged_rows(first),
        merged_rows(second),
        row_key(qualifiers),
        row_amounts(),
    );
    assert forall|key: Seq<Option<Seq<char>>>|
        bucket_tally(first, qualifiers, key) == bucket_tally(second, qualifiers, key) by {
        lemma_combined_permutation(
            merged_rows(first),
            merged_rows(second),
            row_key(qualifiers),
            row_amounts(),
            key,
        );
    }
}

/// Reconciliation does not depend on the order of the samples: the same
/// samples in any order give the same rows, in the same order, with the same
/// sums.
pub proof fn lemma_order_independence(
    first: Seq<RowView>,
    second: Seq<RowView>,
    qualifiers: Seq<Qualifier>,
    rows_of_first: Seq<BucketView>,
    rows_of_second: Seq<BucketView>,
)
    requires
        first.to_multiset() == second.to_multiset(),
        arranges(rows_of_first, reconciled(first, qualifiers)),
        arranges(rows_of_second, reconciled(second, qualifiers)),
    ensures
        rows_of_first == rows_of_second,
{
    lemma_same_buckets(first, second, qualifiers);
    lemma_arrangement_unique(rows_of_first, rows_of_second);
}

/// Three sequences joined in any order hold the same elements equally often.
proof fn lemma_same_samples<T>(a: Seq<T>, b: Seq<T>, c: Seq<T>)
    ensures
        (a + c + b).to_multiset() == (a + b + c).to_multiset(),
        (b + a + c).to_multiset() == (a + b + c).to_multiset(),
        (b + c + a).to_multiset() == (a + b + c).to_multiset(),
        (c + a + b).to_multiset() == (a + b + c).to_multiset(),
        (c + b + a).to_multiset() == (a + b + c).to_multiset(),
{
    broadcast use vstd::multiset::group_multiset_axioms;

    lemma_multiset_commutative(a, b);
    lemma_multiset_commutative(a + b, c);
    lemma_multiset_commutative(a, c);
    lemma_multiset_commutative(a + c, b);
    lemma_multiset_commutative(b, a);
    lemma_multiset_commutative(b + a, c);
    lemma_multiset_commutative(b, c);
    lemma_multiset_commutative(b + c, a);
    lemma_multiset_commutative(c, a);
    lemma_multiset_commutative(c + a, b);
    lemma_multiset_commutative(c, b);
    lemma_multiset_commutative(c + b, a);
    let ma = a.to_multiset();
    let mb = b.to_multiset();
    let mc = c.to_multiset();
    assert(ma.add(mc).add(mb) =~= ma.add(mb).add(mc));
    assert(mb.add(ma).add(mc) =~= ma.add(mb).add(mc));
    assert(mb.add(mc).add(ma) =~= ma.add(mb).add(mc));
    assert(mc.add(ma).add(mb) =~= ma.add(mb).add(mc));
    assert(mc.add(mb).add(ma) =~= ma.add(mb).add(mc));
}

/// The three sample sets of a reconciliation may be merged in any of the six
/// orders of the stages: the rows that result are those of the order in
/// which the stages run.
pub proof fn lemma_stage_order(
    capacity: Seq<RowView>,
    requests: Seq<RowView>,
    usage: Seq<RowView>,
    qualifiers: Seq<Qualifier>,
    rows: Seq<BucketView>,
)
    requires
        arranges(rows, reconciled(capacity + requests + usage, qualifiers)),
    ensures
        arranges(rows, reconciled(capacity + usage + requests, qualifiers)),
        arranges(rows, reconciled(requests + capacity + usage, qualifiers)),
        arranges(rows, reconciled(requests + usage + capacity, qualifiers)),
        arranges(rows, reconciled(usage + capacity + requests, qualifiers)),
        arranges(rows, reconciled(usage + requests + capacity, qualifiers)),
        forall|key: Seq<Option<Seq<char>>>|
            {
                let sums = bucket_tally(capacity + requests + usage, qualifiers, key);
                &&& #[trigger] bucket_tally(capacity + usage + requests, qualifiers, key) == sums
                &&& bucket_tally(requests + capacity + usage, qualifiers, key) == sums
                &&& bucket_tally(requests + usage + capacity, qualifiers, key) == sums
                &&& bucket_tally(usage + capacity + requests, qualifiers, key) == sums
                &&& bucket_tally(usage + requests + capacity, qualifiers, key) == sums
            },
{
    let base = capacity + requests + usage;
    lemma_same_samples(capacity, requests, usage);
    lemma_same_buckets(capacity + usage + requests, base, qualifiers);
    lemma_same_buckets(requests + capacity + usage, base, qualifiers);
    lemma_same_buckets(requests + usage + capacity, base, qualifiers);
    lemma_same_buckets(usage + capacity + requests, base, qualifiers);
    lemma_same_buckets(usage + requests + capacity, base, qualifiers);
}

/// Every row of an arrangement is one of the groups.
proof fn lemma_arranged_member(buckets: Seq<BucketView>, groups: Seq<BucketView>, j: int)
    requires
        arranges(buckets, groups),
        0 <= j < buckets.len(),
    ensures
        groups.contains(buckets[j]),
{
    broadcast use group_to_multiset_ensures;

    assert(buckets.contains(buckets[j]));
    assert(groups.to_multiset().count(buckets[j]) > 0);
}

/// Where only the capacity stage succeeds, the reconciliation still
/// completes: every row of the result has its capacity populated and its
/// request and usage unknown, and each of the two failed stages is reported.
pub proof fn lemma_capacity_alone(
    capacity: StageOutcome<NodeCapacity>,
    requests: StageOutcome<PodRequest>,
    usage: StageOutcome<PodUsage>,
    qualifiers: Seq<Qualifier>,
    rows: Seq<BucketView>,
)
    requires
        capacity is Collected,
        !(requests is Collected),
        !(usage is Collected),
        arranges(
            rows,
            reconciled(collected(capacity) + collected(requests) + collected(usage), qualifiers),
        ),
    ensures
        forall|j: int|
            0 <= j < rows.len() ==> {
                &&& (#[trigger] rows[j]).tally.capacity is Some
                &&& rows[j].tally.requested is None
                &&& rows[j].tally.used is None
            },
        (stage_reports(Stage::Capacity, capacity) + stage_reports(Stage::Requests, requests)
            + stage_reports(Stage::Usage, usage)).len() == 2,
{
    let samples = collected(capacity) + collected(requests) + collected(usage);
    assert(samples =~= collected(capacity));
    let merged = merged_rows(samples);
    assert forall|i: int| 0 <= i < samples.len() implies {
        &&& field_of(#[trigger] group_tally::<IdentityView>()(samples[i]), Field::Capacity) is Some
        &&& field_of(group_tally::<IdentityView>()(samples[i]), Field::Requested) is None
        &&& field_of(group_tally::<IdentityView>()(samples[i]), Field::Used) is None
    } by {
    }
    lemma_grouped_all_known(samples, group_key(), group_tally(), Field::Capacity);
    lemma_grouped_all_unknown(samples, group_key(), group_tally(), Field::Requested);
    lemma_grouped_all_unknown(samples, group_key(), group_tally(), Field::Used);
    assert forall|i: int| 0 <= i < merged.len() implies {
        &&& field_of(#[trigger] row_amounts()(merged[i]), Field::Capacity) is Some
        &&& field_of(row_amounts()(merged[i]), Field::Requested) is None
        &&& field_of(row_amounts()(merged[i]), Field::Used) is None
    } by {
        assert(field_of(merged[i].tally, Field::Capacity) is Some);
        assert(field_of(merged[i].tally, Field::Requested) is None);
        assert(field_of(merged[i].tally, Field::Used) is None);
    }
    lemma_grouped_all_known(merged, row_key(qualifiers), row_amounts(), Field::Capacity);
    lemma_grouped_all_unknown(merged, row_key(qualifiers), row_amounts(), Field::Requested);
    lemma_grouped_all_unknown(merged, row_key(qualifiers), row_amounts(), Field::Used);
    let groups = reconciled(samples, qualifiers);
    assert forall|j: int| 0 <= j < rows.len() implies {
        &&& (#[trigger] rows[j]).tally.capacity is Some
        &&& rows[j].tally.requested is None
        &&& rows[j].tally.used is None
    } by {
        lemma_arranged_member(rows, groups, j);
        let i = choose|i: int| 0 <= i < groups.len() && groups[i] == rows[j];
        assert(field_of(groups[i].tally, Field::Capacity) is Some);
        assert(field_of(groups[i].tally, Field::Requested) is None);
        assert(field_of(groups[i].tally, Field::Used) is None);
    }
}

/// Where all three stages fail, the reconciliation still completes: there
/// are no rows, and every stage is reported.
pub proof fn lemma_total_failure(
    capacity: StageOutcome<NodeCapacity>,
    requests: StageOutcome<PodRequest>,
    usage: StageOutcome<PodUsage>,
    qualifiers: Seq<Qualifier>,
    rows: Seq<BucketView>,
)
    requires
        !(capacity is Collected),
        !(requests is Collected),
        !(usage is Collected),
        arranges(
            rows,
            reconciled(collected(capacity) + collected(requests) + collected(usage), qualifiers),
        ),
    ensures
        rows.len() == 0,
        (stage_reports(Stage::Capacity, capacity) + stage_reports(Stage::Requests, requests)
            + stage_reports(Stage::Usage, usage)).len() == 3,
{
    let samples = collected(capacity) + collected(requests) + collected(usage);
    assert(samples =~= Seq::<RowView>::empty());
    assert(merged_rows(samples).len() == 0);
    assert(reconciled(samples, qualifiers).len() == 0);
    to_multiset_len(rows);
    to_multiset_len(reconciled(samples, qualifiers));
}

/// A merged row knows an amount if and only if a sample of its identity
/// populates it: what no source measured stays unknown and does not turn
/// into zero.
pub proof fn lemma_unknown_stays_unknown(samples: Seq<RowView>, j: int, f: Field)
    requires
        0 <= j < merged_rows(samples).len(),
    ensures
        field_of(merged_rows(samples)[j].tally, f) is Some <==> exists|i: int|
            0 <= i < samples.len() && (#[trigger] samples[i]).key == merged_rows(samples)[j].key
                && field_of(samples[i].tally, f) is Some,
{
    let key = merged_rows(samples)[j].key;
    if exists|i: int|
        0 <= i < samples.len() && (#[trigger] samples[i]).key == key && field_of(
            samples[i].tally,
            f,
        ) is Some {
        let i = choose|i: int|
            0 <= i < samples.len() && (#[trigger] samples[i]).key == key && field_of(
                samples[i].tally,
                f,
            ) is Some;
        lemma_combined_known(samples, group_key(), group_tally(), key, f, i);
    } else {
        assert forall|i: int|
            0 <= i < samples.len() && #[trigger] group_key::<IdentityView>()(samples[i])
                == key implies field_of(group_tally::<IdentityView>()(samples[i]), f) is None by {
            assert(samples[i].key == key);
        }
        lemma_combined_unknown(samples, group_key(), group_tally(), key, f);
    }
}

/// Without qualifiers all rows fall into one bucket: where there is a row at
/// all, the result is one bucket with the empty key and the sums over all
/// rows.
pub proof fn lemma_one_global_bucket(
    rows: Seq<RowView>,
    qualifiers: Seq<Qualifier>,
    buckets: Seq<BucketView>,
)
    requires
        qualifiers.len() == 0,
        rows.len() > 0,
        arranges(buckets, aggregated(rows, qualifiers)),
    ensures
        buckets.len() == 1,
        buckets[0].key == Seq::<Option<Seq<char>>>::empty(),
        forall|f: Field| mass(buckets[0].tally, f) == total(rows, row_amounts(), f),
{
    let empty = Seq::<Option<Seq<char>>>::empty();
    let groups = aggregated(rows, qualifiers);
    assert forall|i: int| 0 <= i < rows.len() implies #[trigger] row_key(qualifiers)(rows[i])
        == empty by {
        assert(projection(rows[i], qualifiers) =~= empty);
    }
    lemma_keys_single(rows, row_key(qualifiers), empty);
    assert(groups.len() == 1);
    to_multiset_len(buckets);
    to_multiset_len(groups);
    lemma_arranged_member(buckets, groups, 0);
    assert(buckets[0] == groups[0]);
    assert forall|f: Field| mass(buckets[0].tally, f) == total(rows, row_amounts(), f) by {
        lemma_grouped_total(rows, row_key(qualifiers), row_amounts(), f);
        assert(groups.drop_last().len() == 0);
        assert(total(groups.drop_last(), group_tally(), f) == 0);
        assert(total(groups, group_tally(), f) == mass(group_tally::<Seq<Option<Seq<char>>>>()(groups.last()), f));
    }
}

/// A usage stage that fails, for whatever reason, brings no samples and
/// leaves exactly one report.
pub proof fn lemma_usage_failure_reported(usage: StageOutcome<PodUsage>)
    requires
        !(usage is Collected),
    ensures
        collected(usage).len() == 0,
        stage_reports(Stage::Usage, usage).len() == 1,
{
}

/// The merged rows partition the samples: every sample goes into the row of
/// its identity and into no other, since no two rows carry the same identity;
/// no row is without a sample; and the rows together hold what the samples
/// hold.
pub proof fn lemma_merge_partition(samples: Seq<RowView>)
    ensures
        forall|i: int|
            0 <= i < samples.len() ==> {
                &&& 0 <= #[trigger] group_of(samples, group_key(), i) < merged_rows(samples).len()
                &&& merged_rows(samples)[group_of(samples, group_key(), i)].key == samples[i].key
            },
        forall|j: int, k: int|
            0 <= j < k < merged_rows(samples).len() ==> (#[trigger] merged_rows(samples)[j]).key
                != (#[trigger] merged_rows(samples)[k]).key,
        forall|j: int|
            0 <= j < merged_rows(samples).len() ==> exists|i: int|
                0 <= i < samples.len() && (#[trigger] samples[i]).key == (#[trigger] merged_rows(
                    samples,
                )[j]).key,
        forall|f: Field|
            total(merged_rows(samples), group_tally(), f) == total(samples, group_tally(), f),
{
    lemma_grouped_partition(samples, group_key(), group_tally());
    lemma_grouped_keys(samples, group_key(), group_tally());
    let rows = merged_rows(samples);
    assert forall|j: int| 0 <= j < rows.len() implies exists|i: int|
        0 <= i < samples.len() && (#[trigger] samples[i]).key == (#[trigger] rows[j]).key by {
        let i = choose|i: int|
            0 <= i < samples.len() && #[trigger] group_key::<IdentityView>()(samples[i])
                == rows[j].key;
        assert(samples[i].key == rows[j].key);
    }
}

/// The buckets partition the merged rows, whatever the qualifiers: every row
/// falls into a bucket, the one that carries its projection, and into no
/// other, since no two buckets carry the same key; no bucket is without a
/// row; every bucket holds the sums over the rows that fall into it; and the
/// buckets together hold what the rows hold, so that no row is counted
/// twice.
pub proof fn lemma_grouping_partition(
    rows: Seq<RowView>,
    qualifiers: Seq<Qualifier>,
    buckets: Seq<BucketView>,
)
    requires
        arranges(buckets, aggregated(rows, qualifiers)),
    ensures
        forall|i: int|
            0 <= i < rows.len() ==> exists|j: int|
                0 <= j < buckets.len() && (#[trigger] buckets[j]).key == #[trigger] projection(
                    rows[i],
                    qualifiers,
                ),
        forall|j: int, k: int|
            0 <= j < k < buckets.len() ==> (#[trigger] buckets[j]).key != (#[trigger] buckets[k]).key,
        forall|j: int|
            0 <= j < buckets.len() ==> exists|i: int|
                0 <= i < rows.len() && #[trigger] projection(rows[i], qualifiers) == (
                #[trigger] buckets[j]).key,
        forall|j: int|
            0 <= j < buckets.len() ==> (#[trigger] buckets[j]).tally == combined(
                rows,
                row_key(qualifiers),
                row_amounts(),
                buckets[j].key,
            ),
        forall|f: Field| total(buckets, group_tally(), f) == total(rows, row_amounts(), f),
{
    broadcast use group_to_multiset_ensures;

    let groups = aggregated(rows, qualifiers);
    lemma_grouped_keys(rows, row_key(qualifiers), row_amounts());
    lemma_grouped_partition(rows, row_key(qualifiers), row_amounts());
    assert forall|i: int| 0 <= i < rows.len() implies exists|j: int|
        0 <= j < buckets.len() && (#[trigger] buckets[j]).key == #[trigger] projection(
            rows[i],
            qualifiers,
        ) by {
        let g = choose|g: int|
            0 <= g < groups.len() && groups[g].key == row_key(qualifiers)(rows[i]);
        assert(groups.contains(groups[g]));
        assert(buckets.to_multiset().count(groups[g]) > 0);
        assert(buckets.contains(groups[g]));
        let j = choose|j: int| 0 <= j < buckets.len() && buckets[j] == groups[g];
        assert(buckets[j].key == projection(rows[i], qualifiers));
    }
    assert forall|j: int, k: int| 0 <= j < k < buckets.len() implies (#[trigger] buckets[j]).key
        != (#[trigger] buckets[k]).key by {
        lemma_key_order_irreflexive(buckets[j].key);
    }
    assert forall|j: int| 0 <= j < buckets.len() implies exists|i: int|
        0 <= i < rows.len() && #[trigger] projection(rows[i], qualifiers) == (
        #[trigger] buckets[j]).key by {
        lemma_arranged_member(buckets, groups, j);
        let g = choose|g: int| 0 <= g < groups.len() && groups[g] == buckets[j];
        let i = choose|i: int|
            0 <= i < rows.len() && #[trigger] row_key(qualifiers)(rows[i]) == groups[g].key;
        assert(projection(rows[i], qualifiers) == buckets[j].key);
    }
    assert forall|j: int| 0 <= j < buckets.len() implies (#[trigger] buckets[j]).tally
        == combined(rows, row_key(qualifiers), row_amounts(), buckets[j].key) by {
        lemma_arranged_member(buckets, groups, j);
    }
    assert forall|f: Field| total(buckets, group_tally(), f) == total(rows, row_amounts(), f) by {
        lemma_total_permutation(buckets, groups, group_tally(), f);
    }
}

} // verus!
