//! The order of the result: buckets in ascending order of their keys.

use crate::aggregate::{bucket_views, AggregatedUtilization, BucketView};
use crate::order::{key_precedes, key_view, lemma_key_order_transitive, rank_keys, Rank};
use vstd::prelude::*;
use vstd::seq_lib::*;

verus! {

/// Whether buckets stand in ascending order of their keys.
pub open spec fn ascending(buckets: Seq<BucketView>) -> bool {
    forall|i: int, j: int|
        0 <= i < j < buckets.len() ==> key_precedes(
            (#[trigger] buckets[i]).key,
            (#[trigger] buckets[j]).key,
        )
}

/// Whether `buckets` holds the given groups, each as often as they occur, in
/// ascending order of their keys.
pub open spec fn arranges(buckets: Seq<BucketView>, groups: Seq<BucketView>) -> bool {
    &&& buckets.to_multiset() == groups.to_multiset()
    &&& ascending(buckets)
}

/// Whether no two buckets share a key.
pub open spec fn distinct(buckets: Seq<BucketView>) -> bool {
    forall|i: int, j: int|
        0 <= i < j < buckets.len() ==> (#[trigger] buckets[i]).key != (#[trigger] buckets[j]).key
}

/// The place of a key among buckets in ascending order: behind all that come
/// before it, in front of all that come after it.
fn place_of(arranged: &Vec<AggregatedUtilization>, key: &Vec<Option<String>>) -> (place: usize)
    requires
        ascending(bucket_views(arranged@)),
        forall|k: int| 0 <= k < arranged.len() ==> (#[trigger] arranged[k])@.key != key_view(key@),
    ensures
        place <= arranged.len(),
        forall|k: int|
            0 <= k < place ==> key_precedes((#[trigger] arranged[k])@.key, key_view(key@)),
        forall|k: int|
            place <= k < arranged.len() ==> key_precedes(
                key_view(key@),
                (#[trigger] arranged[k])@.key,
            ),
{
    let mut place: usize = 0;
    while place < arranged.len()
        invariant
            place <= arranged.len(),
            ascending(bucket_views(arranged@)),
            forall|k: int|
                0 <= k < arranged.len() ==> (#[trigger] arranged[k])@.key != key_view(key@),
            forall|k: int|
                0 <= k < place ==> key_precedes((#[trigger] arranged[k])@.key, key_view(key@)),
        decreases arranged.len() - place,
    {
        let rank = rank_keys(&arranged[place].key, key);
        proof {
            assert(arranged[place as int]@.key == key_view(arranged[place as int].key@));
        }
        if rank == Rank::After {
            proof {
                assert forall|k: int| place <= k < arranged.len() implies key_precedes(
                    key_view(key@),
                    (#[trigger] arranged[k])@.key,
                ) by {
                    if place < k {
                        assert(bucket_views(arranged@)[place as int] == arranged[place as int]@);
                        assert(bucket_views(arranged@)[k] == arranged[k]@);
                        lemma_key_order_transitive(
                            key_view(key@),
                            arranged[place as int]@.key,
                            arranged[k]@.key,
                        );
                    }
                }
            }
            return place;
        }
        place += 1;
    }
    place
}

/// Puts one more bucket into buckets that stand in ascending order.
fn settle_in(arranged: &mut Vec<AggregatedUtilization>, bucket: AggregatedUtilization)
    requires
        ascending(bucket_views(old(arranged)@)),
        forall|k: int|
            0 <= k < old(arranged).len() ==> (#[trigger] old(arranged)[k])@.key != bucket@.key,
    ensures
        ascending(bucket_views(final(arranged)@)),
        exists|place: int|
            0 <= place <= old(arranged).len() && bucket_views(final(arranged)@)
                == #[trigger] bucket_views(old(arranged)@).insert(place, bucket@),
{
    let ghost before = bucket_views(arranged@);
    let place = place_of(arranged, &bucket.key);
    arranged.insert(place, bucket);
    proof {
        let after = bucket_views(arranged@);
        assert(after =~= before.insert(place as int, bucket@));
        assert forall|i: int, j: int| 0 <= i < j < after.len() implies key_precedes(
            (#[trigger] after[i]).key,
            (#[trigger] after[j]).key,
        ) by {
            if j < place {
                assert(after[i] == before[i] && after[j] == before[j]);
            } else if j == place {
                assert(after[i] == before[i]);
                assert(before[i] == old(arranged)[i]@);
            } else if i < place {
                assert(after[i] == before[i] && after[j] == before[j - 1]);
            } else if i == place {
                assert(after[j] == before[j - 1]);
                assert(before[j - 1] == old(arranged)[j - 1]@);
            } else {
                assert(after[i] == before[i - 1] && after[j] == before[j - 1]);
            }
        }
    }
}

/// Whether every one of `some` is one of the last of `all`, from position
/// `from` on.
spec fn drawn_from(some: Seq<BucketView>, all: Seq<BucketView>, from: int) -> bool {
    forall|i: int|
        0 <= i < some.len() ==> exists|k: int|
            from <= k < all.len() && #[trigger] all[k] == #[trigger] some[i]
}

/// Puts buckets of different keys in ascending order of their keys.
pub(crate) fn arrange(buckets: Vec<AggregatedUtilization>) -> (arranged: Vec<AggregatedUtilization>)
    requires
        distinct(bucket_views(buckets@)),
    ensures
        arranges(bucket_views(arranged@), bucket_views(buckets@)),
{
    let ghost given = bucket_views(buckets@);
    let mut rest = buckets;
    let mut arranged: Vec<AggregatedUtilization> = Vec::new();
    proof {
        assert(given.take(given.len() as int) =~= given);
        assert(bucket_views(arranged@) =~= given.skip(given.len() as int));
    }
    while rest.len() > 0
        invariant
            rest.len() <= given.len(),
            distinct(given),
            bucket_views(rest@) == given.take(rest.len() as int),
            bucket_views(arranged@).to_multiset() == given.skip(rest.len() as int).to_multiset(),
            ascending(bucket_views(arranged@)),
            drawn_from(bucket_views(arranged@), given, rest.len() as int),
        decreases rest.len(),
    {
        let ghost placed = bucket_views(arranged@);
        let ghost settled = arranged@;
        let ghost n = rest.len() as int;
        match rest.pop() {
            Some(bucket) => {
                proof {
                    assert(bucket@ == given.take(n)[n - 1]);
                    assert(bucket@ == given[n - 1]);
                    assert(bucket_views(rest@) =~= given.take(n - 1));
                    assert forall|k: int| 0 <= k < arranged.len() implies (
                    #[trigger] arranged[k])@.key != bucket@.key by {
                        assert(placed[k] == arranged[k]@);
                        let at = choose|at: int|
                            n <= at < given.len() && #[trigger] given[at] == placed[k];
                        assert(given[n - 1].key != given[at].key);
                    }
                }
                let ghost taken = bucket@;
                settle_in(&mut arranged, bucket);
                proof {
                    let place = choose|place: int|
                        0 <= place <= placed.len() && bucket_views(arranged@)
                            == #[trigger] placed.insert(place, taken);
                    let after = bucket_views(arranged@);
                    to_multiset_insert(placed, place, taken);
                    lemma_skip_first(given, n - 1);
                    assert forall|i: int| 0 <= i < after.len() implies exists|k: int|
                        n - 1 <= k < given.len() && #[trigger] given[k] == #[trigger] after[i] by {
                        if i < place {
                            assert(after[i] == placed[i]);
                            let k = choose|k: int|
                                n <= k < given.len() && #[trigger] given[k] == placed[i];
                            assert(given[k] == after[i]);
                        } else if i == place {
                            assert(given[n - 1] == after[i]);
                        } else {
                            assert(after[i] == placed[i - 1]);
                            let k = choose|k: int|
                                n <= k < given.len() && #[trigger] given[k] == placed[i - 1];
                            assert(given[k] == after[i]);
                        }
                    }
                }
            },
            None => {},
        }
    }
    proof {
        assert(given.skip(0) =~= given);
    }
    arranged
}

/// All but the first `n` elements are the element at `n` and what follows.
proof fn lemma_skip_first<T>(all: Seq<T>, n: int)
    requires
        0 <= n < all.len(),
    ensures
        all.skip(n).to_multiset() == all.skip(n + 1).to_multiset().insert(all[n]),
{
    assert(all.skip(n) =~= all.skip(n + 1).insert(0, all[n]));
    to_multiset_insert(all.skip(n + 1), 0, all[n]);
}

} // verus!
