//! Aggregation: merged rows bucketed by qualifier values.
//!
//! Every row falls into the bucket named by its values in the chosen
//! dimensions; a dimension that a row does not have counts as a value of its
//! own. Within a bucket the amounts add up. An empty list of qualifiers puts
//! all rows into one bucket. The buckets come in ascending order of their
//! keys.

use crate::arrange::{arrange, arranges};
use crate::grouping::{
    amount, group_tally, grouped, lemma_grouped_joins, lemma_grouped_keys, lemma_grouped_opens,
    lemma_total_push, lemma_total_same, lemma_total_take, mass, plus, total, Field, Group,
    PlacementView, TallyView,
};
use crate::kind::ResourceKind;
use crate::ledger::{row_views, summed, well_formed, Ledger, LedgerRow, Placement};
use crate::order::key_view;
use crate::sample::RowView;
use crate::text::{copy_text, same_text, text_of};
use vstd::prelude::*;

verus! {

/// A dimension by which rows are grouped.
#[derive(Clone, Copy, Debug, PartialEq, Eq, Structural)]
pub enum Qualifier {
    Namespace,
    Node,
    Pod,
    Container,
}

/// A bucket seen abstractly: its key, one value per qualifier, and its sums.
pub type BucketView = Group<Seq<Option<Seq<char>>>>;

/// The node of a row: a node is its own node, anything else is where its
/// samples agree that it runs.
pub open spec fn node_of(row: RowView) -> Option<Seq<char>> {
    if row.key.kind == ResourceKind::Node {
        Some(row.key.name)
    } else {
        match row.tally.placement {
            PlacementView::On(n) => Some(n),
            _ => None,
        }
    }
}

/// The value of a row in one dimension, `None` where it has none.
pub open spec fn dimension(row: RowView, q: Qualifier) -> Option<Seq<char>> {
    match q {
        Qualifier::Namespace => row.key.namespace,
        Qualifier::Node => node_of(row),
        Qualifier::Pod => if row.key.kind == ResourceKind::Pod {
            Some(row.key.name)
        } else {
            None
        },
        Qualifier::Container => row.key.container,
    }
}

/// The key of the bucket that a row falls into.
pub open spec fn projection(row: RowView, qualifiers: Seq<Qualifier>) -> Seq<Option<Seq<char>>> {
    Seq::new(qualifiers.len(), |i: int| dimension(row, qualifiers[i]))
}

/// The projection onto the given qualifiers, as the key by which rows are
/// grouped.
pub open spec fn row_key(qualifiers: Seq<Qualifier>) -> spec_fn(RowView) -> Seq<
    Option<Seq<char>>,
> {
    |row: RowView| projection(row, qualifiers)
}

/// What a row adds to its bucket: its amounts.
pub open spec fn row_amounts() -> spec_fn(RowView) -> TallyView {
    |row: RowView|
        TallyView {
            placement: PlacementView::Unknown,
            capacity: row.tally.capacity,
            requested: row.tally.requested,
            used: row.tally.used,
        }
}

/// The buckets that aggregation gives: one per key among the rows, in order
/// of first appearance, each holding the sums over all rows of that key.
pub open spec fn aggregated(rows: Seq<RowView>, qualifiers: Seq<Qualifier>) -> Seq<BucketView> {
    grouped(rows, row_key(qualifiers), row_amounts())
}

/// One row of the result: the sums over all merged rows that share the key.
#[derive(Clone, Debug, PartialEq, Eq)]
pub struct AggregatedUtilization {
    /// The bucket's value in each dimension, in the order of the qualifiers.
    pub key: Vec<Option<String>>,
    pub capacity: Option<u128>,
    pub requested: Option<u128>,
    pub used: Option<u128>,
}

impl View for AggregatedUtilization {
    type V = BucketView;

    open spec fn view(&self) -> BucketView {
        Group {
            key: key_view(self.key@),
            tally: TallyView {
                placement: PlacementView::Unknown,
                capacity: summed(self.capacity),
                requested: summed(self.requested),
                used: summed(self.used),
            },
        }
    }
}

/// The share of a part in a whole, in whole percent, rounded down. There is
/// none where either amount is unknown, where the whole is zero, or where a
/// hundred times the part is more than an amount can hold.
pub open spec fn share(part: Option<nat>, whole: Option<nat>) -> Option<nat> {
    match (part, whole) {
        (Some(p), Some(w)) => if w > 0 && p * 100 <= u128::MAX {
            Some((p * 100 / w) as nat)
        } else {
            None
        },
        _ => None,
    }
}

fn share_of(part: Option<u128>, whole: Option<u128>) -> (percent: Option<u128>)
    ensures
        summed(percent) == share(summed(part), summed(whole)),
{
    match (part, whole) {
        (Some(p), Some(w)) => {
            if w == 0 {
                None
            } else {
                match p.checked_mul(100) {
                    Some(hundredfold) => Some(hundredfold / w),
                    None => None,
                }
            }
        },
        _ => None,
    }
}

impl AggregatedUtilization {
    /// How much of the capacity is requested, in percent.
    pub fn requested_percent(&self) -> (percent: Option<u128>)
        ensures
            summed(percent) == share(self@.tally.requested, self@.tally.capacity),
    {
        share_of(self.requested, self.capacity)
    }

    /// How much of the capacity is used, in percent.
    pub fn used_percent(&self) -> (percent: Option<u128>)
        ensures
            summed(percent) == share(self@.tally.used, self@.tally.capacity),
    {
        share_of(self.used, self.capacity)
    }
}

/// The buckets of a vector, seen abstractly.
pub open spec fn bucket_views(buckets: Seq<AggregatedUtilization>) -> Seq<BucketView> {
    Seq::new(buckets.len(), |i: int| buckets[i]@)
}

fn dimension_of(row: &LedgerRow, q: Qualifier) -> (value: Option<String>)
    ensures
        text_of(value) == dimension(row@, q),
{
    match q {
        Qualifier::Namespace => copy_text(&row.identity.namespace),
        Qualifier::Node => {
            if row.identity.kind == ResourceKind::Node {
                Some(row.identity.name.clone())
            } else {
                match &row.placement {
                    Placement::On(n) => Some(n.clone()),
                    _ => None,
                }
            }
        },
        Qualifier::Pod => {
            if row.identity.kind == ResourceKind::Pod {
                Some(row.identity.name.clone())
            } else {
                None
            }
        },
        Qualifier::Container => copy_text(&row.identity.container),
    }
}

/// The key of the bucket that a row falls into.
pub fn project(row: &LedgerRow, qualifiers: &Vec<Qualifier>) -> (key: Vec<Option<String>>)
    ensures
        key_view(key@) == projection(row@, qualifiers@),
{
    let mut key: Vec<Option<String>> = Vec::new();
    let mut i: usize = 0;
    while i < qualifiers.len()
        invariant
            i <= qualifiers.len(),
            key.len() == i,
            forall|k: int| 0 <= k < i ==> text_of(key[k]) == dimension(row@, qualifiers[k]),
        decreases qualifiers.len() - i,
    {
        key.push(dimension_of(row, qualifiers[i]));
        i += 1;
    }
    proof {
        assert(key_view(key@) =~= projection(row@, qualifiers@));
    }
    key
}

fn same_key(a: &Vec<Option<String>>, b: &Vec<Option<String>>) -> (same: bool)
    ensures
        same == (key_view(a@) == key_view(b@)),
{
    if a.len() != b.len() {
        proof {
            assert(key_view(a@).len() != key_view(b@).len());
        }
        return false;
    }
    let mut i: usize = 0;
    while i < a.len()
        invariant
            i <= a.len(),
            a.len() == b.len(),
            forall|k: int| 0 <= k < i ==> text_of(a[k]) == text_of(b[k]),
        decreases a.len() - i,
    {
        if !same_text(&a[i], &b[i]) {
            proof {
                assert(key_view(a@)[i as int] != key_view(b@)[i as int]);
            }
            return false;
        }
        i += 1;
    }
    proof {
        assert(key_view(a@) =~= key_view(b@));
    }
    true
}

fn find_bucket(buckets: &Vec<AggregatedUtilization>, key: &Vec<Option<String>>) -> (found: Option<
    usize,
>)
    ensures
        match found {
            Some(j) => j < buckets.len() && buckets[j as int]@.key == key_view(key@),
            None => forall|k: int| 0 <= k < buckets.len() ==> buckets[k]@.key != key_view(key@),
        },
{
    let mut j: usize = 0;
    while j < buckets.len()
        invariant
            j <= buckets.len(),
            forall|k: int| 0 <= k < j ==> buckets[k]@.key != key_view(key@),
        decreases buckets.len() - j,
    {
        if same_key(&buckets[j].key, key) {
            return Some(j);
        }
        j += 1;
    }
    None
}

fn add_up(sum: Option<u128>, value: Option<u128>) -> (next: Option<u128>)
    requires
        amount(summed(sum)) + amount(summed(value)) <= u128::MAX,
    ensures
        summed(next) == plus(summed(sum), summed(value)),
{
    match (sum, value) {
        (None, None) => None,
        (None, Some(v)) => Some(v),
        (Some(s), None) => Some(s),
        (Some(s), Some(v)) => Some(s + v),
    }
}

/// While a row is still to come, the buckets have room for it.
proof fn lemma_room(rows: Seq<RowView>, n: int, f: Field)
    requires
        well_formed(rows),
        0 <= n < rows.len(),
    ensures
        total(rows.take(n), row_amounts(), f) + mass(row_amounts()(rows[n]), f) <= u128::MAX,
{
    assert(rows.take(n + 1) =~= rows.take(n).push(rows[n]));
    lemma_total_push(rows.take(n), rows[n], row_amounts(), f);
    lemma_total_take(rows, n + 1, row_amounts(), f);
    lemma_total_same(rows, row_amounts(), group_tally(), f);
}

/// Takes the row at position `i` into the buckets of the rows before it.
fn take_in(
    buckets: &mut Vec<AggregatedUtilization>,
    rows: &Vec<LedgerRow>,
    qualifiers: &Vec<Qualifier>,
    i: usize,
)
    requires
        i < rows.len(),
        well_formed(row_views(rows@)),
        bucket_views(old(buckets)@) == aggregated(row_views(rows@).take(i as int), qualifiers@),
    ensures
        bucket_views(final(buckets)@) == aggregated(
            row_views(rows@).take(i as int + 1),
            qualifiers@,
        ),
{
    let row = &rows[i];
    let key = project(row, qualifiers);
    let ghost all = row_views(rows@);
    let ghost seen = all.take(i as int);
    let ghost before = aggregated(seen, qualifiers@);
    proof {
        assert(all.take(i as int + 1) =~= seen.push(row@));
        assert(bucket_views(buckets@).len() == before.len());
        assert forall|k: int| 0 <= k < buckets.len() implies (#[trigger] before[k])
            == buckets[k]@ by {
            assert(bucket_views(buckets@)[k] == before[k]);
        }
    }
    match find_bucket(buckets, &key) {
        Some(j) => {
            proof {
                lemma_grouped_joins(seen, row@, row_key(qualifiers@), row_amounts(), j as int);
                lemma_room(all, i as int, Field::Capacity);
                lemma_room(all, i as int, Field::Requested);
                lemma_room(all, i as int, Field::Used);
            }
            let grown = AggregatedUtilization {
                key,
                capacity: add_up(buckets[j].capacity, row.capacity),
                requested: add_up(buckets[j].requested, row.requested),
                used: add_up(buckets[j].used, row.used),
            };
            buckets.set(j, grown);
            proof {
                assert(bucket_views(buckets@) =~= before.update(j as int, grown@));
            }
        },
        None => {
            proof {
                lemma_grouped_opens(seen, row@, row_key(qualifiers@), row_amounts());
            }
            let opened = AggregatedUtilization {
                key,
                capacity: row.capacity,
                requested: row.requested,
                used: row.used,
            };
            buckets.push(opened);
            proof {
                assert(bucket_views(buckets@) =~= before.push(opened@));
            }
        },
    }
}

/// The buckets in the order in which their keys first appear among the rows.
fn group(ledger: &Ledger, qualifiers: &Vec<Qualifier>) -> (buckets: Vec<AggregatedUtilization>)
    ensures
        bucket_views(buckets@) == aggregated(ledger@, qualifiers@),
{
    let rows = ledger.rows();
    let mut buckets: Vec<AggregatedUtilization> = Vec::new();
    let mut i: usize = 0;
    proof {
        assert(bucket_views(buckets@) =~= aggregated(row_views(rows@).take(0), qualifiers@));
    }
    while i < rows.len()
        invariant
            i <= rows.len(),
            well_formed(row_views(rows@)),
            bucket_views(buckets@) == aggregated(row_views(rows@).take(i as int), qualifiers@),
        decreases rows.len() - i,
    {
        take_in(&mut buckets, rows, qualifiers, i);
        i += 1;
    }
    proof {
        assert(row_views(rows@).take(rows.len() as int) =~= row_views(rows@));
    }
    buckets
}

/// Groups the rows of a ledger by the given qualifiers.
///
/// The result holds the buckets of `aggregated`, each once, in ascending
/// order of their keys. There is one such sequence and no other.
pub fn aggregate(ledger: &Ledger, qualifiers: &Vec<Qualifier>) -> (buckets: Vec<
    AggregatedUtilization,
>)
    ensures
        arranges(bucket_views(buckets@), aggregated(ledger@, qualifiers@)),
{
    let grouped = group(ledger, qualifiers);
    proof {
        lemma_grouped_keys(ledger@, row_key(qualifiers@), row_amounts());
    }
    arrange(grouped)
}

} // verus!
