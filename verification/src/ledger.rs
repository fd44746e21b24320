//! The resource ledger: samples merged by identity.
//!
//! Samples that share an identity coalesce into one row. An amount that
//! several samples populate adds up; an amount that none populates stays
//! unknown. Rows keep the order in which their identities first appeared.

use crate::grouping::{
    amount, combine, group_key, group_tally, grouped, join, lemma_grouped_joins,
    lemma_grouped_keys, lemma_grouped_opens, lemma_grouped_total, lemma_total_count, mass, plus,
    total, Field, Group, PlacementView, TallyView,
};
use crate::sample::{known, placed, sample_views, Identity, IdentityView, ResourceSample, RowView};
use vstd::prelude::*;

verus! {

/// Where a measured object runs, as far as the merged samples tell.
#[derive(Clone, Debug, PartialEq, Eq)]
pub enum Placement {
    /// No sample named a node.
    Unknown,
    /// Every sample that named a node named this one.
    On(String),
    /// Samples named different nodes.
    Disputed,
}

impl View for Placement {
    type V = PlacementView;

    open spec fn view(&self) -> PlacementView {
        match self {
            Placement::Unknown => PlacementView::Unknown,
            Placement::On(n) => PlacementView::On(n@),
            Placement::Disputed => PlacementView::Disputed,
        }
    }
}

/// A merged amount as a number, where it is known.
pub open spec fn summed(value: Option<u128>) -> Option<nat> {
    match value {
        Some(x) => Some(x as nat),
        None => None,
    }
}

/// All that is known of one identity.
#[derive(Clone, Debug, PartialEq, Eq)]
pub struct LedgerRow {
    pub identity: Identity,
    pub placement: Placement,
    pub capacity: Option<u128>,
    pub requested: Option<u128>,
    pub used: Option<u128>,
}

impl View for LedgerRow {
    type V = RowView;

    open spec fn view(&self) -> RowView {
        Group {
            key: self.identity@,
            tally: TallyView {
                placement: self.placement@,
                capacity: summed(self.capacity),
                requested: summed(self.requested),
                used: summed(self.used),
            },
        }
    }
}

/// The rows of a vector, seen abstractly.
pub open spec fn row_views(rows: Seq<LedgerRow>) -> Seq<RowView> {
    Seq::new(rows.len(), |i: int| rows[i]@)
}

/// The rows that merging gives: one per identity among the samples, in order
/// of first appearance, each holding the combination of all samples of that
/// identity.
pub open spec fn merged_rows(samples: Seq<RowView>) -> Seq<RowView> {
    grouped(samples, group_key(), group_tally())
}

/// What holds of every ledger: no identity has two rows, and the rows'
/// amounts add up within the range of the row type.
pub open spec fn well_formed(rows: Seq<RowView>) -> bool {
    &&& forall|i: int, j: int| 0 <= i < j < rows.len() ==> rows[i].key != rows[j].key
    &&& forall|f: Field| total(rows, group_tally(), f) <= u128::MAX
}

fn settle(current: &Placement, node: &Option<String>) -> (settled: Placement)
    ensures
        settled@ == join(current@, placed(*node)),
{
    match node {
        None => match current {
            Placement::Unknown => Placement::Unknown,
            Placement::On(m) => Placement::On(m.clone()),
            Placement::Disputed => Placement::Disputed,
        },
        Some(n) => match current {
            Placement::Unknown => Placement::On(n.clone()),
            Placement::On(m) => if *m == *n {
                Placement::On(m.clone())
            } else {
                Placement::Disputed
            },
            Placement::Disputed => Placement::Disputed,
        },
    }
}

fn coalesce(sum: Option<u128>, value: Option<u64>) -> (next: Option<u128>)
    requires
        amount(summed(sum)) + amount(known(value)) <= u128::MAX,
    ensures
        summed(next) == plus(summed(sum), known(value)),
{
    match (sum, value) {
        (None, None) => None,
        (None, Some(v)) => Some(v as u128),
        (Some(s), None) => Some(s),
        (Some(s), Some(v)) => Some(s + v as u128),
    }
}

impl LedgerRow {
    /// The row of an identity that one sample has been seen of.
    fn opened_by(sample: &ResourceSample) -> (row: LedgerRow)
        ensures
            row@ == sample@,
    {
        LedgerRow {
            identity: sample.identity.duplicate(),
            placement: settle(&Placement::Unknown, &sample.node),
            capacity: coalesce(None, sample.capacity),
            requested: coalesce(None, sample.requested),
            used: coalesce(None, sample.used),
        }
    }

    /// The row after one more sample of its identity.
    fn absorb(&self, sample: &ResourceSample) -> (row: LedgerRow)
        requires
            forall|f: Field| mass(self@.tally, f) + mass(sample@.tally, f) <= u128::MAX,
        ensures
            row@ == (Group { key: self@.key, tally: combine(self@.tally, sample@.tally) }),
    {
        proof {
            assert(mass(self@.tally, Field::Capacity) + mass(sample@.tally, Field::Capacity)
                <= u128::MAX);
            assert(mass(self@.tally, Field::Requested) + mass(sample@.tally, Field::Requested)
                <= u128::MAX);
            assert(mass(self@.tally, Field::Used) + mass(sample@.tally, Field::Used) <= u128::MAX);
        }
        LedgerRow {
            identity: self.identity.duplicate(),
            placement: settle(&self.placement, &sample.node),
            capacity: coalesce(self.capacity, sample.capacity),
            requested: coalesce(self.requested, sample.requested),
            used: coalesce(self.used, sample.used),
        }
    }
}

/// The first row of an identity, if there is one.
fn find_row(rows: &Vec<LedgerRow>, identity: &Identity) -> (found: Option<usize>)
    ensures
        match found {
            Some(j) => j < rows.len() && rows[j as int].identity@ == identity@,
            None => forall|k: int| 0 <= k < rows.len() ==> rows[k].identity@ != identity@,
        },
{
    let mut j: usize = 0;
    while j < rows.len()
        invariant
            j <= rows.len(),
            forall|k: int| 0 <= k < j ==> rows[k].identity@ != identity@,
        decreases rows.len() - j,
    {
        if rows[j].identity.same_as(identity) {
            return Some(j);
        }
        j += 1;
    }
    None
}

/// The first `n` samples weigh at most `n` times what one sample can hold.
proof fn lemma_samples_bounded(samples: Seq<ResourceSample>, n: int, f: Field)
    requires
        0 <= n <= samples.len(),
    ensures
        total(sample_views(samples).take(n), group_tally(), f) <= n * u64::MAX,
{
    let seen = sample_views(samples).take(n);
    assert forall|i: int| 0 <= i < seen.len() implies mass(
        #[trigger] group_tally::<IdentityView>()(seen[i]),
        f,
    ) <= u64::MAX by {
        assert(seen[i] == samples[i]@);
    }
    lemma_total_count(seen, group_tally(), f, u64::MAX as nat);
}

/// As many amounts as a vector can hold add up within the range of a row.
proof fn lemma_fits(n: int)
    requires
        0 <= n <= usize::MAX,
    ensures
        n * u64::MAX <= u128::MAX,
{
    assert(n * 0xFFFF_FFFF_FFFF_FFFF <= 0xFFFF_FFFF_FFFF_FFFF_FFFF_FFFF_FFFF_FFFF) by (nonlinear_arith)
        requires
            0 <= n <= 0xFFFF_FFFF_FFFF_FFFF,
    ;
}

/// While a sample is still to come, the rows have room for it.
proof fn lemma_room(samples: Seq<ResourceSample>, n: int, f: Field)
    requires
        0 <= n < samples.len() <= usize::MAX,
    ensures
        total(sample_views(samples).take(n), group_tally(), f) + mass(samples[n]@.tally, f)
            <= u128::MAX,
{
    lemma_samples_bounded(samples, n, f);
    lemma_fits(n + 1);
    assert((n + 1) * u64::MAX == n * u64::MAX + u64::MAX) by (nonlinear_arith);
}

/// Whatever fits into a vector merges into a well-formed ledger.
proof fn lemma_merged_well_formed(samples: Seq<ResourceSample>)
    requires
        samples.len() <= usize::MAX,
    ensures
        well_formed(merged_rows(sample_views(samples))),
{
    let all = sample_views(samples);
    lemma_grouped_keys(all, group_key(), group_tally());
    assert forall|f: Field| total(merged_rows(all), group_tally(), f) <= u128::MAX by {
        lemma_grouped_total(all, group_key(), group_tally(), f);
        assert(all.take(samples.len() as int) =~= all);
        lemma_samples_bounded(samples, samples.len() as int, f);
        lemma_fits(samples.len() as int);
    }
}

/// Takes the sample at position `i` into the rows of the samples before it.
fn take_in(rows: &mut Vec<LedgerRow>, samples: &Vec<ResourceSample>, i: usize)
    requires
        i < samples.len(),
        row_views(old(rows)@) == merged_rows(sample_views(samples@).take(i as int)),
    ensures
        row_views(final(rows)@) == merged_rows(sample_views(samples@).take(i as int + 1)),
{
    let sample = &samples[i];
    let ghost seen = sample_views(samples@).take(i as int);
    let ghost before = merged_rows(seen);
    proof {
        assert(sample_views(samples@).take(i as int + 1) =~= seen.push(sample@));
        assert(row_views(rows@).len() == before.len());
        assert forall|k: int| 0 <= k < rows.len() implies (#[trigger] before[k]) == rows[k]@ by {
            assert(row_views(rows@)[k] == before[k]);
        }
    }
    match find_row(rows, &sample.identity) {
        Some(j) => {
            proof {
                lemma_grouped_joins(seen, sample@, group_key(), group_tally(), j as int);
                assert forall|f: Field| mass(rows[j as int]@.tally, f) + mass(sample@.tally, f)
                    <= u128::MAX by {
                    lemma_room(samples@, i as int, f);
                }
            }
            let merged = rows[j].absorb(sample);
            rows.set(j, merged);
            proof {
                assert(row_views(rows@) =~= before.update(j as int, merged@));
            }
        },
        None => {
            proof {
                lemma_grouped_opens(seen, sample@, group_key(), group_tally());
            }
            rows.push(LedgerRow::opened_by(sample));
            proof {
                assert(row_views(rows@) =~= before.push(sample@));
            }
        },
    }
}

/// The merged samples of one reconciliation pass.
pub struct Ledger {
    rows: Vec<LedgerRow>,
}

impl View for Ledger {
    type V = Seq<RowView>;

    closed spec fn view(&self) -> Seq<RowView> {
        row_views(self.rows@)
    }
}

impl Ledger {
    #[verifier::type_invariant]
    spec fn sound(&self) -> bool {
        well_formed(row_views(self.rows@))
    }

    /// Merges samples by identity.
    pub fn merge(samples: &Vec<ResourceSample>) -> (ledger: Ledger)
        ensures
            ledger@ == merged_rows(sample_views(samples@)),
            well_formed(ledger@),
    {
        let mut rows: Vec<LedgerRow> = Vec::new();
        let mut i: usize = 0;
        proof {
            assert(row_views(rows@) =~= merged_rows(sample_views(samples@).take(0)));
        }
        while i < samples.len()
            invariant
                i <= samples.len(),
                row_views(rows@) == merged_rows(sample_views(samples@).take(i as int)),
            decreases samples.len() - i,
        {
            take_in(&mut rows, samples, i);
            i += 1;
        }
        proof {
            assert(sample_views(samples@).take(samples.len() as int) =~= sample_views(samples@));
            lemma_merged_well_formed(samples@);
        }
        Ledger { rows }
    }

    /// The rows, in order of first appearance of their identities.
    pub fn rows(&self) -> (rows: &Vec<LedgerRow>)
        ensures
            row_views(rows@) == self@,
            well_formed(self@),
    {
        proof {
            use_type_invariant(self);
        }
        &self.rows
    }

    /// The number of rows: the number of identities among the samples.
    pub fn len(&self) -> (n: usize)
        ensures
            n == self@.len(),
    {
        self.rows.len()
    }
}

} // verus!
