//! The algebra of grouping.
//!
//! Merging samples by identity and bucketing merged rows by qualifier values
//! are the same operation on different keys: items that share a key are
//! combined into one tally. This module states that operation once, over any
//! item and key type, and proves what the rest of the crate relies on: a
//! group exists for exactly the keys that occur, nothing is counted twice, and
//! the order of the items does not change any tally.

use vstd::prelude::*;
use vstd::seq_lib::*;

verus! {

/// Where a measured object runs, as far as the merged samples tell.
///
/// `Disputed` marks an object that samples place on two different nodes; it
/// makes combining placements independent of the order of the samples.
pub enum PlacementView {
    Unknown,
    On(Seq<char>),
    Disputed,
}

/// One of the three amounts that a tally carries.
pub enum Field {
    Capacity,
    Requested,
    Used,
}

/// The combined content of a group. An amount that no item populated is
/// `None`: unknown, which is not the same as a measured zero.
pub struct TallyView {
    pub placement: PlacementView,
    pub capacity: Option<nat>,
    pub requested: Option<nat>,
    pub used: Option<nat>,
}

/// A key together with the tally of all items under that key.
pub struct Group<K> {
    pub key: K,
    pub tally: TallyView,
}

/// What two placements say together: the one that is known, and a dispute
/// where they name different nodes.
pub open spec fn join(a: PlacementView, b: PlacementView) -> PlacementView {
    match (a, b) {
        (PlacementView::Unknown, _) => b,
        (_, PlacementView::Unknown) => a,
        (PlacementView::On(x), PlacementView::On(y)) => if x == y {
            a
        } else {
            PlacementView::Disputed
        },
        _ => PlacementView::Disputed,
    }
}

/// Two optional amounts coalesce: unknown is neutral, known amounts add up.
pub open spec fn plus(a: Option<nat>, b: Option<nat>) -> Option<nat> {
    match (a, b) {
        (None, _) => b,
        (_, None) => a,
        (Some(x), Some(y)) => Some((x + y) as nat),
    }
}

/// Two tallies taken together, field by field.
pub open spec fn combine(a: TallyView, b: TallyView) -> TallyView {
    TallyView {
        placement: join(a.placement, b.placement),
        capacity: plus(a.capacity, b.capacity),
        requested: plus(a.requested, b.requested),
        used: plus(a.used, b.used),
    }
}

/// The tally of no item at all: nothing known.
pub open spec fn empty_tally() -> TallyView {
    TallyView { placement: PlacementView::Unknown, capacity: None, requested: None, used: None }
}

/// An amount as a number, unknown counting as nothing.
pub open spec fn amount(a: Option<nat>) -> nat {
    match a {
        Some(x) => x,
        None => 0,
    }
}

/// One of the three amounts of a tally.
pub open spec fn field_of(t: TallyView, f: Field) -> Option<nat> {
    match f {
        Field::Capacity => t.capacity,
        Field::Requested => t.requested,
        Field::Used => t.used,
    }
}

/// What a tally weighs in one field, unknown counting as nothing.
pub open spec fn mass(t: TallyView, f: Field) -> nat {
    amount(field_of(t, f))
}

/// What one item does to the tally of a key: it adds to it if the key is its
/// own, and leaves it alone otherwise.
pub open spec fn tally_step<A, K>(
    key_of: spec_fn(A) -> K,
    tally_of: spec_fn(A) -> TallyView,
    key: K,
) -> spec_fn(TallyView, A) -> TallyView {
    |acc: TallyView, a: A|
        if key_of(a) == key {
            combine(acc, tally_of(a))
        } else {
            acc
        }
}

/// The tally of all items whose key is `key`.
pub open spec fn combined<A, K>(
    items: Seq<A>,
    key_of: spec_fn(A) -> K,
    tally_of: spec_fn(A) -> TallyView,
    key: K,
) -> TallyView {
    items.fold_left(empty_tally(), tally_step(key_of, tally_of, key))
}

/// The keys that occur among the items, each once, in order of first
/// appearance.
pub open spec fn keys<A, K>(items: Seq<A>, key_of: spec_fn(A) -> K) -> Seq<K>
    decreases items.len(),
{
    if items.len() == 0 {
        Seq::empty()
    } else {
        let prev = keys(items.drop_last(), key_of);
        let k = key_of(items.last());
        if prev.contains(k) {
            prev
        } else {
            prev.push(k)
        }
    }
}

/// One group per key that occurs, in order of first appearance.
pub open spec fn grouped<A, K>(
    items: Seq<A>,
    key_of: spec_fn(A) -> K,
    tally_of: spec_fn(A) -> TallyView,
) -> Seq<Group<K>> {
    Seq::new(
        keys(items, key_of).len(),
        |j: int|
            Group {
                key: keys(items, key_of)[j],
                tally: combined(items, key_of, tally_of, keys(items, key_of)[j]),
            },
    )
}

/// The sum of one field over all items.
pub open spec fn total<A>(items: Seq<A>, tally_of: spec_fn(A) -> TallyView, f: Field) -> nat
    decreases items.len(),
{
    if items.len() == 0 {
        0
    } else {
        total(items.drop_last(), tally_of, f) + mass(tally_of(items.last()), f)
    }
}

/// The key of a group, for groups that are grouped again.
pub open spec fn group_key<K>() -> spec_fn(Group<K>) -> K {
    |g: Group<K>| g.key
}

/// The tally of a group, for groups that are grouped again.
pub open spec fn group_tally<K>() -> spec_fn(Group<K>) -> TallyView {
    |g: Group<K>| g.tally
}

/// Taking tallies together does not depend on their order or on how they
/// are bracketed, the empty tally changes nothing, and weights add up.
pub proof fn lemma_combine_laws(a: TallyView, b: TallyView, c: TallyView)
    ensures
        combine(a, b) == combine(b, a),
        combine(combine(a, b), c) == combine(a, combine(b, c)),
        combine(combine(a, b), c) == combine(combine(a, c), b),
        combine(empty_tally(), a) == a,
        combine(a, empty_tally()) == a,
        forall|f: Field| mass(combine(a, b), f) == mass(a, f) + mass(b, f),
{
}

/// What one more item does to the tally of a key.
pub proof fn lemma_combined_push<A, K>(
    items: Seq<A>,
    a: A,
    key_of: spec_fn(A) -> K,
    tally_of: spec_fn(A) -> TallyView,
    key: K,
)
    ensures
        combined(items.push(a), key_of, tally_of, key) == if key_of(a) == key {
            combine(combined(items, key_of, tally_of, key), tally_of(a))
        } else {
            combined(items, key_of, tally_of, key)
        },
{
    assert(items.push(a).drop_last() =~= items);
    assert(items.push(a).last() == a);
}

/// What one more item does to the keys.
pub proof fn lemma_keys_push<A, K>(items: Seq<A>, a: A, key_of: spec_fn(A) -> K)
    ensures
        keys(items.push(a), key_of) == if keys(items, key_of).contains(key_of(a)) {
            keys(items, key_of)
        } else {
            keys(items, key_of).push(key_of(a))
        },
{
    assert(items.push(a).drop_last() =~= items);
    assert(items.push(a).last() == a);
}

/// What one more item does to the total.
pub proof fn lemma_total_push<A>(items: Seq<A>, a: A, tally_of: spec_fn(A) -> TallyView, f: Field)
    ensures
        total(items.push(a), tally_of, f) == total(items, tally_of, f) + mass(tally_of(a), f),
{
    assert(items.push(a).drop_last() =~= items);
    assert(items.push(a).last() == a);
}

/// The keys are exactly the keys of the items, and none occurs twice.
pub proof fn lemma_keys_sound<A, K>(items: Seq<A>, key_of: spec_fn(A) -> K)
    ensures
        keys(items, key_of).no_duplicates(),
        forall|i: int|
            0 <= i < items.len() ==> keys(items, key_of).contains(#[trigger] key_of(items[i])),
        forall|k: K| #[trigger]
            keys(items, key_of).contains(k) ==> exists|i: int|
                0 <= i < items.len() && #[trigger] key_of(items[i]) == k,
    decreases items.len(),
{
    if items.len() > 0 {
        let rest = items.drop_last();
        let prev = keys(rest, key_of);
        let k = key_of(items.last());
        let now = keys(items, key_of);
        lemma_keys_sound(rest, key_of);
        assert forall|i: int| 0 <= i < items.len() implies now.contains(
            #[trigger] key_of(items[i]),
        ) by {
            if i < items.len() - 1 {
                assert(items[i] == rest[i]);
                assert(prev.contains(key_of(rest[i])));
                let j = choose|j: int| 0 <= j < prev.len() && prev[j] == key_of(rest[i]);
                assert(now[j] == key_of(items[i]));
            } else {
                if prev.contains(k) {
                } else {
                    assert(now[prev.len() as int] == k);
                }
            }
        }
        assert forall|x: K| #[trigger] now.contains(x) implies exists|i: int|
            0 <= i < items.len() && #[trigger] key_of(items[i]) == x by {
            let j = choose|j: int| 0 <= j < now.len() && now[j] == x;
            if j < prev.len() {
                assert(prev[j] == x);
                assert(prev.contains(x));
                let i = choose|i: int| 0 <= i < rest.len() && #[trigger] key_of(rest[i]) == x;
                assert(key_of(items[i]) == x);
            } else {
                assert(key_of(items[items.len() - 1]) == x);
            }
        }
    }
}

/// A key that no item has gathers nothing.
pub proof fn lemma_combined_absent<A, K>(
    items: Seq<A>,
    key_of: spec_fn(A) -> K,
    tally_of: spec_fn(A) -> TallyView,
    key: K,
)
    requires
        forall|i: int| 0 <= i < items.len() ==> #[trigger] key_of(items[i]) != key,
    ensures
        combined(items, key_of, tally_of, key) == empty_tally(),
    decreases items.len(),
{
    if items.len() > 0 {
        let rest = items.drop_last();
        assert forall|i: int| 0 <= i < rest.len() implies #[trigger] key_of(rest[i]) != key by {
            assert(rest[i] == items[i]);
        }
        lemma_combined_absent(rest, key_of, tally_of, key);
        assert(key_of(items[items.len() - 1]) != key);
    }
}

/// No group weighs more than all items together.
pub proof fn lemma_combined_bounded<A, K>(
    items: Seq<A>,
    key_of: spec_fn(A) -> K,
    tally_of: spec_fn(A) -> TallyView,
    key: K,
    f: Field,
)
    ensures
        mass(combined(items, key_of, tally_of, key), f) <= total(items, tally_of, f),
    decreases items.len(),
{
    if items.len() > 0 {
        lemma_combined_bounded(items.drop_last(), key_of, tally_of, key, f);
        lemma_combine_laws(
            combined(items.drop_last(), key_of, tally_of, key),
            tally_of(items.last()),
            empty_tally(),
        );
    }
}

/// The first items weigh no more than all of them.
pub proof fn lemma_total_take<A>(
    items: Seq<A>,
    n: int,
    tally_of: spec_fn(A) -> TallyView,
    f: Field,
)
    requires
        0 <= n <= items.len(),
    ensures
        total(items.take(n), tally_of, f) <= total(items, tally_of, f),
    decreases items.len(),
{
    if n == items.len() {
        assert(items.take(n) =~= items);
    } else {
        assert(items.drop_last().take(n) =~= items.take(n));
        lemma_total_take(items.drop_last(), n, tally_of, f);
    }
}

/// Items that each weigh at most `m` weigh at most `m` times their number.
pub proof fn lemma_total_count<A>(
    items: Seq<A>,
    tally_of: spec_fn(A) -> TallyView,
    f: Field,
    m: nat,
)
    requires
        forall|i: int| 0 <= i < items.len() ==> mass(#[trigger] tally_of(items[i]), f) <= m,
    ensures
        total(items, tally_of, f) <= items.len() * m,
    decreases items.len(),
{
    if items.len() > 0 {
        let rest = items.drop_last();
        assert forall|i: int| 0 <= i < rest.len() implies mass(#[trigger] tally_of(rest[i]), f)
            <= m by {
            assert(rest[i] == items[i]);
        }
        lemma_total_count(rest, tally_of, f, m);
        assert(mass(tally_of(items[items.len() - 1]), f) <= m);
        assert(rest.len() * m + m == items.len() * m) by (nonlinear_arith)
            requires
                rest.len() + 1 == items.len(),
        ;
    }
}

/// Two ways of weighing items that agree on every item agree on the total.
pub proof fn lemma_total_same<A>(
    items: Seq<A>,
    first: spec_fn(A) -> TallyView,
    second: spec_fn(A) -> TallyView,
    f: Field,
)
    requires
        forall|i: int|
            0 <= i < items.len() ==> mass(#[trigger] first(items[i]), f) == mass(
                second(items[i]),
                f,
            ),
    ensures
        total(items, first, f) == total(items, second, f),
    decreases items.len(),
{
    if items.len() > 0 {
        let rest = items.drop_last();
        assert forall|i: int| 0 <= i < rest.len() implies mass(#[trigger] first(rest[i]), f)
            == mass(second(rest[i]), f) by {
            assert(rest[i] == items[i]);
        }
        lemma_total_same(rest, first, second, f);
        assert(mass(first(items[items.len() - 1]), f) == mass(
            second(items[items.len() - 1]),
            f,
        ));
    }
}

/// Replacing one item changes the total by the difference of the weights.
pub proof fn lemma_total_update<A>(
    items: Seq<A>,
    j: int,
    x: A,
    tally_of: spec_fn(A) -> TallyView,
    f: Field,
)
    requires
        0 <= j < items.len(),
    ensures
        total(items.update(j, x), tally_of, f) + mass(tally_of(items[j]), f) == total(
            items,
            tally_of,
            f,
        ) + mass(tally_of(x), f),
    decreases items.len(),
{
    if j == items.len() - 1 {
        assert(items.update(j, x).drop_last() =~= items.drop_last());
    } else {
        assert(items.update(j, x).drop_last() =~= items.drop_last().update(j, x));
        lemma_total_update(items.drop_last(), j, x, tally_of, f);
    }
}

/// What one more item does to the groups: it joins the group of its key, or
/// opens a new group at the end.
pub proof fn lemma_grouped_push<A, K>(
    items: Seq<A>,
    a: A,
    key_of: spec_fn(A) -> K,
    tally_of: spec_fn(A) -> TallyView,
)
    ensures
        keys(items, key_of).contains(key_of(a)) ==> {
            let j = keys(items, key_of).index_of(key_of(a));
            &&& 0 <= j < grouped(items, key_of, tally_of).len()
            &&& grouped(items, key_of, tally_of)[j].key == key_of(a)
            &&& grouped(items.push(a), key_of, tally_of) == grouped(
                items,
                key_of,
                tally_of,
            ).update(
                j,
                Group {
                    key: key_of(a),
                    tally: combine(grouped(items, key_of, tally_of)[j].tally, tally_of(a)),
                },
            )
        },
        !keys(items, key_of).contains(key_of(a)) ==> grouped(items.push(a), key_of, tally_of)
            == grouped(items, key_of, tally_of).push(Group { key: key_of(a), tally: tally_of(a) }),
{
    let ks = keys(items, key_of);
    let k = key_of(a);
    let before = grouped(items, key_of, tally_of);
    let after = grouped(items.push(a), key_of, tally_of);
    lemma_keys_push(items, a, key_of);
    lemma_keys_sound(items, key_of);
    if ks.contains(k) {
        let j = ks.index_of(k);
        let expected = before.update(
            j,
            Group { key: k, tally: combine(before[j].tally, tally_of(a)) },
        );
        assert(after.len() == expected.len());
        assert forall|i: int| 0 <= i < after.len() implies after[i] == expected[i] by {
            lemma_combined_push(items, a, key_of, tally_of, ks[i]);
        }
        assert(after =~= expected);
    } else {
        let expected = before.push(Group { key: k, tally: tally_of(a) });
        assert forall|i: int| 0 <= i < items.len() implies #[trigger] key_of(items[i]) != k by {
            if key_of(items[i]) == k {
                assert(ks.contains(key_of(items[i])));
            }
        }
        lemma_combined_absent(items, key_of, tally_of, k);
        lemma_combine_laws(tally_of(a), empty_tally(), empty_tally());
        assert(after.len() == expected.len());
        assert forall|i: int| 0 <= i < after.len() implies after[i] == expected[i] by {
            if i < ks.len() {
                lemma_combined_push(items, a, key_of, tally_of, ks[i]);
                assert(ks.contains(ks[i]));
            } else {
                lemma_combined_push(items, a, key_of, tally_of, k);
            }
        }
        assert(after =~= expected);
    }
}

/// An item whose key has a group joins that group and leaves the others as
/// they were.
pub proof fn lemma_grouped_joins<A, K>(
    items: Seq<A>,
    a: A,
    key_of: spec_fn(A) -> K,
    tally_of: spec_fn(A) -> TallyView,
    j: int,
)
    requires
        0 <= j < grouped(items, key_of, tally_of).len(),
        grouped(items, key_of, tally_of)[j].key == key_of(a),
    ensures
        grouped(items.push(a), key_of, tally_of) == grouped(items, key_of, tally_of).update(
            j,
            Group {
                key: key_of(a),
                tally: combine(grouped(items, key_of, tally_of)[j].tally, tally_of(a)),
            },
        ),
        forall|f: Field|
            mass(grouped(items, key_of, tally_of)[j].tally, f) <= total(items, tally_of, f),
{
    let ks = keys(items, key_of);
    lemma_grouped_push(items, a, key_of, tally_of);
    lemma_keys_sound(items, key_of);
    assert(ks[j] == key_of(a));
    assert(ks.contains(key_of(a)));
    assert(ks.index_of(key_of(a)) == j);
    assert forall|f: Field|
        mass(grouped(items, key_of, tally_of)[j].tally, f) <= total(items, tally_of, f) by {
        lemma_combined_bounded(items, key_of, tally_of, key_of(a), f);
    }
}

/// An item whose key has no group opens one at the end.
pub proof fn lemma_grouped_opens<A, K>(
    items: Seq<A>,
    a: A,
    key_of: spec_fn(A) -> K,
    tally_of: spec_fn(A) -> TallyView,
)
    requires
        forall|k: int|
            0 <= k < grouped(items, key_of, tally_of).len() ==> (#[trigger] grouped(
                items,
                key_of,
                tally_of,
            )[k]).key != key_of(a),
    ensures
        grouped(items.push(a), key_of, tally_of) == grouped(items, key_of, tally_of).push(
            Group { key: key_of(a), tally: tally_of(a) },
        ),
{
    let ks = keys(items, key_of);
    lemma_grouped_push(items, a, key_of, tally_of);
    if ks.contains(key_of(a)) {
        let k = ks.index_of(key_of(a));
        assert(grouped(items, key_of, tally_of)[k].key == key_of(a));
    }
}

/// Grouping counts every item once: the groups weigh what the items weigh.
pub proof fn lemma_grouped_total<A, K>(
    items: Seq<A>,
    key_of: spec_fn(A) -> K,
    tally_of: spec_fn(A) -> TallyView,
    f: Field,
)
    ensures
        total(grouped(items, key_of, tally_of), group_tally(), f) == total(items, tally_of, f),
    decreases items.len(),
{
    if items.len() == 0 {
        assert(grouped(items, key_of, tally_of).len() == 0);
    } else {
        let rest = items.drop_last();
        let a = items.last();
        assert(rest.push(a) =~= items);
        lemma_grouped_total(rest, key_of, tally_of, f);
        lemma_grouped_push(rest, a, key_of, tally_of);
        let before = grouped(rest, key_of, tally_of);
        if keys(rest, key_of).contains(key_of(a)) {
            let j = keys(rest, key_of).index_of(key_of(a));
            let g = Group { key: key_of(a), tally: combine(before[j].tally, tally_of(a)) };
            lemma_total_update(before, j, g, group_tally(), f);
            lemma_combine_laws(before[j].tally, tally_of(a), empty_tally());
        } else {
            lemma_total_push(before, Group { key: key_of(a), tally: tally_of(a) }, group_tally(), f);
        }
    }
}

/// The groups carry the keys, and no key twice.
pub proof fn lemma_grouped_keys<A, K>(
    items: Seq<A>,
    key_of: spec_fn(A) -> K,
    tally_of: spec_fn(A) -> TallyView,
)
    ensures
        grouped(items, key_of, tally_of).len() == keys(items, key_of).len(),
        grouped(items, key_of, tally_of).no_duplicates(),
        forall|i: int, j: int|
            0 <= i < j < grouped(items, key_of, tally_of).len() ==> grouped(
                items,
                key_of,
                tally_of,
            )[i].key != grouped(items, key_of, tally_of)[j].key,
        forall|i: int|
            0 <= i < items.len() ==> exists|j: int|
                0 <= j < grouped(items, key_of, tally_of).len() && grouped(
                    items,
                    key_of,
                    tally_of,
                )[j].key == #[trigger] key_of(items[i]),
        forall|j: int|
            #![trigger grouped(items, key_of, tally_of)[j]]
            0 <= j < grouped(items, key_of, tally_of).len() ==> exists|i: int|
                0 <= i < items.len() && #[trigger] key_of(items[i]) == grouped(
                    items,
                    key_of,
                    tally_of,
                )[j].key,
{
    let ks = keys(items, key_of);
    let gs = grouped(items, key_of, tally_of);
    lemma_keys_sound(items, key_of);
    assert forall|i: int| 0 <= i < items.len() implies exists|j: int|
        0 <= j < gs.len() && gs[j].key == #[trigger] key_of(items[i]) by {
        assert(ks.contains(key_of(items[i])));
        let j = choose|j: int| 0 <= j < ks.len() && ks[j] == key_of(items[i]);
        assert(gs[j].key == key_of(items[i]));
    }
    assert forall|j: int| #![trigger gs[j]] 0 <= j < gs.len() implies exists|i: int|
        0 <= i < items.len() && #[trigger] key_of(items[i]) == gs[j].key by {
        assert(ks.contains(ks[j]));
    }
}

/// Items that all have one key have that key and no other.
pub proof fn lemma_keys_single<A, K>(items: Seq<A>, key_of: spec_fn(A) -> K, key: K)
    requires
        items.len() > 0,
        forall|i: int| 0 <= i < items.len() ==> #[trigger] key_of(items[i]) == key,
    ensures
        keys(items, key_of) == seq![key],
    decreases items.len(),
{
    let rest = items.drop_last();
    assert(key_of(items[items.len() - 1]) == key);
    if rest.len() == 0 {
        assert(keys(rest, key_of) =~= Seq::<K>::empty());
        assert(keys(items, key_of) =~= seq![key]);
    } else {
        assert forall|i: int| 0 <= i < rest.len() implies #[trigger] key_of(rest[i]) == key by {
            assert(rest[i] == items[i]);
        }
        lemma_keys_single(rest, key_of, key);
        assert(keys(rest, key_of)[0] == key);
    }
}

/// A field that no item of a key populates stays unknown for that key.
pub proof fn lemma_combined_unknown<A, K>(
    items: Seq<A>,
    key_of: spec_fn(A) -> K,
    tally_of: spec_fn(A) -> TallyView,
    key: K,
    f: Field,
)
    requires
        forall|i: int|
            0 <= i < items.len() && #[trigger] key_of(items[i]) == key ==> field_of(
                tally_of(items[i]),
                f,
            ) is None,
    ensures
        field_of(combined(items, key_of, tally_of, key), f) is None,
    decreases items.len(),
{
    if items.len() > 0 {
        let rest = items.drop_last();
        assert forall|i: int| 0 <= i < rest.len() && #[trigger] key_of(rest[i]) == key implies field_of(
            tally_of(rest[i]),
            f,
        ) is None by {
            assert(rest[i] == items[i]);
        }
        lemma_combined_unknown(rest, key_of, tally_of, key, f);
        if key_of(items[items.len() - 1]) == key {
        }
    }
}

/// A field that some item of a key populates is known for that key.
pub proof fn lemma_combined_known<A, K>(
    items: Seq<A>,
    key_of: spec_fn(A) -> K,
    tally_of: spec_fn(A) -> TallyView,
    key: K,
    f: Field,
    i: int,
)
    requires
        0 <= i < items.len(),
        key_of(items[i]) == key,
        field_of(tally_of(items[i]), f) is Some,
    ensures
        field_of(combined(items, key_of, tally_of, key), f) is Some,
    decreases items.len(),
{
    if i < items.len() - 1 {
        assert(items.drop_last()[i] == items[i]);
        lemma_combined_known(items.drop_last(), key_of, tally_of, key, f, i);
    }
}

/// Where every item populates a field, every group knows it.
pub proof fn lemma_grouped_all_known<A, K>(
    items: Seq<A>,
    key_of: spec_fn(A) -> K,
    tally_of: spec_fn(A) -> TallyView,
    f: Field,
)
    requires
        forall|i: int| 0 <= i < items.len() ==> field_of(#[trigger] tally_of(items[i]), f) is Some,
    ensures
        forall|j: int|
            0 <= j < grouped(items, key_of, tally_of).len() ==> field_of(
                (#[trigger] grouped(items, key_of, tally_of)[j]).tally,
                f,
            ) is Some,
{
    let gs = grouped(items, key_of, tally_of);
    lemma_grouped_keys(items, key_of, tally_of);
    assert forall|j: int| 0 <= j < gs.len() implies field_of((#[trigger] gs[j]).tally, f) is Some by {
        let i = choose|i: int| 0 <= i < items.len() && #[trigger] key_of(items[i]) == gs[j].key;
        assert(field_of(tally_of(items[i]), f) is Some);
        lemma_combined_known(items, key_of, tally_of, gs[j].key, f, i);
    }
}

/// Where no item populates a field, no group knows it.
pub proof fn lemma_grouped_all_unknown<A, K>(
    items: Seq<A>,
    key_of: spec_fn(A) -> K,
    tally_of: spec_fn(A) -> TallyView,
    f: Field,
)
    requires
        forall|i: int| 0 <= i < items.len() ==> field_of(#[trigger] tally_of(items[i]), f) is None,
    ensures
        forall|j: int|
            0 <= j < grouped(items, key_of, tally_of).len() ==> field_of(
                (#[trigger] grouped(items, key_of, tally_of)[j]).tally,
                f,
            ) is None,
{
    let gs = grouped(items, key_of, tally_of);
    assert forall|j: int| 0 <= j < gs.len() implies field_of((#[trigger] gs[j]).tally, f) is None by {
        assert forall|i: int| 0 <= i < items.len() && #[trigger] key_of(items[i]) == gs[j].key implies field_of(
            tally_of(items[i]),
            f,
        ) is None by {
            assert(field_of(tally_of(items[i]), f) is None);
        }
        lemma_combined_unknown(items, key_of, tally_of, gs[j].key, f);
    }
}

/// The position of the group that the item at position `i` falls into.
pub open spec fn group_of<A, K>(items: Seq<A>, key_of: spec_fn(A) -> K, i: int) -> int {
    keys(items, key_of).index_of(key_of(items[i]))
}

/// The groups partition the items: every item falls into the group of its
/// key and into no other, every group has an item, and the groups together
/// weigh what the items weigh.
pub proof fn lemma_grouped_partition<A, K>(
    items: Seq<A>,
    key_of: spec_fn(A) -> K,
    tally_of: spec_fn(A) -> TallyView,
)
    ensures
        forall|i: int|
            0 <= i < items.len() ==> {
                &&& 0 <= #[trigger] group_of(items, key_of, i) < grouped(
                    items,
                    key_of,
                    tally_of,
                ).len()
                &&& grouped(items, key_of, tally_of)[group_of(items, key_of, i)].key == key_of(
                    items[i],
                )
            },
        forall|i: int, j: int|
            0 <= i < items.len() && 0 <= j < grouped(items, key_of, tally_of).len() && (
            #[trigger] grouped(items, key_of, tally_of)[j]).key == key_of(items[i]) ==> j
                == #[trigger] group_of(items, key_of, i),
        forall|j: int|
            0 <= j < grouped(items, key_of, tally_of).len() ==> exists|i: int|
                0 <= i < items.len() && #[trigger] key_of(items[i]) == (#[trigger] grouped(
                    items,
                    key_of,
                    tally_of,
                )[j]).key,
        forall|f: Field|
            total(grouped(items, key_of, tally_of), group_tally(), f) == total(items, tally_of, f),
{
    let gs = grouped(items, key_of, tally_of);
    let ks = keys(items, key_of);
    lemma_keys_sound(items, key_of);
    assert forall|i: int| 0 <= i < items.len() implies {
        &&& 0 <= #[trigger] group_of(items, key_of, i) < gs.len()
        &&& gs[group_of(items, key_of, i)].key == key_of(items[i])
    } by {
        lemma_group_of(items, key_of, i);
    }
    assert forall|i: int, j: int|
        0 <= i < items.len() && 0 <= j < gs.len() && (#[trigger] gs[j]).key == key_of(
            items[i],
        ) implies j == #[trigger] group_of(items, key_of, i) by {
        lemma_group_of(items, key_of, i);
        assert(ks[j] == ks[group_of(items, key_of, i)]);
    }
    assert forall|j: int| 0 <= j < gs.len() implies exists|i: int|
        0 <= i < items.len() && #[trigger] key_of(items[i]) == (#[trigger] gs[j]).key by {
        assert(ks.contains(ks[j]));
    }
    assert forall|f: Field| total(gs, group_tally(), f) == total(items, tally_of, f) by {
        lemma_grouped_total(items, key_of, tally_of, f);
    }
}

proof fn lemma_group_of<A, K>(items: Seq<A>, key_of: spec_fn(A) -> K, i: int)
    requires
        0 <= i < items.len(),
    ensures
        0 <= group_of(items, key_of, i) < keys(items, key_of).len(),
        keys(items, key_of)[group_of(items, key_of, i)] == key_of(items[i]),
{
    lemma_keys_sound(items, key_of);
    assert(keys(items, key_of).contains(key_of(items[i])));
}

/// Two items may be taken into a tally in either order.
pub proof fn lemma_step_commutes<A, K>(
    key_of: spec_fn(A) -> K,
    tally_of: spec_fn(A) -> TallyView,
    key: K,
)
    ensures
        commutative_foldl(tally_step(key_of, tally_of, key)),
{
    let f = tally_step(key_of, tally_of, key);
    assert forall|x: A, y: A, v: TallyView| #[trigger] f(f(v, x), y) == f(f(v, y), x) by {
        lemma_combine_laws(v, tally_of(x), tally_of(y));
    }
}

/// The tally of a key does not depend on the order of the items.
pub proof fn lemma_combined_permutation<A, K>(
    first: Seq<A>,
    second: Seq<A>,
    key_of: spec_fn(A) -> K,
    tally_of: spec_fn(A) -> TallyView,
    key: K,
)
    requires
        first.to_multiset() == second.to_multiset(),
    ensures
        combined(first, key_of, tally_of, key) == combined(second, key_of, tally_of, key),
{
    lemma_step_commutes(key_of, tally_of, key);
    lemma_fold_left_permutation(
        first,
        second,
        tally_step(key_of, tally_of, key),
        empty_tally(),
    );
}

/// What one item does to the total of a field.
pub open spec fn total_step<A>(tally_of: spec_fn(A) -> TallyView, f: Field) -> spec_fn(
    nat,
    A,
) -> nat {
    |sum: nat, a: A| sum + mass(tally_of(a), f)
}

proof fn lemma_total_folds<A>(items: Seq<A>, tally_of: spec_fn(A) -> TallyView, f: Field)
    ensures
        total(items, tally_of, f) == items.fold_left(0nat, total_step(tally_of, f)),
    decreases items.len(),
{
    if items.len() > 0 {
        lemma_total_folds(items.drop_last(), tally_of, f);
    }
}

/// The total does not depend on the order of the items.
pub proof fn lemma_total_permutation<A>(
    first: Seq<A>,
    second: Seq<A>,
    tally_of: spec_fn(A) -> TallyView,
    f: Field,
)
    requires
        first.to_multiset() == second.to_multiset(),
    ensures
        total(first, tally_of, f) == total(second, tally_of, f),
{
    let step = total_step(tally_of, f);
    assert forall|x: A, y: A, v: nat| #[trigger] step(step(v, x), y) == step(step(v, y), x) by {
    }
    lemma_total_folds(first, tally_of, f);
    lemma_total_folds(second, tally_of, f);
    lemma_fold_left_permutation(first, second, step, 0nat);
}

/// Two sequences without repetition that hold the same elements hold them
/// equally often.
pub proof fn lemma_same_elements<T>(first: Seq<T>, second: Seq<T>)
    requires
        first.no_duplicates(),
        second.no_duplicates(),
        forall|x: T| first.contains(x) <==> second.contains(x),
    ensures
        first.to_multiset() == second.to_multiset(),
{
    broadcast use group_to_multiset_ensures;

    first.lemma_multiset_has_no_duplicates();
    second.lemma_multiset_has_no_duplicates();
    assert forall|x: T| first.to_multiset().count(x) == second.to_multiset().count(x) by {
        if first.contains(x) {
            assert(second.contains(x));
            assert(first.to_multiset().count(x) > 0);
            assert(second.to_multiset().count(x) > 0);
        } else {
            assert(!second.contains(x));
        }
    }
    assert(first.to_multiset() =~= second.to_multiset());
}

/// Grouping does not depend on the order of the items: the same items in
/// another order give the same groups, possibly in another order.
pub proof fn lemma_grouped_permutation<A, K>(
    first: Seq<A>,
    second: Seq<A>,
    key_of: spec_fn(A) -> K,
    tally_of: spec_fn(A) -> TallyView,
)
    requires
        first.to_multiset() == second.to_multiset(),
    ensures
        grouped(first, key_of, tally_of).to_multiset() == grouped(
            second,
            key_of,
            tally_of,
        ).to_multiset(),
{
    let g1 = grouped(first, key_of, tally_of);
    let g2 = grouped(second, key_of, tally_of);
    lemma_grouped_keys(first, key_of, tally_of);
    lemma_grouped_keys(second, key_of, tally_of);
    assert forall|x: Group<K>| g1.contains(x) <==> g2.contains(x) by {
        if g1.contains(x) {
            lemma_grouped_member(first, second, key_of, tally_of, x);
        }
        if g2.contains(x) {
            lemma_grouped_member(second, first, key_of, tally_of, x);
        }
    }
    lemma_same_elements(g1, g2);
}

proof fn lemma_grouped_member<A, K>(
    first: Seq<A>,
    second: Seq<A>,
    key_of: spec_fn(A) -> K,
    tally_of: spec_fn(A) -> TallyView,
    x: Group<K>,
)
    requires
        first.to_multiset() == second.to_multiset(),
        grouped(first, key_of, tally_of).contains(x),
    ensures
        grouped(second, key_of, tally_of).contains(x),
{
    broadcast use group_to_multiset_ensures;

    let g1 = grouped(first, key_of, tally_of);
    let g2 = grouped(second, key_of, tally_of);
    lemma_grouped_keys(first, key_of, tally_of);
    lemma_grouped_keys(second, key_of, tally_of);
    let j = choose|j: int| 0 <= j < g1.len() && g1[j] == x;
    let i = choose|i: int| 0 <= i < first.len() && #[trigger] key_of(first[i]) == g1[j].key;
    assert(first.contains(first[i]));
    assert(first.to_multiset().count(first[i]) > 0);
    assert(second.contains(first[i]));
    let i2 = choose|i2: int| 0 <= i2 < second.len() && second[i2] == first[i];
    assert(key_of(second[i2]) == x.key);
    let j2 = choose|j2: int| 0 <= j2 < g2.len() && g2[j2].key == key_of(second[i2]);
    lemma_combined_permutation(first, second, key_of, tally_of, x.key);
    assert(g2[j2] == x);
}

} // verus!
