//! The order of bucket keys.
//!
//! Keys are ordered like words in a dictionary: by their first value that
//! differs, a key that is the beginning of another coming first. A missing
//! value comes before every name, and names are ordered by their bytes in
//! UTF-8, which is the order of their characters.

use crate::text::text_of;
use vstd::prelude::*;
use vstd::string::*;
use vstd::utf8::*;

verus! {

/// Whether `a` and `b` agree on their first `n` elements and `a` comes first
/// by what follows: `a` ends there and `b` goes on, or the next element of
/// `a` comes before that of `b`.
pub open spec fn parts_at<T>(a: Seq<T>, b: Seq<T>, before: spec_fn(T, T) -> bool, n: int) -> bool {
    &&& 0 <= n <= a.len()
    &&& n <= b.len()
    &&& forall|i: int| 0 <= i < n ==> a[i] == b[i]
    &&& if n == a.len() {
        n < b.len()
    } else {
        n < b.len() && before(a[n], b[n])
    }
}

/// Whether `a` comes before `b` in dictionary order.
pub open spec fn precedes<T>(a: Seq<T>, b: Seq<T>, before: spec_fn(T, T) -> bool) -> bool {
    exists|n: int| parts_at(a, b, before, n)
}

/// Whether an order on elements is strict: nothing comes before itself, and
/// what comes before something comes before all that follows it.
pub open spec fn is_strict<T>(before: spec_fn(T, T) -> bool) -> bool {
    &&& forall|x: T| !#[trigger] before(x, x)
    &&& forall|x: T, y: T, z: T| #[trigger] before(x, y) && #[trigger] before(y, z) ==> before(x, z)
}

/// Nothing comes before itself in dictionary order.
pub proof fn lemma_precedes_irreflexive<T>(a: Seq<T>, before: spec_fn(T, T) -> bool)
    requires
        is_strict(before),
    ensures
        !precedes(a, a, before),
{
}

/// What comes before something in dictionary order comes before all that
/// follows it.
pub proof fn lemma_precedes_transitive<T>(
    a: Seq<T>,
    b: Seq<T>,
    c: Seq<T>,
    before: spec_fn(T, T) -> bool,
)
    requires
        is_strict(before),
        precedes(a, b, before),
        precedes(b, c, before),
    ensures
        precedes(a, c, before),
{
    let n1 = choose|n: int| parts_at(a, b, before, n);
    let n2 = choose|n: int| parts_at(b, c, before, n);
    if n1 < n2 {
        assert(b[n1] == c[n1]);
        assert(parts_at(a, c, before, n1));
    } else if n1 == n2 {
        assert(parts_at(a, c, before, n1));
    } else {
        assert(a[n2] == b[n2]);
        assert(parts_at(a, c, before, n2));
    }
}

/// How one thing stands to another in an order.
#[derive(Clone, Copy, Debug, PartialEq, Eq, Structural)]
pub enum Rank {
    Before,
    Same,
    After,
}

/// Whether a rank says truly how `a` stands to `b`.
pub open spec fn ranks<T>(rank: Rank, a: Seq<T>, b: Seq<T>, before: spec_fn(T, T) -> bool) -> bool {
    match rank {
        Rank::Before => precedes(a, b, before),
        Rank::Same => a == b,
        Rank::After => precedes(b, a, before),
    }
}

/// The order of bytes.
pub open spec fn byte_before() -> spec_fn(u8, u8) -> bool {
    |x: u8, y: u8| x < y
}

/// Whether one optional name comes before another: a missing name before
/// every name, names by their bytes.
pub open spec fn text_precedes(a: Option<Seq<char>>, b: Option<Seq<char>>) -> bool {
    match (a, b) {
        (None, Some(_)) => true,
        (Some(x), Some(y)) => precedes(encode_utf8(x), encode_utf8(y), byte_before()),
        _ => false,
    }
}

/// The order of optional names, as the order of the values of a key.
pub open spec fn text_before() -> spec_fn(Option<Seq<char>>, Option<Seq<char>>) -> bool {
    |a: Option<Seq<char>>, b: Option<Seq<char>>| text_precedes(a, b)
}

/// Whether one key comes before another.
pub open spec fn key_precedes(a: Seq<Option<Seq<char>>>, b: Seq<Option<Seq<char>>>) -> bool {
    precedes(a, b, text_before())
}

/// The order of bytes is strict.
pub proof fn lemma_byte_order_strict()
    ensures
        is_strict(byte_before()),
{
}

/// The order of optional names is strict.
pub proof fn lemma_text_order_strict()
    ensures
        is_strict(text_before()),
{
    lemma_byte_order_strict();
    assert forall|x: Option<Seq<char>>| !#[trigger] text_before()(x, x) by {
        if let Some(s) = x {
            lemma_precedes_irreflexive(encode_utf8(s), byte_before());
        }
    }
    assert forall|x: Option<Seq<char>>, y: Option<Seq<char>>, z: Option<Seq<char>>|
        #[trigger] text_before()(x, y) && #[trigger] text_before()(y, z) implies text_before()(
        x,
        z,
    ) by {
        if let (Some(p), Some(q), Some(r)) = (x, y, z) {
            lemma_precedes_transitive(
                encode_utf8(p),
                encode_utf8(q),
                encode_utf8(r),
                byte_before(),
            );
        }
    }
}

/// No key comes before itself.
pub proof fn lemma_key_order_irreflexive(a: Seq<Option<Seq<char>>>)
    ensures
        !key_precedes(a, a),
{
    lemma_text_order_strict();
    lemma_precedes_irreflexive(a, text_before());
}

/// A key that comes before another comes before all that follow that one.
pub proof fn lemma_key_order_transitive(
    a: Seq<Option<Seq<char>>>,
    b: Seq<Option<Seq<char>>>,
    c: Seq<Option<Seq<char>>>,
)
    requires
        key_precedes(a, b),
        key_precedes(b, c),
    ensures
        key_precedes(a, c),
{
    lemma_text_order_strict();
    lemma_precedes_transitive(a, b, c, text_before());
}

fn rank_bytes(a: &[u8], b: &[u8]) -> (rank: Rank)
    ensures
        ranks(rank, a@, b@, byte_before()),
{
    let mut i: usize = 0;
    while i < a.len() && i < b.len()
        invariant
            i <= a.len(),
            i <= b.len(),
            forall|k: int| 0 <= k < i ==> a[k] == b[k],
        decreases a.len() - i,
    {
        if a[i] < b[i] {
            proof {
                assert(parts_at(a@, b@, byte_before(), i as int));
            }
            return Rank::Before;
        }
        if a[i] > b[i] {
            proof {
                assert(parts_at(b@, a@, byte_before(), i as int));
            }
            return Rank::After;
        }
        i += 1;
    }
    if a.len() < b.len() {
        proof {
            assert(parts_at(a@, b@, byte_before(), i as int));
        }
        Rank::Before
    } else if a.len() > b.len() {
        proof {
            assert(parts_at(b@, a@, byte_before(), i as int));
        }
        Rank::After
    } else {
        proof {
            assert(a@ =~= b@);
        }
        Rank::Same
    }
}

/// Whether a rank says truly how one optional name stands to another.
pub open spec fn text_ranks(rank: Rank, a: Option<Seq<char>>, b: Option<Seq<char>>) -> bool {
    match rank {
        Rank::Before => text_precedes(a, b),
        Rank::Same => a == b,
        Rank::After => text_precedes(b, a),
    }
}

/// Says how one optional name stands to another.
pub fn rank_texts(a: &Option<String>, b: &Option<String>) -> (rank: Rank)
    ensures
        text_ranks(rank, text_of(*a), text_of(*b)),
{
    match (a, b) {
        (None, None) => Rank::Same,
        (None, Some(_)) => Rank::Before,
        (Some(_), None) => Rank::After,
        (Some(x), Some(y)) => {
            let rank = rank_bytes(x.as_str().as_bytes(), y.as_str().as_bytes());
            proof {
                encode_utf8_decode_utf8(x@);
                encode_utf8_decode_utf8(y@);
            }
            rank
        },
    }
}

/// A key seen abstractly: the characters of each of its values.
pub open spec fn key_view(key: Seq<Option<String>>) -> Seq<Option<Seq<char>>> {
    Seq::new(key.len(), |i: int| text_of(key[i]))
}

/// Says how one key stands to another.
pub fn rank_keys(a: &Vec<Option<String>>, b: &Vec<Option<String>>) -> (rank: Rank)
    ensures
        ranks(rank, key_view(a@), key_view(b@), text_before()),
{
    let ghost ka = key_view(a@);
    let ghost kb = key_view(b@);
    let mut i: usize = 0;
    while i < a.len() && i < b.len()
        invariant
            i <= a.len(),
            i <= b.len(),
            ka == key_view(a@),
            kb == key_view(b@),
            forall|k: int| 0 <= k < i ==> ka[k] == kb[k],
        decreases a.len() - i,
    {
        match rank_texts(&a[i], &b[i]) {
            Rank::Before => {
                proof {
                    assert(text_before()(ka[i as int], kb[i as int]));
                    assert(parts_at(ka, kb, text_before(), i as int));
                }
                return Rank::Before;
            },
            Rank::After => {
                proof {
                    assert(text_before()(kb[i as int], ka[i as int]));
                    assert(parts_at(kb, ka, text_before(), i as int));
                }
                return Rank::After;
            },
            Rank::Same => {},
        }
        i += 1;
    }
    if a.len() < b.len() {
        proof {
            assert(parts_at(ka, kb, text_before(), i as int));
        }
        Rank::Before
    } else if a.len() > b.len() {
        proof {
            assert(parts_at(kb, ka, text_before(), i as int));
        }
        Rank::After
    } else {
        proof {
            assert(ka =~= kb);
        }
        Rank::Same
    }
}

} // verus!
