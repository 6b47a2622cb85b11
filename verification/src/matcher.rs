//! Finding the colour of the database that is nearest to a given colour.
//!
//! Nearest means: at the smallest Euclidean distance in RGB space. Where
//! several colours of the database are at that smallest distance, the one
//! that comes first in the fixed order of colours (by red, then by green,
//! then by blue) is taken. The answer therefore depends on the colours in
//! the database alone, not on the order in which they are held.

use vstd::prelude::*;
use crate::color::{lemma_of_rank, lemma_rank_injective, of_rank, MyColor};
use crate::database::TileDb;

verus! {

/// Whether `a` is to be preferred to `b` as a match for `q`: it is nearer
/// to `q`, or as near and earlier in the order of colours.
pub open spec fn closer(q: MyColor, a: MyColor, b: MyColor) -> bool {
    q.dist_sq(a) < q.dist_sq(b) || (q.dist_sq(a) == q.dist_sq(b) && a.rank() < b.rank())
}

/// Whether `k` is the colour among `keys` that matches `q`: it is one of
/// them and is preferred to every other.
pub open spec fn is_nearest(q: MyColor, keys: Set<MyColor>, k: MyColor) -> bool {
    &&& keys.contains(k)
    &&& forall|other: MyColor| #[trigger] keys.contains(other) && other != k ==> closer(q, k, other)
}

/// The colour among `keys` that matches `q`. It is meaningful where `keys`
/// is finite and not empty.
pub open spec fn nearest(q: MyColor, keys: Set<MyColor>) -> MyColor {
    choose|k: MyColor| is_nearest(q, keys, k)
}

/// There is at most one match: a colour that `is_nearest` is the colour
/// that `nearest` names, and no colour of `keys` is at a smaller distance.
pub proof fn lemma_nearest_unique(q: MyColor, keys: Set<MyColor>, k: MyColor)
    requires
        is_nearest(q, keys, k),
    ensures
        nearest(q, keys) == k,
        forall|other: MyColor| #[trigger] keys.contains(other) ==> q.dist_sq(k) <= q.dist_sq(other),
{
    let n = nearest(q, keys);
    if n != k {
        assert(closer(q, n, k));
        assert(closer(q, k, n));
    }
}

/// Among finitely many colours, and at least one, there is a match.
pub proof fn lemma_nearest_exists(q: MyColor, keys: Set<MyColor>)
    requires
        keys.finite(),
        keys.len() > 0,
    ensures
        is_nearest(q, keys, nearest(q, keys)),
    decreases keys.len(),
{
    vstd::set::axiom_set_choose_len(keys);
    let a = keys.choose();
    let rest = keys.remove(a);
    vstd::set::axiom_set_remove_len(keys, a);
    vstd::set::axiom_set_remove_finite(keys, a);
    if rest.len() == 0 {
        assert forall|other: MyColor| #[trigger] keys.contains(other) && other != a implies closer(
            q,
            a,
            other,
        ) by {
            assert(rest.contains(other));
            rest.lemma_len0_is_empty();
        }
        assert(is_nearest(q, keys, a));
    } else {
        lemma_nearest_exists(q, rest);
        let m = nearest(q, rest);
        assert(rest.contains(m));
        lemma_rank_injective(a, m);
        if closer(q, a, m) {
            assert forall|other: MyColor| #[trigger]
                keys.contains(other) && other != a implies closer(q, a, other) by {
                assert(rest.contains(other));
            }
            assert(is_nearest(q, keys, a));
        } else {
            assert forall|other: MyColor| #[trigger]
                keys.contains(other) && other != m implies closer(q, m, other) by {
                if other != a {
                    assert(rest.contains(other));
                }
            }
            assert(is_nearest(q, keys, m));
        }
    }
}

/// Finds the colour of the database that matches `color`: the nearest one,
/// and among several nearest ones the first in the order of colours.
///
/// Every colour of the database is looked at once, in the order in which
/// the hash map hands them out. That order plays no part in the answer.
pub fn nearest_color(color: &MyColor, db: &TileDb) -> (found: MyColor)
    requires
        db.wf(),
    ensures
        is_nearest(*color, db@.dom(), found),
        found == nearest(*color, db@.dom()),
{
    let table = db.as_table();
    let mut found = *color;
    let mut min_distance: u32 = u32::MAX;
    proof {
        db.lemma_table();
    }
    for key in walk: table.keys()
        invariant
            db.inv(),
            table@ == db.table(),
            walk.index() == 0 ==> min_distance == u32::MAX,
            walk.index() > 0 ==> min_distance == color.dist_sq(found) && db@.contains_key(found),
            forall|j: int|
                0 <= j < walk.index() ==> {
                    let seen = of_rank(*(#[trigger] walk.seq()[j]) as int);
                    seen == found || closer(*color, found, seen)
                },
    {
        proof {
            db.lemma_table();
            assert(table@.contains_key(*key));
        }
        let candidate = MyColor::from_key(*key);
        let distance = color.distance_squared(&candidate);
        proof {
            lemma_rank_injective(candidate, found);
        }
        if distance < min_distance || (distance == min_distance && candidate.precedes(&found)) {
            found = candidate;
            min_distance = distance;
        }
    }
    proof {
        db.lemma_table();
        assert forall|other: MyColor| #[trigger]
            db@.dom().contains(other) && other != found implies closer(*color, found, other) by {
            lemma_of_rank(other, 0);
            let k = other.rank() as u32;
            assert(table@.dom().contains(k));
        }
        lemma_nearest_unique(*color, db@.dom(), found);
    }
    found
}

} // verus!
