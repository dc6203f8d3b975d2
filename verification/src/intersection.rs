//! Choosing the surface point that a viewing ray hits first.
//!
//! The ray is searched along one coordinate axis at a time. The quartic in
//! that coordinate has up to four real roots; [`find_closest_root`] picks the
//! one that the ray reaches first. The search is repeated along other axes,
//! and [`get_surface_intersection`] keeps the point that satisfies the torus
//! equation best.

use vstd::prelude::*;
use crate::binary64::Binary64;

verus! {

/// Whether a root lies on the side of the eye towards which the ray travels:
/// the offset of the root (eye coordinate minus root) has the sign of the
/// ray's direction along that coordinate.
pub open spec fn reachable(offset: Binary64, direction: Binary64) -> bool {
    offset.is_sign_positive() == direction.is_sign_positive()
}

/// Whether offset `a` is strictly shorter than offset `b`: `|a| < |b|`.
pub open spec fn nearer(a: Binary64, b: Binary64) -> bool {
    a.abs().lt(b.abs())
}

/// Whether root `i` is the first reachable one.
pub open spec fn first_reachable(offsets: Seq<Binary64>, direction: Binary64, i: int) -> bool {
    &&& 0 <= i < offsets.len()
    &&& reachable(offsets[i], direction)
    &&& forall|j: int| 0 <= j < i ==> !reachable(#[trigger] offsets[j], direction)
}

/// Whether root `k` is the one hit first, among the first `n` roots.
///
/// It is reachable, no reachable root is strictly nearer, and it is strictly
/// nearer than every reachable root before it whose offset is a number. An
/// offset that is not a number compares with nothing: where the first
/// reachable root has such an offset, that root is kept.
pub open spec fn closest_among(
    offsets: Seq<Binary64>,
    direction: Binary64,
    n: int,
    k: int,
) -> bool {
    &&& 0 <= k < n <= offsets.len()
    &&& reachable(offsets[k], direction)
    &&& forall|i: int|
        0 <= i < n && reachable(#[trigger] offsets[i], direction) ==> !nearer(
            offsets[i],
            offsets[k],
        )
    &&& forall|i: int|
        0 <= i < k && reachable(#[trigger] offsets[i], direction) ==> nearer(
            offsets[k],
            offsets[i],
        ) || offsets[i].is_nan()
    &&& forall|i: int|
        i < n && #[trigger] first_reachable(offsets, direction, i) && offsets[i].is_nan() ==> i
            == k
}

/// Whether root `k` is the one hit first.
pub open spec fn is_closest_root(offsets: Seq<Binary64>, direction: Binary64, k: int) -> bool {
    closest_among(offsets, direction, offsets.len() as int, k)
}

/// At most one root is the one hit first.
pub proof fn lemma_closest_root_unique(
    offsets: Seq<Binary64>,
    direction: Binary64,
    k1: int,
    k2: int,
)
    requires
        is_closest_root(offsets, direction, k1),
        is_closest_root(offsets, direction, k2),
    ensures
        k1 == k2,
{
    let n = offsets.len() as int;
    if k1 <= k2 {
        lemma_closest_ordered(offsets, direction, n, k1, k2);
    } else {
        lemma_closest_ordered(offsets, direction, n, k2, k1);
    }
}

proof fn lemma_closest_ordered(
    offsets: Seq<Binary64>,
    direction: Binary64,
    n: int,
    lo: int,
    hi: int,
)
    requires
        closest_among(offsets, direction, n, lo),
        closest_among(offsets, direction, n, hi),
        lo <= hi,
    ensures
        lo == hi,
{
    if lo < hi {
        // `hi` is not nearer than `lo`, so the offset of `lo` is no number,
        // and neither is that of any reachable root before `lo`.
        assert(offsets[lo].is_nan());
        lemma_first_reachable_exists(offsets, direction, lo);
        let first = choose|i: int| 0 <= i <= lo && first_reachable(offsets, direction, i);
        assert(offsets[first].is_nan());
    }
}

/// Below a reachable root there is a first one.
proof fn lemma_first_reachable_exists(offsets: Seq<Binary64>, direction: Binary64, k: int)
    requires
        0 <= k < offsets.len(),
        reachable(offsets[k], direction),
    ensures
        exists|i: int| 0 <= i <= k && first_reachable(offsets, direction, i),
    decreases k,
{
    if exists|j: int| 0 <= j < k && reachable(#[trigger] offsets[j], direction) {
        let j = choose|j: int| 0 <= j < k && reachable(#[trigger] offsets[j], direction);
        lemma_first_reachable_exists(offsets, direction, j);
        let i = choose|i: int| 0 <= i <= j && first_reachable(offsets, direction, i);
        assert(0 <= i <= k && first_reachable(offsets, direction, i));
    } else {
        assert(first_reachable(offsets, direction, k));
    }
}

/// Picks, among the real roots of the intersection quartic, the one that the
/// ray hits first.
///
/// `offsets[i]` is the eye's coordinate minus root `i`, and `direction` is the
/// ray's direction along the same coordinate. The result is the index of the
/// chosen root, and `None` exactly when no root is reachable.
pub fn find_closest_root(offsets: &[Binary64], direction: Binary64) -> (chosen: Option<usize>)
    ensures
        chosen is None <==> forall|i: int|
            0 <= i < offsets@.len() ==> !reachable(#[trigger] offsets@[i], direction),
        chosen matches Some(k) ==> is_closest_root(offsets@, direction, k as int),
{
    let mut chosen: Option<usize> = None;
    let mut i: usize = 0;
    while i < offsets.len()
        invariant
            i <= offsets@.len(),
            chosen is None ==> forall|j: int|
                0 <= j < i ==> !reachable(#[trigger] offsets@[j], direction),
            chosen matches Some(k) ==> closest_among(offsets@, direction, i as int, k as int),
        decreases offsets@.len() - i,
    {
        let d = offsets[i];
        if d.is_sign_positive() == direction.is_sign_positive() {
            match chosen {
                Some(k) => {
                    if d.abs().lt(offsets[k].abs()) {
                        chosen = Some(i);
                    }
                    // Root `k` is reachable and comes before root `i`.
                    assert(!first_reachable(offsets@, direction, i as int));
                },
                None => {
                    chosen = Some(i);
                },
            }
        }
        i += 1;
    }
    chosen
}

/// Whether candidate `k` is the point trusted among the first `n` candidates.
///
/// Its residual is within the tolerance, no candidate has a smaller residual,
/// and every later candidate has a larger one.
pub open spec fn best_among(
    residuals: Seq<Option<Binary64>>,
    tolerance: Binary64,
    n: int,
    k: int,
) -> bool {
    &&& 0 <= k < n <= residuals.len()
    &&& residuals[k] matches Some(best)
    &&& best.le(tolerance)
    &&& forall|i: int|
        0 <= i < n ==> (#[trigger] residuals[i] matches Some(d) ==> !d.lt(best))
    &&& forall|i: int|
        k < i < n ==> (#[trigger] residuals[i] matches Some(d) ==> !d.le(best))
}

/// Whether candidate `k` is the point trusted among all candidates.
pub open spec fn is_best_candidate(
    residuals: Seq<Option<Binary64>>,
    tolerance: Binary64,
    k: int,
) -> bool {
    best_among(residuals, tolerance, residuals.len() as int, k)
}

/// At most one candidate is the trusted one.
pub proof fn lemma_best_candidate_unique(
    residuals: Seq<Option<Binary64>>,
    tolerance: Binary64,
    k1: int,
    k2: int,
)
    requires
        is_best_candidate(residuals, tolerance, k1),
        is_best_candidate(residuals, tolerance, k2),
    ensures
        k1 == k2,
{
}

/// Picks, among surface points computed in several independent ways, the one
/// that satisfies the torus equation best.
///
/// `residuals[i]` is the deviation of candidate `i` from the torus equation,
/// or `None` where that computation found no point. The result is the index
/// of the candidate with the smallest residual, the last of them where several
/// are equal, provided that this residual is within `tolerance`; it is `None`
/// exactly when no residual is.
pub fn get_surface_intersection(residuals: &[Option<Binary64>], tolerance: Binary64) -> (chosen:
    Option<usize>)
    ensures
        chosen is None <==> forall|i: int|
            0 <= i < residuals@.len() ==> (#[trigger] residuals@[i] matches Some(d) ==> !d.le(
                tolerance,
            )),
        chosen matches Some(k) ==> is_best_candidate(residuals@, tolerance, k as int),
{
    let mut chosen: Option<usize> = None;
    let mut epsilon = tolerance;
    let mut i: usize = 0;
    while i < residuals.len()
        invariant
            i <= residuals@.len(),
            chosen is None ==> epsilon == tolerance && forall|j: int|
                0 <= j < i ==> (#[trigger] residuals@[j] matches Some(d) ==> !d.le(tolerance)),
            chosen matches Some(k) ==> best_among(residuals@, tolerance, i as int, k as int)
                && residuals@[k as int] == Some(epsilon),
        decreases residuals@.len() - i,
    {
        if let Some(d) = residuals[i] {
            if d.le(epsilon) {
                epsilon = d;
                chosen = Some(i);
            }
        }
        i += 1;
    }
    chosen
}

} // verus!
