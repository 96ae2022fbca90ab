//! Distances as single-precision bit patterns, and the search for the
//! nearest candidate among a sequence of them.
//!
//! A distance is carried as the `u32` bit pattern of an IEEE-754
//! single-precision number. The order that such numbers have is stated
//! here over the bit patterns, so that the search can be reasoned about
//! with integers alone.

use vstd::prelude::*;

verus! {

/// Bit pattern of positive infinity.
pub const INFINITY_BITS: u32 = 0x7f80_0000;

/// Bit pattern of the sign of a number; everything below it is magnitude.
pub const SIGN_BIT: u32 = 0x8000_0000;

/// The pattern without its sign.
pub open spec fn magnitude(bits: u32) -> int {
    if bits >= SIGN_BIT {
        bits - SIGN_BIT
    } else {
        bits as int
    }
}

/// Whether the pattern is "not a number": all exponent bits set and a
/// fraction that is not zero.
pub open spec fn is_nan(bits: u32) -> bool {
    magnitude(bits) > INFINITY_BITS
}

/// Whether the pattern is one of the two zeros.
pub open spec fn is_zero(bits: u32) -> bool {
    magnitude(bits) == 0
}

/// Position of a number on the number line, as an integer that grows with
/// the number: the magnitude for a positive pattern, its negation for a
/// negative one. Both zeros have rank 0.
pub open spec fn rank(bits: u32) -> int {
    if bits >= SIGN_BIT {
        -magnitude(bits)
    } else {
        magnitude(bits)
    }
}

/// `a < b` as numbers. Nothing is below or above "not a number".
pub open spec fn less(a: u32, b: u32) -> bool {
    !is_nan(a) && !is_nan(b) && rank(a) < rank(b)
}

/// Whether a distance can win a search at all: it is a number and it is
/// strictly below infinity.
pub open spec fn is_candidate(d: u32) -> bool {
    less(d, INFINITY_BITS)
}

/// `k` is the position that a scan from the front settles on: its distance
/// is a candidate, it is strictly below every earlier number, and nothing
/// later is strictly below it. Among equal distances the earliest wins.
pub open spec fn is_nearest_at(distances: Seq<u32>, k: int) -> bool {
    &&& 0 <= k < distances.len()
    &&& is_candidate(distances[k])
    &&& forall|j: int|
        0 <= j < k ==> is_nan(#[trigger] distances[j]) || less(distances[k], distances[j])
    &&& forall|j: int| k < j < distances.len() ==> !less(#[trigger] distances[j], distances[k])
}

/// The position of the nearest candidate, if there is any candidate.
pub open spec fn nearest_position(distances: Seq<u32>) -> Option<int> {
    if exists|k: int| is_nearest_at(distances, k) {
        Some(choose|k: int| is_nearest_at(distances, k))
    } else {
        None
    }
}

/// At most one position is the nearest.
pub proof fn lemma_nearest_is_unique(distances: Seq<u32>, i: int, k: int)
    requires
        is_nearest_at(distances, i),
        is_nearest_at(distances, k),
    ensures
        i == k,
{
    if i < k {
        assert(is_nan(distances[i]) || less(distances[k], distances[i]));
        assert(!less(distances[k], distances[i]));
    } else if k < i {
        assert(is_nan(distances[k]) || less(distances[i], distances[k]));
        assert(!less(distances[i], distances[k]));
    }
}

/// A position known to be the nearest is the one that `nearest_position` names.
pub proof fn lemma_nearest_position_is(distances: Seq<u32>, k: int)
    requires
        is_nearest_at(distances, k),
    ensures
        nearest_position(distances) == Some(k),
{
    let c = choose|c: int| is_nearest_at(distances, c);
    lemma_nearest_is_unique(distances, c, k);
}

/// Where no distance is a candidate, there is no nearest position.
pub proof fn lemma_no_candidate_no_position(distances: Seq<u32>)
    requires
        forall|j: int| 0 <= j < distances.len() ==> !is_candidate(#[trigger] distances[j]),
    ensures
        nearest_position(distances) is None,
{
    if exists|k: int| is_nearest_at(distances, k) {
        let k = choose|k: int| is_nearest_at(distances, k);
        assert(is_candidate(distances[k]));
    }
}

/// Of two equal distances the later one is never chosen.
pub proof fn lemma_tie_goes_to_first(distances: Seq<u32>, i: int, j: int)
    requires
        0 <= i < j < distances.len(),
        distances[i] == distances[j],
    ensures
        nearest_position(distances) != Some(j),
{
    if nearest_position(distances) == Some(j) {
        assert(is_nearest_at(distances, j));
        assert(is_nan(distances[i]) || less(distances[j], distances[i]));
    }
}

/// A zero distance is never beaten by a distance that is not negative: the
/// search settles on the first zero.
pub proof fn lemma_zero_distance_wins(distances: Seq<u32>, k: int)
    requires
        0 <= k < distances.len(),
        is_zero(distances[k]),
        forall|j: int|
            0 <= j < distances.len() ==> is_nan(#[trigger] distances[j]) || rank(distances[j])
                >= 0,
    ensures
        nearest_position(distances) matches Some(i) && i <= k && is_zero(distances[i]),
{
    let first = lemma_first_zero(distances, k);
    assert(is_nearest_at(distances, first)) by {
        assert forall|j: int| 0 <= j < first implies is_nan(#[trigger] distances[j]) || less(
            distances[first],
            distances[j],
        ) by {
            assert(is_nan(distances[j]) || rank(distances[j]) >= 0);
        }
        assert forall|j: int| first < j < distances.len() implies !less(
            #[trigger] distances[j],
            distances[first],
        ) by {
            assert(is_nan(distances[j]) || rank(distances[j]) >= 0);
        }
    }
    lemma_nearest_position_is(distances, first);
}

/// Up to a position that holds a zero there is a first one that does.
pub proof fn lemma_first_zero(distances: Seq<u32>, k: int) -> (first: int)
    requires
        0 <= k < distances.len(),
        is_zero(distances[k]),
    ensures
        0 <= first <= k,
        is_zero(distances[first]),
        forall|j: int| 0 <= j < first ==> !is_zero(#[trigger] distances[j]),
    decreases k,
{
    if exists|j: int| 0 <= j < k && is_zero(#[trigger] distances[j]) {
        let j = choose|j: int| 0 <= j < k && is_zero(#[trigger] distances[j]);
        lemma_first_zero(distances, j)
    } else {
        k
    }
}

/// Whether `a < b` as single-precision numbers, decided on their bit
/// patterns.
pub fn distance_less(a: u32, b: u32) -> (r: bool)
    ensures
        r == less(a, b),
{
    let ma: u32 = if a >= SIGN_BIT {
        a - SIGN_BIT
    } else {
        a
    };
    let mb: u32 = if b >= SIGN_BIT {
        b - SIGN_BIT
    } else {
        b
    };
    if ma > INFINITY_BITS || mb > INFINITY_BITS {
        false
    } else if a >= SIGN_BIT {
        if b >= SIGN_BIT {
            ma > mb
        } else {
            ma > 0 || mb > 0
        }
    } else {
        b < SIGN_BIT && ma < mb
    }
}

/// The distance that a scan has to beat: that of the position chosen so
/// far, or infinity where none was chosen yet.
pub open spec fn best_so_far(distances: Seq<u32>, chosen: Option<int>) -> u32 {
    match chosen {
        Some(k) => distances[k],
        None => INFINITY_BITS,
    }
}

/// Where there is no nearest position, no distance is a candidate.
pub proof fn lemma_no_position_no_candidate(distances: Seq<u32>)
    requires
        nearest_position(distances) is None,
    ensures
        forall|j: int| 0 <= j < distances.len() ==> !is_candidate(#[trigger] distances[j]),
    decreases distances.len(),
{
    if distances.len() > 0 {
        let n = distances.len() - 1;
        let front = distances.take(n);
        let last = distances[n];
        if nearest_position(front) is None {
            lemma_no_position_no_candidate(front);
            if is_candidate(last) {
                assert forall|j: int| 0 <= j < n implies is_nan(#[trigger] distances[j]) || less(
                    distances[n],
                    distances[j],
                ) by {
                    assert(!is_candidate(front[j]));
                }
                assert(is_nearest_at(distances, n));
            }
            assert forall|j: int| 0 <= j < distances.len() implies !is_candidate(
                #[trigger] distances[j],
            ) by {
                if j < n {
                    assert(!is_candidate(front[j]));
                }
            }
        } else {
            let k = nearest_position(front)->0;
            assert(is_nearest_at(front, k));
            if less(last, front[k]) {
                assert forall|j: int| 0 <= j < n implies is_nan(#[trigger] distances[j]) || less(
                    distances[n],
                    distances[j],
                ) by {
                    assert(front[j] == distances[j]);
                    if j < k {
                        assert(is_nan(front[j]) || less(front[k], front[j]));
                    } else if j > k {
                        assert(!less(front[j], front[k]));
                    }
                }
                assert(is_nearest_at(distances, n));
            } else {
                assert forall|j: int| 0 <= j < k implies is_nan(#[trigger] distances[j]) || less(
                    distances[k],
                    distances[j],
                ) by {
                    assert(front[j] == distances[j]);
                }
                assert forall|j: int| k < j < distances.len() implies !less(
                    #[trigger] distances[j],
                    distances[k],
                ) by {
                    if j < n {
                        assert(front[j] == distances[j]);
                    }
                }
                assert(is_nearest_at(distances, k));
            }
        }
    }
}

/// One step of a scan from the front: the nearest position among the first
/// `i + 1` distances is `i` where that distance is strictly below the best
/// so far, and the position chosen among the first `i` otherwise.
pub proof fn lemma_scan_step(distances: Seq<u32>, i: int)
    requires
        0 <= i < distances.len(),
    ensures
        nearest_position(distances.take(i + 1)) == if less(
            distances[i],
            best_so_far(distances, nearest_position(distances.take(i))),
        ) {
            Some(i)
        } else {
            nearest_position(distances.take(i))
        },
{
    let before = distances.take(i);
    let after = distances.take(i + 1);
    let d = distances[i];
    assert(after[i] == d);
    match nearest_position(before) {
        Some(k) => {
            assert(is_nearest_at(before, k));
            assert(before[k] == distances[k]);
            if less(d, distances[k]) {
                assert forall|j: int| 0 <= j < i implies is_nan(#[trigger] after[j]) || less(
                    after[i],
                    after[j],
                ) by {
                    assert(before[j] == after[j]);
                    if j < k {
                        assert(is_nan(before[j]) || less(before[k], before[j]));
                    } else if j > k {
                        assert(!less(before[j], before[k]));
                    }
                }
                lemma_nearest_position_is(after, i);
            } else {
                assert forall|j: int| 0 <= j < k implies is_nan(#[trigger] after[j]) || less(
                    after[k],
                    after[j],
                ) by {
                    assert(before[j] == after[j]);
                }
                assert forall|j: int| k < j < after.len() implies !less(
                    #[trigger] after[j],
                    after[k],
                ) by {
                    if j < i {
                        assert(before[j] == after[j]);
                    }
                }
                lemma_nearest_position_is(after, k);
            }
        },
        None => {
            lemma_no_position_no_candidate(before);
            if less(d, INFINITY_BITS) {
                assert forall|j: int| 0 <= j < i implies is_nan(#[trigger] after[j]) || less(
                    after[i],
                    after[j],
                ) by {
                    assert(!is_candidate(before[j]));
                }
                lemma_nearest_position_is(after, i);
            } else {
                assert forall|j: int| 0 <= j < after.len() implies !is_candidate(
                    #[trigger] after[j],
                ) by {
                    if j < i {
                        assert(!is_candidate(before[j]));
                    }
                }
                lemma_no_candidate_no_position(after);
            }
        },
    }
}

/// The position of the nearest candidate among `distances`: the first
/// position whose distance is the least of those that are numbers below
/// infinity; `None` where there is no such distance.
pub fn nearest_index(distances: &[u32]) -> (r: Option<usize>)
    ensures
        match r {
            Some(k) => nearest_position(distances@) == Some(k as int),
            None => nearest_position(distances@) is None,
        },
{
    let mut best: u32 = INFINITY_BITS;
    let mut chosen: Option<usize> = None;
    let mut i: usize = 0;
    proof {
        lemma_no_candidate_no_position(distances@.take(0));
    }
    while i < distances.len()
        invariant
            0 <= i <= distances.len(),
            match chosen {
                Some(k) => nearest_position(distances@.take(i as int)) == Some(k as int),
                None => nearest_position(distances@.take(i as int)) is None,
            },
            best == best_so_far(distances@, nearest_position(distances@.take(i as int))),
        decreases distances.len() - i,
    {
        let d = distances[i];
        proof {
            lemma_scan_step(distances@, i as int);
        }
        if distance_less(d, best) {
            best = d;
            chosen = Some(i);
        }
        i += 1;
    }
    proof {
        assert(distances@.take(i as int) =~= distances@);
    }
    chosen
}

} // verus!
