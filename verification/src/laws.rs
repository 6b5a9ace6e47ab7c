//! Laws of the pattern type: properties that hold of every valid pattern,
//! proved once over the mathematical view.

use vstd::prelude::*;

use crate::pattern::{
    lane_indices_ok, lane_scan, lanes_scan, offsets_nondecreasing, pattern_valid, valid_csr_data,
    validate, PatternView,
};

verus! {

/// Law: within any lane of a valid pattern, the stored minor indices are
/// strictly increasing between any two positions (hence pairwise distinct),
/// and each is at most the minor dimension.
pub proof fn lemma_lane_strictly_increasing(v: PatternView, i: int, j: int, k: int)
    requires
        pattern_valid(v),
        0 <= i < v.major_offsets.len() - 1,
        v.major_offsets[i] <= j < k < v.major_offsets[i + 1],
    ensures
        v.minor_indices[j] < v.minor_indices[k],
        v.minor_indices[j] <= v.minor_dim,
        v.minor_indices[k] <= v.minor_dim,
{
    assert(lane_indices_ok(
        v.minor_indices,
        v.major_offsets[i] as int,
        v.major_offsets[i + 1] as int,
        v.minor_dim,
    ));
}

/// A clean scan of positions `k .. end`, after an accepted prefix
/// `start .. k`, leaves the whole lane strictly increasing and bounded.
proof fn lemma_lane_scan_none(indices: Seq<usize>, start: int, k: int, end: int, minor_dim: usize)
    requires
        0 <= start <= k <= end <= indices.len(),
        lane_scan(indices, start, k, end, minor_dim) is None,
        forall|t: int| start <= t < k ==> #[trigger] indices[t] <= minor_dim,
        forall|t: int, u: int|
            start <= t < u < k ==> #[trigger] indices[t] < #[trigger] indices[u],
    ensures
        lane_indices_ok(indices, start, end, minor_dim),
    decreases end - k,
{
    if k < end {
        assert forall|t: int, u: int|
            start <= t < u < k + 1 implies #[trigger] indices[t] < #[trigger] indices[u] by {
            if u == k && k > start {
                assert(indices[k - 1] < indices[k]);
                if t < k - 1 {
                    assert(indices[t] < indices[k - 1]);
                }
            }
        }
        lemma_lane_scan_none(indices, start, k + 1, end, minor_dim);
    }
}

/// A strictly increasing, bounded lane is accepted by the scan from any
/// position onwards.
proof fn lemma_lane_ok_scan_none(
    indices: Seq<usize>,
    start: int,
    k: int,
    end: int,
    minor_dim: usize,
)
    requires
        0 <= start <= k <= end <= indices.len(),
        lane_indices_ok(indices, start, end, minor_dim),
    ensures
        lane_scan(indices, start, k, end, minor_dim) is None,
    decreases end - k,
{
    if k < end {
        assert(indices[k] <= minor_dim);
        if k > start {
            assert(indices[k - 1] < indices[k]);
        }
        lemma_lane_ok_scan_none(indices, start, k + 1, end, minor_dim);
    }
}

/// A clean scan of lanes `lane ..` leaves their boundaries nondecreasing and
/// every one of their lanes strictly increasing and bounded.
proof fn lemma_lanes_scan_none(offsets: Seq<usize>, indices: Seq<usize>, minor_dim: usize, lane: int)
    requires
        1 <= offsets.len(),
        offsets[offsets.len() - 1] == indices.len(),
        0 <= lane < offsets.len(),
        lanes_scan(offsets, indices, minor_dim, lane) is None,
    ensures
        forall|i: int, j: int|
            lane <= i <= j < offsets.len() ==> #[trigger] offsets[i] <= #[trigger] offsets[j],
        forall|i: int|
            lane <= i < offsets.len() - 1 ==> #[trigger] lane_indices_ok(
                indices,
                offsets[i] as int,
                offsets[i + 1] as int,
                minor_dim,
            ),
    decreases offsets.len() - lane,
{
    if lane + 1 < offsets.len() {
        assert(offsets[lane] <= offsets[lane + 1]);
        assert(offsets[lane + 1] <= indices.len());
        lemma_lane_scan_none(
            indices,
            offsets[lane] as int,
            offsets[lane] as int,
            offsets[lane + 1] as int,
            minor_dim,
        );
        lemma_lanes_scan_none(offsets, indices, minor_dim, lane + 1);
        assert forall|i: int, j: int|
            lane <= i <= j < offsets.len() implies #[trigger] offsets[i]
            <= #[trigger] offsets[j] by {
            if i == lane && j > lane {
                assert(offsets[lane + 1] <= offsets[j]);
            }
        }
    }
}

/// Nondecreasing boundaries and acceptable lanes are accepted by the scan from
/// any lane onwards.
proof fn lemma_valid_lanes_scan_none(
    offsets: Seq<usize>,
    indices: Seq<usize>,
    minor_dim: usize,
    lane: int,
)
    requires
        1 <= offsets.len(),
        offsets[offsets.len() - 1] == indices.len(),
        offsets_nondecreasing(offsets),
        forall|i: int|
            0 <= i < offsets.len() - 1 ==> #[trigger] lane_indices_ok(
                indices,
                offsets[i] as int,
                offsets[i + 1] as int,
                minor_dim,
            ),
        0 <= lane < offsets.len(),
    ensures
        lanes_scan(offsets, indices, minor_dim, lane) is None,
    decreases offsets.len() - lane,
{
    if lane + 1 < offsets.len() {
        assert(offsets[lane] <= offsets[lane + 1]);
        assert(offsets[lane + 1] <= offsets[offsets.len() - 1]);
        assert(lane_indices_ok(
            indices,
            offsets[lane] as int,
            offsets[lane + 1] as int,
            minor_dim,
        ));
        lemma_lane_ok_scan_none(
            indices,
            offsets[lane] as int,
            offsets[lane] as int,
            offsets[lane + 1] as int,
            minor_dim,
        );
        lemma_valid_lanes_scan_none(offsets, indices, minor_dim, lane + 1);
    }
}

/// Law: on machine-sized arrays the validation pass is sound and complete: it
/// reports no fault exactly when the arrays form a valid pattern for the given
/// dimensions.
pub proof fn lemma_validate_complete(
    major_dim: usize,
    minor_dim: usize,
    offsets: Seq<usize>,
    indices: Seq<usize>,
)
    requires
        offsets.len() <= usize::MAX,
        indices.len() <= usize::MAX,
    ensures
        validate(major_dim, minor_dim, offsets, indices) is None <==> valid_csr_data(
            major_dim,
            minor_dim,
            offsets,
            indices,
        ),
{
    let v = PatternView { major_offsets: offsets, minor_indices: indices, minor_dim };
    if validate(major_dim, minor_dim, offsets, indices) is None {
        lemma_lanes_scan_none(offsets, indices, minor_dim, 0);
        assert(pattern_valid(v));
    }
    if valid_csr_data(major_dim, minor_dim, offsets, indices) {
        assert(pattern_valid(v));
        assert forall|i: int| 0 <= i < offsets.len() - 1 implies #[trigger] lane_indices_ok(
            indices,
            offsets[i] as int,
            offsets[i + 1] as int,
            minor_dim,
        ) by {
            assert(lane_indices_ok(
                v.minor_indices,
                v.major_offsets[i] as int,
                v.major_offsets[i + 1] as int,
                v.minor_dim,
            ));
        }
        lemma_valid_lanes_scan_none(offsets, indices, minor_dim, 0);
    }
}

} // verus!
