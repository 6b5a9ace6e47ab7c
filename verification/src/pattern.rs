//! The sparsity-pattern data type: validated construction from raw offset and
//! index arrays, read accessors, and the lane-major entry iterator.

use vstd::prelude::*;

verus! {

/// The kinds of structural failure the validating constructor can report.
#[derive(Debug, Clone, Copy, PartialEq, Eq, Structural)]
pub enum SparseFormatError {
    /// Malformed offsets: wrong length, wrong first or last value,
    /// non-monotonic lane boundaries, or unsorted minor indices within a lane.
    InvalidStructure,
    /// A minor index exceeds the declared minor-dimension bound.
    IndexOutOfBounds,
    /// The same minor index appears twice within one lane.
    DuplicateEntry,
}

/// The mathematical content of a pattern: its two backing arrays and the
/// declared minor dimension.
pub ghost struct PatternView {
    pub major_offsets: Seq<usize>,
    pub minor_indices: Seq<usize>,
    pub minor_dim: usize,
}

/// Offsets never decrease: an earlier offset is at most any later one.
pub open spec fn offsets_nondecreasing(offsets: Seq<usize>) -> bool {
    forall|i: int, j: int|
        0 <= i <= j < offsets.len() ==> #[trigger] offsets[i] <= #[trigger] offsets[j]
}

/// Within the half-open position range `start .. end` of `indices`, values are
/// strictly increasing (hence pairwise distinct) and each is at most
/// `minor_dim`.
///
/// The bound deliberately admits a value numerically equal to the minor
/// dimension: the validating scan rejects only values strictly greater than it.
pub open spec fn lane_indices_ok(
    indices: Seq<usize>,
    start: int,
    end: int,
    minor_dim: usize,
) -> bool {
    &&& forall|k: int| start <= k < end ==> #[trigger] indices[k] <= minor_dim
    &&& forall|j: int, k: int|
        start <= j < k < end ==> #[trigger] indices[j] < #[trigger] indices[k]
}

/// The structural invariants of a live pattern: the first offset is zero, the
/// last offset equals the number of stored minor indices, offsets never
/// decrease, and every lane's minor indices are strictly increasing and bounded.
pub open spec fn pattern_valid(v: PatternView) -> bool {
    &&& 1 <= v.major_offsets.len() <= usize::MAX
    &&& v.minor_indices.len() <= usize::MAX
    &&& v.major_offsets[0] == 0
    &&& v.major_offsets[v.major_offsets.len() - 1] == v.minor_indices.len()
    &&& offsets_nondecreasing(v.major_offsets)
    &&& forall|i: int|
        0 <= i < v.major_offsets.len() - 1 ==> #[trigger] lane_indices_ok(
            v.minor_indices,
            v.major_offsets[i] as int,
            v.major_offsets[i + 1] as int,
            v.minor_dim,
        )
}

/// Raw arrays are acceptable for the given dimensions: the offsets have
/// exactly `major_dim + 1` entries and the whole forms a valid pattern.
pub open spec fn valid_csr_data(
    major_dim: usize,
    minor_dim: usize,
    offsets: Seq<usize>,
    indices: Seq<usize>,
) -> bool {
    &&& offsets.len() == major_dim + 1
    &&& pattern_valid(
        PatternView { major_offsets: offsets, minor_indices: indices, minor_dim },
    )
}

/// The outcome of the single forward validation pass over one lane, scanning
/// positions `k .. end` after positions `start .. k` have already been
/// accepted: `None` when the rest of the lane is acceptable, otherwise the
/// kind of the first fault met. At each position the bound is tested first,
/// then the comparison with the previous value.
pub open spec fn lane_scan(
    indices: Seq<usize>,
    start: int,
    k: int,
    end: int,
    minor_dim: usize,
) -> Option<SparseFormatError>
    decreases end - k,
{
    if k >= end {
        None
    } else if indices[k] > minor_dim {
        Some(SparseFormatError::IndexOutOfBounds)
    } else if k > start && indices[k - 1] > indices[k] {
        Some(SparseFormatError::InvalidStructure)
    } else if k > start && indices[k - 1] == indices[k] {
        Some(SparseFormatError::DuplicateEntry)
    } else {
        lane_scan(indices, start, k + 1, end, minor_dim)
    }
}

/// The outcome of the validation pass over lanes `lane ..`, after all earlier
/// lanes have been accepted: `None` when they are all acceptable, otherwise
/// the kind of the first fault met. A lane whose boundaries decrease, or
/// whose end lies past the index storage, is a structural fault found before
/// its indices are read.
pub open spec fn lanes_scan(
    offsets: Seq<usize>,
    indices: Seq<usize>,
    minor_dim: usize,
    lane: int,
) -> Option<SparseFormatError>
    decreases offsets.len() - lane,
{
    if lane + 1 >= offsets.len() {
        None
    } else if offsets[lane] > offsets[lane + 1] || offsets[lane + 1] > indices.len() {
        Some(SparseFormatError::InvalidStructure)
    } else {
        match lane_scan(
            indices,
            offsets[lane] as int,
            offsets[lane] as int,
            offsets[lane + 1] as int,
            minor_dim,
        ) {
            Some(e) => Some(e),
            None => lanes_scan(offsets, indices, minor_dim, lane + 1),
        }
    }
}

/// The outcome of the whole validation pass: the length of the offsets, then
/// their first and last values, then every lane in order. `None` exactly when
/// the arrays form a valid pattern for the given dimensions.
pub open spec fn validate(
    major_dim: usize,
    minor_dim: usize,
    offsets: Seq<usize>,
    indices: Seq<usize>,
) -> Option<SparseFormatError> {
    if offsets.len() != major_dim + 1 {
        Some(SparseFormatError::InvalidStructure)
    } else if offsets[0] != 0 {
        Some(SparseFormatError::InvalidStructure)
    } else if offsets[offsets.len() - 1] != indices.len() {
        Some(SparseFormatError::InvalidStructure)
    } else {
        lanes_scan(offsets, indices, minor_dim, 0)
    }
}

/// Walk one lane of the index array in order, reporting the first fault met,
/// if any: a value above the bound, a value below its predecessor, or a value
/// equal to its predecessor.
fn scan_lane(
    minor_indices: &Vec<usize>,
    range_start: usize,
    range_end: usize,
    minor_dim: usize,
) -> (r: Option<SparseFormatError>)
    requires
        range_start <= range_end <= minor_indices@.len(),
    ensures
        r == lane_scan(
            minor_indices@,
            range_start as int,
            range_start as int,
            range_end as int,
            minor_dim,
        ),
        r is None <==> lane_indices_ok(
            minor_indices@,
            range_start as int,
            range_end as int,
            minor_dim,
        ),
{
    let ghost start = range_start as int;
    let ghost end = range_end as int;
    let mut k: usize = range_start;
    while k < range_end
        invariant
            start == range_start as int,
            end == range_end as int,
            range_start <= k <= range_end,
            range_end <= minor_indices@.len(),
            lane_scan(minor_indices@, start, start, end, minor_dim) == lane_scan(
                minor_indices@,
                start,
                k as int,
                end,
                minor_dim,
            ),
            forall|t: int| start <= t < k ==> #[trigger] minor_indices@[t] <= minor_dim,
            forall|t: int, u: int|
                start <= t < u < k ==> #[trigger] minor_indices@[t] < #[trigger] minor_indices@[u],
        decreases range_end - k,
    {
        let next = minor_indices[k];

        if next > minor_dim {
            proof {
                assert(!lane_indices_ok(minor_indices@, start, end, minor_dim)) by {
                    assert(!(minor_indices@[k as int] <= minor_dim));
                }
            }
            return Some(SparseFormatError::IndexOutOfBounds);
        }
        if k > range_start {
            let prev = minor_indices[k - 1];
            if prev > next || prev == next {
                proof {
                    assert(!lane_indices_ok(minor_indices@, start, end, minor_dim)) by {
                        assert(!(minor_indices@[k as int - 1] < minor_indices@[k as int]));
                    }
                }
                if prev > next {
                    return Some(SparseFormatError::InvalidStructure);
                }
                return Some(SparseFormatError::DuplicateEntry);
            }
        }
        proof {
            assert forall|t: int, u: int|
                start <= t < u < k + 1 implies #[trigger] minor_indices@[t]
                < #[trigger] minor_indices@[u] by {
                if u == k as int && k > range_start {
                    assert(minor_indices@[k as int - 1] < minor_indices@[k as int]);
                    if t < k as int - 1 {
                        assert(minor_indices@[t] < minor_indices@[k as int - 1]);
                    }
                }
            }
        }
        k = k + 1;
    }
    proof {
        assert(lane_indices_ok(minor_indices@, start, end, minor_dim));
    }
    None
}

/// The entries of one lane, in storage order: the lane index paired with each
/// minor index the lane stores.
pub open spec fn lane_entries(v: PatternView, i: int) -> Seq<(usize, usize)> {
    Seq::new(
        (v.major_offsets[i + 1] - v.major_offsets[i]) as nat,
        |j: int| (i as usize, v.minor_indices[v.major_offsets[i] as int + j]),
    )
}

/// The entries of lanes `0 .. n`, concatenated in lane order.
pub open spec fn entries_up_to(v: PatternView, n: int) -> Seq<(usize, usize)>
    decreases n,
{
    if n <= 0 {
        Seq::empty()
    } else {
        entries_up_to(v, n - 1) + lane_entries(v, n - 1)
    }
}

/// The full ordered sequence of stored `(major_index, minor_index)` pairs of a
/// pattern: lane-ascending, and minor-ascending within each lane.
pub open spec fn entry_seq(v: PatternView) -> Seq<(usize, usize)> {
    entries_up_to(v, v.major_offsets.len() - 1)
}

/// In a valid pattern, the entries of lanes `0 .. n` fill exactly the storage
/// positions below `major_offsets[n]`.
proof fn lemma_entries_up_to_len(v: PatternView, n: int)
    requires
        pattern_valid(v),
        0 <= n < v.major_offsets.len(),
    ensures
        entries_up_to(v, n).len() == v.major_offsets[n],
    decreases n,
{
    if n == 0 {
    } else {
        lemma_entries_up_to_len(v, n - 1);
        assert(v.major_offsets[n - 1] <= v.major_offsets[n]);
    }
}

/// Law: the entry sequence of a valid pattern has exactly one pair per stored
/// minor index.
pub proof fn lemma_entry_seq_len(v: PatternView)
    requires
        pattern_valid(v),
    ensures
        entry_seq(v).len() == v.minor_indices.len(),
{
    lemma_entries_up_to_len(v, v.major_offsets.len() - 1);
}

/// In a valid pattern, position `k` of the entries of lanes `0 .. n` carries
/// the `k`-th stored minor index, paired with the lane `i` that owns
/// position `k`.
proof fn lemma_entries_up_to_index(v: PatternView, n: int, i: int, k: int)
    requires
        pattern_valid(v),
        0 <= i < n < v.major_offsets.len(),
        v.major_offsets[i] <= k < v.major_offsets[i + 1],
    ensures
        0 <= k < entries_up_to(v, n).len(),
        entries_up_to(v, n)[k] == (i as usize, v.minor_indices[k]),
    decreases n,
{
    lemma_entries_up_to_len(v, n);
    assert(v.major_offsets[i + 1] <= v.major_offsets[n]);
    lemma_entries_up_to_len(v, n - 1);
    if n == i + 1 {
        assert(entries_up_to(v, n)[k] == lane_entries(v, i)[k - v.major_offsets[i]]);
    } else {
        lemma_entries_up_to_index(v, n - 1, i, k);
        assert(v.major_offsets[i + 1] <= v.major_offsets[n - 1]);
        assert(entries_up_to(v, n)[k] == entries_up_to(v, n - 1)[k]);
    }
}

/// Entry pairs are strictly increasing in lexicographic `(lane, minor)` order.
pub open spec fn entries_lex_sorted(es: Seq<(usize, usize)>) -> bool {
    forall|a: int, b: int|
        0 <= a < b < es.len() ==> (#[trigger] es[a]).0 < (#[trigger] es[b]).0 || (es[a].0 == es[b].0
            && es[a].1 < es[b].1)
}

/// In a valid pattern, the entries of lanes `0 .. n` are lexicographically
/// sorted and all carry a lane index below `n`.
proof fn lemma_entries_up_to_sorted(v: PatternView, n: int)
    requires
        pattern_valid(v),
        0 <= n < v.major_offsets.len(),
    ensures
        entries_lex_sorted(entries_up_to(v, n)),
        forall|a: int|
            0 <= a < entries_up_to(v, n).len() ==> (#[trigger] entries_up_to(v, n)[a]).0 < n,
    decreases n,
{
    if n > 0 {
        lemma_entries_up_to_sorted(v, n - 1);
        lemma_entries_up_to_len(v, n - 1);
        let left = entries_up_to(v, n - 1);
        let ln = lane_entries(v, n - 1);
        let es = entries_up_to(v, n);
        assert(v.major_offsets[n - 1] <= v.major_offsets[n]);
        assert(lane_indices_ok(
            v.minor_indices,
            v.major_offsets[n - 1] as int,
            v.major_offsets[n] as int,
            v.minor_dim,
        ));
        assert forall|a: int| 0 <= a < es.len() implies (#[trigger] es[a]).0 < n by {
            if a < left.len() {
                assert(es[a] == left[a]);
            } else {
                assert(es[a] == ln[a - left.len()]);
            }
        }
        assert forall|a: int, b: int| 0 <= a < b < es.len() implies (#[trigger] es[a]).0 < (
        #[trigger] es[b]).0 || (es[a].0 == es[b].0 && es[a].1 < es[b].1) by {
            if b < left.len() {
                assert(es[a] == left[a]);
                assert(es[b] == left[b]);
            } else if a < left.len() {
                let pb = v.major_offsets[n - 1] as int + (b - left.len());
                assert(es[a] == left[a]);
                assert(es[b] == ln[b - left.len()]);
                assert(ln[b - left.len()] == (((n - 1) as usize, v.minor_indices[pb])));
                assert(left[a].0 < n - 1);
            } else {
                let pa = v.major_offsets[n - 1] as int + (a - left.len());
                let pb = v.major_offsets[n - 1] as int + (b - left.len());
                assert(es[a] == ln[a - left.len()]);
                assert(es[b] == ln[b - left.len()]);
                assert(ln[a - left.len()] == (((n - 1) as usize, v.minor_indices[pa])));
                assert(ln[b - left.len()] == (((n - 1) as usize, v.minor_indices[pb])));
                assert(v.minor_indices[pa] < v.minor_indices[pb]);
            }
        }
    }
}

/// Law: the entry sequence of a valid pattern is strictly increasing in
/// lexicographic `(lane, minor)` order: lane-ascending, and minor-ascending
/// within each lane.
pub proof fn lemma_entry_seq_sorted(v: PatternView)
    requires
        pattern_valid(v),
    ensures
        entries_lex_sorted(entry_seq(v)),
{
    lemma_entries_up_to_sorted(v, v.major_offsets.len() - 1);
}

/// Law: in a valid pattern, the entry at position `k` of the entry sequence is
/// the `k`-th stored minor index paired with the lane `i` owning position `k`:
/// the traversal matches direct indexing into the backing arrays.
pub proof fn lemma_entry_seq_entry(v: PatternView, i: int, k: int)
    requires
        pattern_valid(v),
        0 <= i < v.major_offsets.len() - 1,
        v.major_offsets[i] <= k < v.major_offsets[i + 1],
    ensures
        0 <= k < entry_seq(v).len(),
        entry_seq(v)[k] == (i as usize, v.minor_indices[k]),
{
    lemma_entries_up_to_index(v, v.major_offsets.len() - 1, i, k);
}

/// A representation of the sparsity pattern of a CSR or CSC matrix.
///
/// The pattern stores, for each major lane, the range of positions its minor
/// indices occupy in a shared index array:
///
/// - `major_offsets` has `major_dim + 1` entries, starts at 0, never
///   decreases, and ends at the number of stored minor indices;
/// - within each lane the minor indices are sorted, unique and bounded by the
///   minor dimension.
///
/// Every live instance satisfies these invariants: the validating constructor
/// establishes them once and no mutation API exists afterwards.
#[derive(Debug, PartialEq, Eq)]
pub struct SparsityPattern {
    major_offsets: Vec<usize>,
    minor_indices: Vec<usize>,
    minor_dim: usize,
}

impl View for SparsityPattern {
    type V = PatternView;

    closed spec fn view(&self) -> PatternView {
        PatternView {
            major_offsets: self.major_offsets@,
            minor_indices: self.minor_indices@,
            minor_dim: self.minor_dim,
        }
    }
}

impl Clone for SparsityPattern {
    /// The clone carries the same offsets, indices and minor dimension.
    fn clone(&self) -> (r: Self)
        ensures
            r@ == self@,
    {
        proof {
            use_type_invariant(self);
        }
        let major_offsets = self.major_offsets.clone();
        let minor_indices = self.minor_indices.clone();
        proof {
            assert(major_offsets@ =~= self.major_offsets@);
            assert(minor_indices@ =~= self.minor_indices@);
        }
        Self { major_offsets, minor_indices, minor_dim: self.minor_dim }
    }
}

impl SparsityPattern {
    #[verifier::type_invariant]
    spec fn inv(&self) -> bool {
        pattern_valid(self@)
    }

    /// Create a sparsity pattern of the given dimensions without explicitly
    /// stored entries.
    pub fn new(major_dim: usize, minor_dim: usize) -> (r: Self)
        requires
            major_dim < usize::MAX,
        ensures
            r@.major_offsets.len() == major_dim + 1,
            forall|i: int| 0 <= i < r@.major_offsets.len() ==> r@.major_offsets[i] == 0,
            r@.minor_indices.len() == 0,
            r@.minor_dim == minor_dim,
            pattern_valid(r@),
    {
        let mut major_offsets: Vec<usize> = Vec::new();
        let mut i: usize = 0;
        while i < major_dim + 1
            invariant
                major_dim < usize::MAX,
                i <= major_dim + 1,
                major_offsets@.len() == i,
                forall|k: int| 0 <= k < i ==> major_offsets@[k] == 0,
            decreases major_dim + 1 - i,
        {
            major_offsets.push(0);
            i = i + 1;
        }
        let minor_indices: Vec<usize> = Vec::new();
        proof {
            let v = PatternView {
                major_offsets: major_offsets@,
                minor_indices: minor_indices@,
                minor_dim,
            };
            assert(pattern_valid(v));
        }
        Self { major_offsets, minor_indices, minor_dim }
    }

    /// The offsets for the major dimension, as a read-only view over the
    /// owned storage.
    #[inline]
    pub fn major_offsets(&self) -> (r: &[usize])
        ensures
            r@ == self@.major_offsets,
    {
        self.major_offsets.as_slice()
    }

    /// The indices for the minor dimension, as a read-only view over the
    /// owned storage.
    #[inline]
    pub fn minor_indices(&self) -> (r: &[usize])
        ensures
            r@ == self@.minor_indices,
    {
        self.minor_indices.as_slice()
    }

    /// The major dimension: one less than the number of stored offsets.
    #[inline]
    pub fn major_dim(&self) -> (r: usize)
        ensures
            r == self@.major_offsets.len() - 1,
    {
        proof {
            use_type_invariant(self);
        }
        self.major_offsets.len() - 1
    }

    /// The minor dimension.
    #[inline]
    pub fn minor_dim(&self) -> (r: usize)
        ensures
            r == self@.minor_dim,
    {
        self.minor_dim
    }

    /// The number of "non-zeros", i.e. explicitly stored entries in the
    /// pattern.
    #[inline]
    pub fn nnz(&self) -> (r: usize)
        ensures
            r == self@.minor_indices.len(),
    {
        self.minor_indices.len()
    }

    /// Get the lane at the given index: a read-only view of the lane's minor
    /// indices. The result is absent exactly when `major_index` is not a valid
    /// lane position; a valid lane with no stored entries yields an empty view.
    #[inline]
    pub fn lane(&self, major_index: usize) -> (r: Option<&[usize]>)
        ensures
            (match r {
                Some(s) => {
                    &&& major_index + 1 < self@.major_offsets.len()
                    &&& s@ == self@.minor_indices.subrange(
                        self@.major_offsets[major_index as int] as int,
                        self@.major_offsets[major_index as int + 1] as int,
                    )
                },
                None => major_index + 1 >= self@.major_offsets.len(),
            }),
    {
        proof {
            use_type_invariant(self);
        }
        if major_index >= self.major_offsets.len() {
            return None;
        }
        if major_index + 1 >= self.major_offsets.len() {
            return None;
        }
        let offset_begin = self.major_offsets[major_index];
        let offset_end = self.major_offsets[major_index + 1];
        proof {
            assert(offset_begin <= offset_end);
            assert(self@.major_offsets[major_index as int + 1] <= self@.major_offsets[self@.major_offsets.len()
                - 1]);
        }
        Some(vstd::slice::slice_subrange(self.minor_indices.as_slice(), offset_begin, offset_end))
    }

    /// Try to construct a sparsity pattern from the given dimensions, major
    /// offsets and minor indices.
    ///
    /// The arrays are validated in a single forward pass; each minor index is
    /// visited exactly once. On success the pattern owns the arrays unchanged;
    /// otherwise the kind of the first fault met is reported and nothing is
    /// produced.
    #[verifier::loop_isolation(false)]
    pub fn try_from_offsets_and_indices(
        major_dim: usize,
        minor_dim: usize,
        major_offsets: Vec<usize>,
        minor_indices: Vec<usize>,
    ) -> (r: Result<Self, SparseFormatError>)
        ensures
            r is Ok <==> valid_csr_data(major_dim, minor_dim, major_offsets@, minor_indices@),
            r is Ok <==> validate(major_dim, minor_dim, major_offsets@, minor_indices@) is None,
            (match r {
                Ok(p) => {
                    &&& p@.major_offsets == major_offsets@
                    &&& p@.minor_indices == minor_indices@
                    &&& p@.minor_dim == minor_dim
                    &&& pattern_valid(p@)
                },
                Err(e) => validate(major_dim, minor_dim, major_offsets@, minor_indices@) == Some(
                    e,
                ),
            }),
    {
        if major_offsets.len() == 0 || major_offsets.len() - 1 != major_dim {
            return Err(SparseFormatError::InvalidStructure);
        }
        if major_offsets[0] != 0 {
            return Err(SparseFormatError::InvalidStructure);
        }
        if major_offsets[major_offsets.len() - 1] != minor_indices.len() {
            return Err(SparseFormatError::InvalidStructure);
        }
        let mut lane_idx: usize = 0;
        while lane_idx < major_dim
            invariant
                lane_idx <= major_dim,
                lanes_scan(major_offsets@, minor_indices@, minor_dim, 0) == lanes_scan(
                    major_offsets@,
                    minor_indices@,
                    minor_dim,
                    lane_idx as int,
                ),
                forall|i: int, j: int|
                    0 <= i <= j <= lane_idx ==> #[trigger] major_offsets@[i]
                        <= #[trigger] major_offsets@[j],
                forall|i: int|
                    0 <= i < lane_idx ==> #[trigger] lane_indices_ok(
                        minor_indices@,
                        major_offsets@[i] as int,
                        major_offsets@[i + 1] as int,
                        minor_dim,
                    ),
            decreases major_dim - lane_idx,
        {
            let range_start = major_offsets[lane_idx];
            let range_end = major_offsets[lane_idx + 1];

            if range_start > range_end || range_end > minor_indices.len() {
                proof {
                    if range_start > range_end {
                        assert(!offsets_nondecreasing(major_offsets@)) by {
                            assert(!(major_offsets@[lane_idx as int] <= major_offsets@[lane_idx
                                as int + 1]));
                        }
                    } else {
                        if offsets_nondecreasing(major_offsets@) {
                            assert(major_offsets@[lane_idx as int + 1]
                                <= major_offsets@[major_offsets@.len() - 1]);
                            assert(false);
                        }
                    }
                }
                return Err(SparseFormatError::InvalidStructure);
            }

            let fault = scan_lane(&minor_indices, range_start, range_end, minor_dim);
            if let Some(e) = fault {
                proof {
                    if valid_csr_data(major_dim, minor_dim, major_offsets@, minor_indices@) {
                        let v = PatternView {
                            major_offsets: major_offsets@,
                            minor_indices: minor_indices@,
                            minor_dim,
                        };
                        assert(pattern_valid(v));
                        assert(lane_indices_ok(
                            v.minor_indices,
                            v.major_offsets[lane_idx as int] as int,
                            v.major_offsets[lane_idx as int + 1] as int,
                            v.minor_dim,
                        ));
                        assert(false);
                    }
                }
                return Err(e);
            }
            proof {
                assert forall|i: int, j: int|
                    0 <= i <= j <= lane_idx + 1 implies #[trigger] major_offsets@[i]
                    <= #[trigger] major_offsets@[j] by {
                    if j == lane_idx + 1 && i <= lane_idx as int {
                        assert(major_offsets@[i] <= major_offsets@[lane_idx as int]);
                        assert(major_offsets@[lane_idx as int] <= major_offsets@[lane_idx as int
                            + 1]);
                    }
                }
            }
            lane_idx = lane_idx + 1;
        }

        proof {
            assert(pattern_valid(
                PatternView {
                    major_offsets: major_offsets@,
                    minor_indices: minor_indices@,
                    minor_dim,
                },
            ));
        }
        Ok(Self { major_offsets, minor_indices, minor_dim })
    }

    /// An iterator over the explicitly stored "non-zero" entries `(i, j)` of
    /// the pattern, in lane-major order: the lane index `i` increases
    /// monotonically, and the minor index `j` increases monotonically within
    /// each lane. The pattern itself is untouched by iteration, so a fresh
    /// iterator may be obtained at any time.
    pub fn entries<'a>(&'a self) -> (it: SparsityPatternIter<'a>)
        ensures
            it.wf(),
            it.src() == *self,
            it.pos() == 0,
    {
        SparsityPatternIter::from_pattern(self)
    }
}

/// Iterator type for iterating over the stored entries of a sparsity pattern.
///
/// The traversal drains the current lane one position at a time and, at each
/// lane boundary, skips empty lanes until the next stored entry or the end of
/// the pattern.
#[derive(Debug)]
pub struct SparsityPatternIter<'a> {
    pattern: &'a SparsityPattern,
    current_lane_idx: usize,
    position: usize,
}

impl<'a> Clone for SparsityPatternIter<'a> {
    /// The clone continues from the same cursor over the same pattern.
    fn clone(&self) -> (r: Self)
        ensures
            r == *self,
    {
        SparsityPatternIter {
            pattern: self.pattern,
            current_lane_idx: self.current_lane_idx,
            position: self.position,
        }
    }
}

impl<'a> SparsityPatternIter<'a> {
    /// The pattern being traversed.
    pub closed spec fn src(&self) -> SparsityPattern {
        *self.pattern
    }

    /// The number of entries yielded so far; the cursor into the entry
    /// sequence.
    pub closed spec fn pos(&self) -> int {
        self.position as int
    }

    /// The cursor sits inside the lane it points at: everything before it has
    /// been yielded, everything from it on is still to come.
    pub closed spec fn wf(&self) -> bool {
        let v = self.pattern@;
        &&& pattern_valid(v)
        &&& if v.major_offsets.len() == 1 {
            self.current_lane_idx == 0 && self.position == 0
        } else {
            &&& (self.current_lane_idx as int) < v.major_offsets.len() - 1
            &&& v.major_offsets[self.current_lane_idx as int] <= self.position
            &&& self.position <= v.major_offsets[self.current_lane_idx as int + 1]
        }
    }

    /// Build a fresh iterator positioned at the start of the given pattern's
    /// entry sequence.
    pub fn from_pattern(pattern: &'a SparsityPattern) -> (it: Self)
        ensures
            it.wf(),
            it.src() == *pattern,
            it.pos() == 0,
    {
        proof {
            use_type_invariant(pattern);
        }
        SparsityPatternIter { pattern, current_lane_idx: 0, position: 0 }
    }

    /// Yield the next stored entry, or nothing once the traversal is
    /// exhausted: the `n`-th successful call on a fresh iterator yields the
    /// `n`-th pair of the pattern's entry sequence.
    #[verifier::loop_isolation(false)]
    pub fn next(&mut self) -> (r: Option<(usize, usize)>)
        requires
            old(self).wf(),
        ensures
            final(self).wf(),
            final(self).src() == old(self).src(),
            ({
                let es = entry_seq(old(self).src()@);
                if old(self).pos() < es.len() {
                    &&& r == Some(es[old(self).pos()])
                    &&& final(self).pos() == old(self).pos() + 1
                } else {
                    &&& r is None
                    &&& final(self).pos() == old(self).pos()
                }
            }),
    {
        proof {
            use_type_invariant(self.pattern);
            lemma_entry_seq_len(self.pattern@);
        }
        let offsets_len = self.pattern.major_offsets.len();
        if self.current_lane_idx + 1 < offsets_len && self.position
            < self.pattern.major_offsets[self.current_lane_idx + 1] {
            proof {
                lemma_entry_seq_entry(
                    self.pattern@,
                    self.current_lane_idx as int,
                    self.position as int,
                );
            }
            let minor_idx = self.pattern.minor_indices[self.position];
            let item = (self.current_lane_idx, minor_idx);
            self.position = self.position + 1;
            Some(item)
        } else {
            if offsets_len == 1 {
                return None;
            }
            let mut lane = self.current_lane_idx;
            loop
                invariant
                    *self == *old(self),
                    lane + 2 <= offsets_len,
                    self.position == self.pattern@.major_offsets[lane as int + 1],
                decreases offsets_len - lane,
            {
                if lane + 2 >= offsets_len {
                    return None;
                }
                lane = lane + 1;
                let lower = self.pattern.major_offsets[lane];
                let upper = self.pattern.major_offsets[lane + 1];
                if upper > lower {
                    proof {
                        assert(upper <= self.pattern@.major_offsets[offsets_len - 1]);
                        lemma_entry_seq_entry(self.pattern@, lane as int, self.position as int);
                    }
                    let minor_idx = self.pattern.minor_indices[lower];
                    self.current_lane_idx = lane;
                    self.position = lower + 1;
                    return Some((lane, minor_idx));
                }
            }
        }
    }
}

} // verus!
