//! Grapheme-cluster segmentation.
//!
//! The text partitions into clusters: a hard break stands alone; any other
//! code point joins with the combining marks that follow it. A combining
//! mark with no preceding base degrades to a cluster of its own.

use vstd::prelude::*;

use crate::chars::{combining_mark, is_combining_mark, is_newline, newline};

verus! {

/// One grapheme cluster: `[start, end)` over the text, in code points.
#[derive(Clone, Copy, Debug, PartialEq, Eq, Structural)]
pub struct ClusterRange {
    pub start: usize,
    pub end: usize,
}

/// A cluster span in the segmentation model.
pub struct ClusterSpan {
    pub start: int,
    pub end: int,
}

/// First position at or after `j` that is not a combining mark.
pub open spec fn scan_marks(text: Seq<char>, j: int) -> int
    decreases text.len() - j,
{
    if 0 <= j < text.len() && is_combining_mark(text[j]) {
        scan_marks(text, j + 1)
    } else {
        j
    }
}

/// End of the cluster starting at `i`: a hard break stands alone; any
/// other base absorbs the combining marks after it.
pub open spec fn cluster_end_at(text: Seq<char>, i: int) -> int {
    if is_newline(text[i]) {
        i + 1
    } else {
        scan_marks(text, i + 1)
    }
}

/// `scan_marks` never moves backward and never passes the text end.
pub proof fn lemma_scan_marks_bounds(text: Seq<char>, j: int)
    requires
        0 <= j <= text.len(),
    ensures
        j <= scan_marks(text, j) <= text.len(),
    decreases text.len() - j,
{
    if j < text.len() && is_combining_mark(text[j]) {
        lemma_scan_marks_bounds(text, j + 1);
    }
}

/// A cluster is non-empty and stays within the text.
pub proof fn lemma_cluster_end_bounds(text: Seq<char>, i: int)
    requires
        0 <= i < text.len(),
    ensures
        i < cluster_end_at(text, i) <= text.len(),
{
    if !is_newline(text[i]) {
        lemma_scan_marks_bounds(text, i + 1);
    }
}

#[via_fn]
proof fn clusters_from_dec(text: Seq<char>, i: int) {
    if 0 <= i < text.len() {
        lemma_cluster_end_bounds(text, i);
    }
}

/// The segmentation model: the clusters of `text` from position `i` on.
pub open spec fn clusters_from(text: Seq<char>, i: int) -> Seq<ClusterSpan>
    decreases text.len() - i,
        via clusters_from_dec
{
    if i < 0 || i >= text.len() {
        seq![]
    } else {
        let e = cluster_end_at(text, i);
        seq![ClusterSpan { start: i, end: e }] + clusters_from(text, e)
    }
}

/// A span sequence tiles `[from, to)`: non-empty spans, each beginning
/// where its predecessor ended, the first at `from`, the last ending at
/// `to`.
pub open spec fn spans_contiguous(s: Seq<ClusterSpan>, from: int, to: int) -> bool {
    &&& (s.len() == 0 ==> from == to)
    &&& (s.len() > 0 ==> s[0].start == from && s[s.len() - 1].end == to)
    &&& forall|j: int| 0 <= j < s.len() ==> (#[trigger] s[j]).start < s[j].end
    &&& forall|j: int| 0 < j < s.len() ==> (#[trigger] s[j]).start == s[j - 1].end
}

/// The clusters from `i` tile `[i, text.len())`.
pub proof fn lemma_clusters_partition(text: Seq<char>, i: int)
    requires
        0 <= i <= text.len(),
    ensures
        spans_contiguous(clusters_from(text, i), i, text.len() as int),
    decreases text.len() - i,
{
    if i < text.len() {
        let e = cluster_end_at(text, i);
        lemma_cluster_end_bounds(text, i);
        lemma_clusters_partition(text, e);
        let s = clusters_from(text, i);
        let rest = clusters_from(text, e);
        assert forall|j: int| 0 <= j < s.len() implies (#[trigger] s[j]).start < s[j].end by {
            if j > 0 {
                assert(s[j] == rest[j - 1]);
            }
        }
        assert forall|j: int| 0 < j < s.len() implies (#[trigger] s[j]).start == s[j - 1].end by {
            if j > 1 {
                assert(s[j] == rest[j - 1] && s[j - 1] == rest[j - 2]);
            } else {
                assert(s[j] == rest[0]);
            }
        }
    }
}

/// There are never more clusters than code points.
pub proof fn lemma_clusters_count(text: Seq<char>, i: int)
    requires
        0 <= i <= text.len(),
    ensures
        clusters_from(text, i).len() <= text.len() - i,
    decreases text.len() - i,
{
    if i < text.len() {
        lemma_cluster_end_bounds(text, i);
        lemma_clusters_count(text, cluster_end_at(text, i));
    }
}

/// In a contiguous tiling, every span ends at or before the tiling's end.
pub proof fn lemma_span_end_le(s: Seq<ClusterSpan>, from: int, to: int, j: int)
    requires
        spans_contiguous(s, from, to),
        0 <= j < s.len(),
    ensures
        s[j].end <= to,
    decreases s.len() - j,
{
    if j < s.len() - 1 {
        lemma_span_end_le(s, from, to, j + 1);
        assert(s[j + 1].start == s[j].end);
    }
}

/// In a contiguous tiling, every span starts at or after the tiling's
/// start.
pub proof fn lemma_span_start_ge(s: Seq<ClusterSpan>, from: int, to: int, j: int)
    requires
        spans_contiguous(s, from, to),
        0 <= j < s.len(),
    ensures
        s[j].start >= from,
    decreases j,
{
    if j > 0 {
        lemma_span_start_ge(s, from, to, j - 1);
        assert(s[j].start == s[j - 1].end);
    }
}

/// Executable ranges match the model spans position for position.
pub open spec fn ranges_match(r: Seq<ClusterRange>, m: Seq<ClusterSpan>) -> bool {
    &&& r.len() == m.len()
    &&& forall|j: int|
        0 <= j < r.len() ==> (#[trigger] r[j]).start == m[j].start && r[j].end == m[j].end
}

/// First position at or after `j` that is not a combining mark.
fn scan_marks_exec(text: &Vec<char>, j: usize) -> (r: usize)
    requires
        j <= text@.len(),
    ensures
        r == scan_marks(text@, j as int),
        j <= r <= text@.len(),
{
    let n = text.len();
    let mut k = j;
    while k < n && combining_mark(text[k])
        invariant
            j <= k <= n,
            n == text@.len(),
            scan_marks(text@, j as int) == scan_marks(text@, k as int),
        decreases n - k,
    {
        k = k + 1;
    }
    k
}

/// Partition the text into grapheme clusters, in order.
pub fn segment_clusters(text: &Vec<char>) -> (r: Vec<ClusterRange>)
    ensures
        ranges_match(r@, clusters_from(text@, 0)),
{
    let n = text.len();
    let mut out: Vec<ClusterRange> = Vec::new();
    let mut i: usize = 0;
    while i < n
        invariant
            0 <= i <= n,
            n == text@.len(),
            ranges_match(out@, clusters_from(text@, 0).take(out@.len() as int)),
            clusters_from(text@, 0) == out@.map_values(
                |c: ClusterRange| ClusterSpan { start: c.start as int, end: c.end as int },
            ) + clusters_from(text@, i as int),
            i < n ==> out@.len() < clusters_from(text@, 0).len(),
        decreases n - i,
    {
        let e = if newline(text[i]) {
            i + 1
        } else {
            scan_marks_exec(text, i + 1)
        };
        proof {
            lemma_cluster_end_bounds(text@, i as int);
            assert(e == cluster_end_at(text@, i as int));
        }
        let ghost prior = out@;
        out.push(ClusterRange { start: i, end: e });
        proof {
            let full = clusters_from(text@, 0);
            let lifted = out@.map_values(
                |c: ClusterRange| ClusterSpan { start: c.start as int, end: c.end as int },
            );
            assert(clusters_from(text@, i as int) == seq![
                ClusterSpan { start: i as int, end: e as int },
            ] + clusters_from(text@, e as int));
            assert(lifted =~= prior.map_values(
                |c: ClusterRange| ClusterSpan { start: c.start as int, end: c.end as int },
            ) + seq![ClusterSpan { start: i as int, end: e as int }]);
            assert(full =~= lifted + clusters_from(text@, e as int));
            assert(ranges_match(out@, full.take(out@.len() as int))) by {
                assert forall|j: int| 0 <= j < out@.len() implies (#[trigger] out@[j]).start
                    == full.take(out@.len() as int)[j].start && out@[j].end == full.take(
                    out@.len() as int,
                )[j].end by {
                    assert(full[j] == lifted[j]);
                }
            }
        }
        i = e;
    }
    proof {
        assert(clusters_from(text@, n as int) =~= Seq::<ClusterSpan>::empty());
        assert(clusters_from(text@, 0).take(out@.len() as int) =~= clusters_from(text@, 0));
    }
    out
}

} // verus!
