//! Per-cluster measurement.
//!
//! Each grapheme cluster resolves its run's style, resolves the family
//! list to a typeface via fallback, and takes an advance: the base code
//! point's glyph advance scaled to the font size, plus the run's letter
//! spacing added once per cluster (never once per code point), floored at
//! zero. A cluster no resolved typeface covers degrades to a missing-glyph
//! box of half an em; a hard break advances by nothing. Vertical metrics
//! come from the covering typeface at the run's size, so fallback
//! substitution can mix metrics within one run.

use vstd::prelude::*;

use crate::collection::{
    entry_wf, face_of, glyph_model, lemma_resolve_model_wf, resolve_model, FontCollection,
    GlyphOutcome,
};
use crate::chars::{is_ideographic, is_newline, is_space, ideographic, newline, space};
use crate::paragraph::{runs_partition, Paragraph, StyleRun};
use crate::segment::{clusters_from, segment_clusters, ClusterSpan};
use crate::style::TextStyle;
use crate::units::{scaled, MAX_ADVANCE, MAX_RISE};

verus! {

/// A measured cluster in the layout model.
pub struct MeasuredSpan {
    /// Text offsets of the cluster, in code points.
    pub start: int,
    pub end: int,
    /// Index of the owning style run.
    pub run: int,
    /// Horizontal advance in layout units; never negative.
    pub advance: int,
    /// Vertical metrics of the covering typeface at the run's size.
    pub ascent: int,
    pub descent: int,
    /// No resolved typeface covers the base code point.
    pub missing: bool,
    /// The base is breakable whitespace.
    pub space: bool,
    /// The cluster is a hard break.
    pub newline: bool,
    /// The base belongs to a break-anywhere script.
    pub ideo: bool,
    /// The glyph lookup outcome for the base code point.
    pub outcome: GlyphOutcome,
}

/// A measured cluster, executable form.
pub struct MeasuredCluster {
    pub start: usize,
    pub end: usize,
    pub run: usize,
    pub advance: i64,
    pub ascent: i64,
    pub descent: i64,
    pub missing: bool,
    pub space: bool,
    pub newline: bool,
    pub ideo: bool,
    pub outcome: GlyphOutcome,
}

impl MeasuredCluster {
    /// The model value this measured cluster stands for.
    pub open spec fn model(&self) -> MeasuredSpan {
        MeasuredSpan {
            start: self.start as int,
            end: self.end as int,
            run: self.run as int,
            advance: self.advance as int,
            ascent: self.ascent as int,
            descent: self.descent as int,
            missing: self.missing,
            space: self.space,
            newline: self.newline,
            ideo: self.ideo,
            outcome: self.outcome,
        }
    }
}

/// Lift a measured vector to its model sequence.
pub open spec fn models_of(s: Seq<MeasuredCluster>) -> Seq<MeasuredSpan> {
    s.map_values(|c: MeasuredCluster| c.model())
}

/// Index of the run containing `pos`, scanning from `k`; -1 when none.
pub open spec fn run_from(runs: Seq<StyleRun>, pos: int, k: int) -> int
    decreases runs.len() - k,
{
    if k < 0 || k >= runs.len() {
        -1
    } else if runs[k].start <= pos < runs[k].end {
        k
    } else {
        run_from(runs, pos, k + 1)
    }
}

/// Under a run partition, every position inside the text has a run.
pub proof fn lemma_run_from_found(runs: Seq<StyleRun>, len: int, pos: int, k: int)
    requires
        runs_partition(runs, len),
        0 <= pos < len,
        0 <= k < runs.len(),
        runs[k].start <= pos,
    ensures
        ({
            let r = run_from(runs, pos, k);
            &&& k <= r < runs.len()
            &&& runs[r].start <= pos < runs[r].end
        }),
    decreases runs.len() - k,
{
    if !(pos < runs[k].end) {
        assert(k + 1 < runs.len());
        lemma_run_from_found(runs, len, pos, k + 1);
    }
}

/// Floor at zero: letter spacing may be negative, but a cluster never
/// advances backward.
pub open spec fn clamp_nonneg(x: int) -> int {
    if x < 0 {
        0
    } else {
        x
    }
}

/// Advance of a missing-glyph box before letter spacing: half an em.
pub open spec fn missing_box_advance(size: int) -> int {
    size / 2
}

/// Metrics a style supplies on its own: those of the first typeface its
/// family list resolves to, or a bare em box when nothing resolves.
pub open spec fn style_metrics(coll: FontCollection, st: TextStyle) -> (int, int) {
    let resolved = resolve_model(coll, st.families@);
    if resolved.len() > 0 {
        let f = face_of(coll, resolved[0]);
        (
            scaled(f.tables.ascent_em as int, st.font_size as int, f.tables.units_per_em as int),
            scaled(f.tables.descent_em as int, st.font_size as int, f.tables.units_per_em as int),
        )
    } else {
        (st.font_size as int, 0)
    }
}

/// The measurement model for one cluster.
#[verifier::opaque]
pub open spec fn measure_cluster(p: Paragraph, coll: FontCollection, cl: ClusterSpan)
    -> MeasuredSpan {
    let run = run_from(p.runs@, cl.start, 0);
    let st = p.spec_run_style(run);
    let base = p.text@[cl.start];
    if is_newline(base) {
        let m = style_metrics(coll, st);
        MeasuredSpan {
            start: cl.start,
            end: cl.end,
            run,
            advance: 0,
            ascent: m.0,
            descent: m.1,
            missing: false,
            space: false,
            newline: true,
            ideo: false,
            outcome: GlyphOutcome::NotFound,
        }
    } else {
        let resolved = resolve_model(coll, st.families@);
        let out = glyph_model(coll, resolved, base);
        match out {
            GlyphOutcome::Found { face, glyph } => {
                let f = face_of(coll, face);
                MeasuredSpan {
                    start: cl.start,
                    end: cl.end,
                    run,
                    advance: clamp_nonneg(
                        scaled(
                            f.spec_advance_em(base),
                            st.font_size as int,
                            f.tables.units_per_em as int,
                        ) + st.letter_spacing,
                    ),
                    ascent: scaled(
                        f.tables.ascent_em as int,
                        st.font_size as int,
                        f.tables.units_per_em as int,
                    ),
                    descent: scaled(
                        f.tables.descent_em as int,
                        st.font_size as int,
                        f.tables.units_per_em as int,
                    ),
                    missing: false,
                    space: is_space(base),
                    newline: false,
                    ideo: is_ideographic(base),
                    outcome: out,
                }
            },
            GlyphOutcome::NotFound => {
                let m = style_metrics(coll, st);
                MeasuredSpan {
                    start: cl.start,
                    end: cl.end,
                    run,
                    advance: clamp_nonneg(
                        missing_box_advance(st.font_size as int) + st.letter_spacing,
                    ),
                    ascent: m.0,
                    descent: m.1,
                    missing: true,
                    space: is_space(base),
                    newline: false,
                    ideo: is_ideographic(base),
                    outcome: out,
                }
            },
        }
    }
}

/// The measurement model for the whole paragraph: the clusters in text
/// order, measured.
pub open spec fn measure_all(p: Paragraph, coll: FontCollection) -> Seq<MeasuredSpan> {
    clusters_from(p.text@, 0).map_values(|cl: ClusterSpan| measure_cluster(p, coll, cl))
}

/// Bounds every measured span respects under well-formed inputs.
pub open spec fn mspan_wf(m: MeasuredSpan) -> bool {
    &&& 0 <= m.advance <= MAX_ADVANCE
    &&& 0 <= m.ascent <= MAX_RISE
    &&& 0 <= m.descent <= MAX_RISE
    &&& 0 <= m.start < m.end
    &&& 0 <= m.run
    &&& (m.newline ==> m.advance == 0 && !m.space)
}

/// A measured sequence the line breaker accepts: every span within
/// bounds, spans contiguous from zero.
pub open spec fn mseq_wf(s: Seq<MeasuredSpan>) -> bool {
    &&& forall|j: int| 0 <= j < s.len() ==> mspan_wf(#[trigger] s[j])
    &&& (s.len() > 0 ==> s[0].start == 0)
    &&& forall|j: int| 0 < j < s.len() ==> (#[trigger] s[j]).start == s[j - 1].end
}

/// Resolve one style's metrics at runtime.
pub(crate) fn style_metrics_exec(coll: &FontCollection, st: &TextStyle) -> (r: (i64, i64))
    requires
        coll.wf(),
        st.wf(),
    ensures
        (r.0 as int, r.1 as int) == style_metrics(*coll, *st),
        0 <= r.0 <= MAX_RISE,
        0 <= r.1 <= MAX_RISE,
{
    let resolved = coll.resolve_family(&st.families);
    if resolved.len() > 0 {
        let f = coll.face_ref(resolved[0]);
        (f.ascent(st.font_size), f.descent(st.font_size))
    } else {
        (st.font_size, 0)
    }
}

/// Index of the run containing `pos`.
fn find_run(runs: &Vec<StyleRun>, pos: usize, Ghost(len): Ghost<int>) -> (r: usize)
    requires
        runs_partition(runs@, len),
        0 <= pos < len,
    ensures
        r == run_from(runs@, pos as int, 0),
        r < runs@.len(),
        runs@[r as int].start <= pos < runs@[r as int].end,
{
    proof {
        lemma_run_from_found(runs@, len, pos as int, 0);
    }
    let n = runs.len();
    let mut k: usize = 0;
    loop
        invariant
            0 <= k < n,
            n == runs@.len(),
            runs_partition(runs@, len),
            pos < len,
            runs@[k as int].start <= pos,
            run_from(runs@, pos as int, 0) == run_from(runs@, pos as int, k as int),
            k <= run_from(runs@, pos as int, 0) < n,
        decreases n - k,
    {
        if runs[k].end > pos {
            return k;
        }
        proof {
            lemma_run_from_found(runs@, len, pos as int, k as int);
        }
        k = k + 1;
    }
}

/// Measure one cluster `[start, end)`.
#[verifier::rlimit(60)]
fn measure_one(p: &Paragraph, coll: &FontCollection, start: usize, end: usize) -> (mc:
    MeasuredCluster)
    requires
        p.wf(),
        coll.wf(),
        start < end,
        start < p.text@.len(),
    ensures
        mc.model() == measure_cluster(*p, *coll, ClusterSpan { start: start as int, end: end as int }),
        mspan_wf(mc.model()),
        mc.start == start && mc.end == end,
{
    proof {
        reveal(measure_cluster);
    }
    let run = find_run(&p.runs, start, Ghost(p.text@.len() as int));
    let st = p.run_style(run);
    let base = p.text[start];
    if newline(base) {
        let m = style_metrics_exec(coll, st);
        MeasuredCluster {
            start,
            end,
            run,
            advance: 0,
            ascent: m.0,
            descent: m.1,
            missing: false,
            space: false,
            newline: true,
            ideo: false,
            outcome: GlyphOutcome::NotFound,
        }
    } else {
        let resolved = coll.resolve_family(&st.families);
        let out_g = coll.glyph_for(&resolved, base);
        match out_g {
            GlyphOutcome::Found { face, glyph: _ } => {
                let f = coll.face_ref(face);
                let adv = match f.advance(base, st.font_size) {
                    Some(a) => a,
                    None => unreached(),
                };
                let sum = adv + st.letter_spacing;
                let advance = if sum < 0 {
                    0
                } else {
                    sum
                };
                MeasuredCluster {
                    start,
                    end,
                    run,
                    advance,
                    ascent: f.ascent(st.font_size),
                    descent: f.descent(st.font_size),
                    missing: false,
                    space: space(base),
                    newline: false,
                    ideo: ideographic(base),
                    outcome: out_g,
                }
            },
            GlyphOutcome::NotFound => {
                let m = style_metrics_exec(coll, st);
                let sum = st.font_size / 2 + st.letter_spacing;
                let advance = if sum < 0 {
                    0
                } else {
                    sum
                };
                MeasuredCluster {
                    start,
                    end,
                    run,
                    advance,
                    ascent: m.0,
                    descent: m.1,
                    missing: true,
                    space: space(base),
                    newline: false,
                    ideo: ideographic(base),
                    outcome: out_g,
                }
            },
        }
    }
}

/// Measure every cluster of the paragraph.
#[verifier::rlimit(100)]
#[verifier::loop_isolation(false)]
pub fn measure_paragraph(p: &Paragraph, coll: &FontCollection) -> (r: Vec<MeasuredCluster>)
    requires
        p.wf(),
        coll.wf(),
    ensures
        models_of(r@) == measure_all(*p, *coll),
        forall|j: int| 0 <= j < r@.len() ==> mspan_wf(#[trigger] r@[j].model()),
        mseq_wf(models_of(r@)),
        r@.len() <= p.text@.len(),
{
    let clusters = segment_clusters(&p.text);
    let ghost spans = clusters_from(p.text@, 0);
    proof {
        crate::segment::lemma_clusters_partition(p.text@, 0);
        crate::segment::lemma_clusters_count(p.text@, 0);
    }
    let n = clusters.len();
    let mut out: Vec<MeasuredCluster> = Vec::new();
    let mut j: usize = 0;
    while j < n
        invariant
            0 <= j <= n,
            out@.len() == j,
            forall|t: int|
                0 <= t < j ==> (#[trigger] out@[t]).model() == measure_cluster(*p, *coll, spans[t]),
            forall|t: int| 0 <= t < j ==> mspan_wf(#[trigger] out@[t].model()),
            forall|t: int|
                0 <= t < j ==> (#[trigger] out@[t]).start == spans[t].start && out@[t].end
                    == spans[t].end,
        decreases n - j,
    {
        let cl = clusters[j];
        proof {
            crate::segment::lemma_span_end_le(spans, 0, p.text@.len() as int, j as int);
            assert(spans[j as int].start < spans[j as int].end <= p.text@.len());
            assert(cl.start < p.text@.len());
        }
        let mc = measure_one(p, coll, cl.start, cl.end);
        out.push(mc);
        j = j + 1;
    }
    proof {
        assert(models_of(out@) =~= measure_all(*p, *coll));
        let ms = models_of(out@);
        assert forall|t: int| 0 < t < ms.len() implies (#[trigger] ms[t]).start == ms[t - 1].end by {
            assert(ms[t] == out@[t].model() && ms[t - 1] == out@[t - 1].model());
            assert(out@[t].start == spans[t].start && out@[t - 1].end == spans[t - 1].end);
            assert(spans[t].start == spans[t - 1].end);
        }
        if ms.len() > 0 {
            assert(ms[0] == out@[0].model());
            assert(out@[0].start == spans[0].start);
        }
    }
    out
}


/// Style metrics stay within the rise bounds.
pub proof fn lemma_style_metrics_bounds(coll: FontCollection, st: TextStyle)
    requires
        coll.wf(),
        st.wf(),
    ensures
        0 <= style_metrics(coll, st).0 <= MAX_RISE,
        0 <= style_metrics(coll, st).1 <= MAX_RISE,
{
    lemma_resolve_model_wf(coll, st.families@);
    let resolved = resolve_model(coll, st.families@);
    if resolved.len() > 0 {
        assert(entry_wf(coll, resolved[0]));
        let f = face_of(coll, resolved[0]);
        assert(f.wf());
        crate::units::lemma_scaled_bounds(
            f.tables.ascent_em as int,
            st.font_size as int,
            f.tables.units_per_em as int,
        );
        crate::units::lemma_scaled_bounds(
            f.tables.descent_em as int,
            st.font_size as int,
            f.tables.units_per_em as int,
        );
    }
}

/// The measurement model respects the measured-span bounds for every
/// cluster of a well-formed paragraph and collection.
pub proof fn lemma_measure_cluster_wf(p: Paragraph, coll: FontCollection, cl: ClusterSpan)
    requires
        p.wf(),
        coll.wf(),
        0 <= cl.start < cl.end,
        cl.start < p.text@.len(),
    ensures
        mspan_wf(measure_cluster(p, coll, cl)),
        measure_cluster(p, coll, cl).start == cl.start,
        measure_cluster(p, coll, cl).end == cl.end,
        measure_cluster(p, coll, cl).newline == is_newline(p.text@[cl.start]),
        measure_cluster(p, coll, cl).space == (!is_newline(p.text@[cl.start]) && is_space(
            p.text@[cl.start],
        )),
    decreases 0int,
{
    reveal(measure_cluster);
    lemma_run_from_found(p.runs@, p.text@.len() as int, cl.start, 0);
    let run = run_from(p.runs@, cl.start, 0);
    let st = p.spec_run_style(run);
    assert(st.wf());
    let base = p.text@[cl.start];
    if is_newline(base) {
        lemma_style_metrics_bounds(coll, st);
    } else {
        lemma_resolve_model_wf(coll, st.families@);
        let resolved = resolve_model(coll, st.families@);
        let out = glyph_model(coll, resolved, base);
        match out {
            GlyphOutcome::Found { face, glyph: _ } => {
                crate::collection::lemma_first_covering_valid(coll, resolved, base, 0);
                let j = crate::collection::first_covering(coll, resolved, base, 0);
                assert(face == resolved[j]);
                assert(entry_wf(coll, face));
                let f = face_of(coll, face);
                assert(f.wf());
                assert(f.spec_covers(base));
                crate::font::lemma_find_range_valid(f.tables.coverage@, base as int, 0);
                let ri = crate::font::find_range(f.tables.coverage@, base as int, 0);
                assert(crate::font::range_wf(f.tables.coverage@[ri], f.tables.units_per_em as int));
                crate::units::lemma_scaled_bounds(
                    f.spec_advance_em(base),
                    st.font_size as int,
                    f.tables.units_per_em as int,
                );
                crate::units::lemma_scaled_bounds(
                    f.tables.ascent_em as int,
                    st.font_size as int,
                    f.tables.units_per_em as int,
                );
                crate::units::lemma_scaled_bounds(
                    f.tables.descent_em as int,
                    st.font_size as int,
                    f.tables.units_per_em as int,
                );
            },
            GlyphOutcome::NotFound => {
                lemma_style_metrics_bounds(coll, st);
            },
        }
    }
}

/// The measurement model of a whole well-formed paragraph is a
/// well-formed measured sequence tiling the text.
pub proof fn lemma_measure_all_wf(p: Paragraph, coll: FontCollection)
    requires
        p.wf(),
        coll.wf(),
    ensures
        mseq_wf(measure_all(p, coll)),
        measure_all(p, coll).len() <= p.text@.len(),
        measure_all(p, coll).len() > 0 <==> p.text@.len() > 0,
        measure_all(p, coll).len() > 0 ==> measure_all(p, coll).first().start == 0 && measure_all(
            p,
            coll,
        ).last().end == p.text@.len(),
{
    let spans = clusters_from(p.text@, 0);
    let ms = measure_all(p, coll);
    crate::segment::lemma_clusters_partition(p.text@, 0);
    crate::segment::lemma_clusters_count(p.text@, 0);
    assert(ms.len() == spans.len());
    assert forall|t: int| 0 <= t < ms.len() implies mspan_wf(#[trigger] ms[t]) by {
        crate::segment::lemma_span_end_le(spans, 0, p.text@.len() as int, t);
        crate::segment::lemma_span_start_ge(spans, 0, p.text@.len() as int, t);
        lemma_measure_cluster_wf(p, coll, spans[t]);
        assert(ms[t] == measure_cluster(p, coll, spans[t]));
    }
    assert forall|t: int| 0 < t < ms.len() implies (#[trigger] ms[t]).start == ms[t - 1].end by {
        crate::segment::lemma_span_end_le(spans, 0, p.text@.len() as int, t);
        crate::segment::lemma_span_start_ge(spans, 0, p.text@.len() as int, t - 1);
        lemma_measure_cluster_wf(p, coll, spans[t]);
        lemma_measure_cluster_wf(p, coll, spans[t - 1]);
    }
    if ms.len() > 0 {
        let last = ms.len() - 1;
        crate::segment::lemma_span_end_le(spans, 0, p.text@.len() as int, last);
        crate::segment::lemma_span_start_ge(spans, 0, p.text@.len() as int, last);
        lemma_measure_cluster_wf(p, coll, spans[0]);
        lemma_measure_cluster_wf(p, coll, spans[last]);
    }
}

} // verus!
