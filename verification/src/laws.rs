//! Engine-wide laws, stated and proved over the layout model.
//!
//! Each law here is a statement about every input the engine accepts, not
//! about chosen examples; the scenario-level counterparts live in the test
//! suite.

use vstd::prelude::*;

use crate::collection::{
    face_of, first_covering, glyph_model, resolve_model, FontCollection, GlyphOutcome,
    ResolvedFace,
};
use crate::layout::{
    line_models, lines_model, max_ascent, max_descent, mk_line, scan_line, sum_adv, ink_end,
    LaidOut, LineEnd, LineSpan,
};
use crate::measure::{measure_cluster, mspan_wf, run_from, style_metrics, MeasuredSpan};
use crate::paragraph::Paragraph;
use crate::segment::ClusterSpan;
use crate::style::{Align, Direction};

verus! {

/// Law: layout is deterministic. Any two laid-out results that satisfy
/// layout's contract for the same paragraph, collection and width carry
/// identical lines, line for line and cluster for cluster.
pub proof fn lemma_layout_deterministic(
    p: Paragraph,
    coll: FontCollection,
    width: int,
    r1: LaidOut,
    r2: LaidOut,
)
    requires
        line_models(r1.lines@) == lines_model(p, coll, width),
        line_models(r2.lines@) == lines_model(p, coll, width),
    ensures
        r1.lines@.len() == r2.lines@.len(),
        forall|i: int|
            0 <= i < r1.lines@.len() ==> (#[trigger] r1.lines@[i]).model() == r2.lines@[i].model(),
{
    assert(line_models(r1.lines@).len() == r1.lines@.len());
    assert(line_models(r2.lines@).len() == r2.lines@.len());
    assert forall|i: int|
        0 <= i < r1.lines@.len() implies (#[trigger] r1.lines@[i]).model()
        == r2.lines@[i].model() by {
        assert(0 <= i < r2.lines@.len());
        assert(line_models(r1.lines@)[i] == r1.lines@[i].model());
        assert(line_models(r2.lines@)[i] == r2.lines@[i].model());
    }
}

/// Law: range queries are deterministic. Equal line models give equal
/// boxes for every range and style, because the query model is a function
/// of the line models alone.
pub proof fn lemma_rects_deterministic(
    r1: LaidOut,
    r2: LaidOut,
    s: int,
    e: int,
    hs: crate::geometry::RectHeightStyle,
    ws: crate::geometry::RectWidthStyle,
)
    requires
        line_models(r1.lines@) == line_models(r2.lines@),
    ensures
        crate::geometry::rects_model(line_models(r1.lines@), s, e, hs, ws)
            == crate::geometry::rects_model(line_models(r2.lines@), s, e, hs, ws),
{
}

/// The advances of a window split at any point.
pub proof fn lemma_sum_adv_split(ms: Seq<MeasuredSpan>, from: int, mid: int, to: int)
    requires
        from <= mid <= to,
    ensures
        sum_adv(ms, from, to) == sum_adv(ms, from, mid) + sum_adv(ms, mid, to),
    decreases to - mid,
{
    if mid < to {
        lemma_sum_adv_split(ms, from, mid, to - 1);
    }
}

/// Everything at or past the ink end is whitespace or a hard break, and
/// the cluster right before it, if any, is neither.
pub proof fn lemma_ink_end_trailing(ms: Seq<MeasuredSpan>, from: int, to: int)
    requires
        from <= to,
    ensures
        forall|t: int|
            ink_end(ms, from, to) <= t < to ==> (#[trigger] ms[t]).space || ms[t].newline,
        ink_end(ms, from, to) > from ==> !(ms[ink_end(ms, from, to) - 1].space || ms[ink_end(
            ms,
            from,
            to,
        ) - 1].newline),
    decreases to - from,
{
    if to > from && (ms[to - 1].space || ms[to - 1].newline) {
        lemma_ink_end_trailing(ms, from, to - 1);
    }
}

/// Law: a line's offset range keeps its trailing whitespace, while its
/// ink width drops exactly those clusters' advances. For every assembled
/// line: the full width splits into the ink width plus the advances of
/// the trailing whitespace, every cluster past the ink end is whitespace
/// or the hard break, and the line's end offset is the end of its last
/// cluster — spaces and the break included.
pub proof fn lemma_trailing_whitespace(
    ms: Seq<MeasuredSpan>,
    sp: LineSpan,
    width: int,
    top: int,
    dm: (int, int),
    height_disabled: bool,
    a: Align,
    d: Direction,
    text_len: int,
)
    requires
        0 <= sp.start <= sp.end <= ms.len(),
    ensures
        ({
            let l = mk_line(ms, sp, width, top, dm, height_disabled, a, d, text_len);
            let ink = ink_end(ms, sp.start, sp.end);
            &&& l.width_full == l.width_ink + sum_adv(ms, ink, sp.end)
            &&& l.ink_count == ink - sp.start
            &&& forall|t: int| ink <= t < sp.end ==> (#[trigger] ms[t]).space || ms[t].newline
            &&& (sp.end > sp.start ==> l.end == ms[sp.end - 1].end)
        }),
{
    reveal(mk_line);
    let ink = ink_end(ms, sp.start, sp.end);
    crate::layout::lemma_ink_end_bounds(ms, sp.start, sp.end);
    lemma_ink_end_trailing(ms, sp.start, sp.end);
    lemma_sum_adv_split(ms, sp.start, ink, sp.end);
}

/// Law: with fallback disabled, a code point no registered typeface
/// covers resolves to `NotFound`, and the cluster is measured as missing
/// rather than failing: layout's own contract returns `Ok` for every
/// valid width regardless of coverage.
pub proof fn lemma_strict_mode_exhausted(
    c: FontCollection,
    names: Seq<Vec<char>>,
    cp: char,
)
    requires
        c.fallback_disabled || c.fallback is None,
        forall|i: int|
            0 <= i < c.store.faces@.len() ==> !(#[trigger] c.store.faces@[i]).face.spec_covers(cp),
    ensures
        glyph_model(c, resolve_model(c, names), cp) == GlyphOutcome::NotFound,
{
    let resolved = resolve_model(c, names);
    crate::collection::lemma_resolve_model_no_fallback(c, names);
    lemma_entries_uncovered(c, resolved, cp, 0);
}

/// No entry of a registration-only resolved list whose typefaces all
/// miss `cp` can cover it.
proof fn lemma_entries_uncovered(
    c: FontCollection,
    resolved: Seq<ResolvedFace>,
    cp: char,
    j: int,
)
    requires
        forall|i: int|
            0 <= i < c.store.faces@.len() ==> !(#[trigger] c.store.faces@[i]).face.spec_covers(cp),
        forall|t: int|
            0 <= t < resolved.len() ==> (#[trigger] resolved[t]) is Asset && resolved[t]->Asset_0
                < c.store.faces@.len(),
        0 <= j,
    ensures
        first_covering(c, resolved, cp, j) == -1,
    decreases resolved.len() - j,
{
    if j < resolved.len() {
        let i = resolved[j]->Asset_0;
        assert(!c.store.faces@[i as int].face.spec_covers(cp));
        assert(face_of(c, resolved[j]) == c.store.faces@[i as int].face);
        lemma_entries_uncovered(c, resolved, cp, j + 1);
    }
}

/// Law: letter spacing lands once per grapheme cluster, not once per code
/// point. A cluster's measured advance is a function of its base code
/// point and its run alone: two clusters of the same run with the same
/// base — an accented cluster of base plus combining marks among them —
/// take the same advance, whatever their length in code points.
pub proof fn lemma_letter_spacing_once(
    p: Paragraph,
    coll: FontCollection,
    cl1: ClusterSpan,
    cl2: ClusterSpan,
)
    requires
        0 <= cl1.start < p.text@.len(),
        0 <= cl2.start < p.text@.len(),
        p.text@[cl1.start] == p.text@[cl2.start],
        run_from(p.runs@, cl1.start, 0) == run_from(p.runs@, cl2.start, 0),
    ensures
        measure_cluster(p, coll, cl1).advance == measure_cluster(p, coll, cl2).advance,
{
    reveal(crate::measure::measure_cluster);
}

/// Law: a covered cluster's advance is its base glyph's scaled advance
/// plus the run's letter spacing, added exactly once and floored at zero;
/// the cluster's length in code points does not appear.
pub proof fn lemma_advance_formula(p: Paragraph, coll: FontCollection, cl: ClusterSpan)
    requires
        0 <= cl.start < p.text@.len(),
        !crate::chars::is_newline(p.text@[cl.start]),
    ensures
        ({
            let st = p.spec_run_style(run_from(p.runs@, cl.start, 0));
            let base = p.text@[cl.start];
            let resolved = resolve_model(coll, st.families@);
            let m = measure_cluster(p, coll, cl);
            match glyph_model(coll, resolved, base) {
                GlyphOutcome::Found { face, .. } => m.advance == crate::measure::clamp_nonneg(
                    crate::units::scaled(
                        face_of(coll, face).spec_advance_em(base),
                        st.font_size as int,
                        face_of(coll, face).tables.units_per_em as int,
                    ) + st.letter_spacing,
                ),
                GlyphOutcome::NotFound => m.advance == crate::measure::clamp_nonneg(
                    crate::measure::missing_box_advance(st.font_size as int) + st.letter_spacing,
                ),
            }
        }),
{
    reveal(crate::measure::measure_cluster);
}

/// Every cluster ascent in the window stays at or under the maximum, and
/// a non-empty window attains it.
pub proof fn lemma_max_ascent_attained(ms: Seq<MeasuredSpan>, from: int, to: int)
    requires
        0 <= from <= to <= ms.len(),
        forall|j: int| 0 <= j < ms.len() ==> mspan_wf(#[trigger] ms[j]),
    ensures
        forall|t: int| from <= t < to ==> (#[trigger] ms[t]).ascent <= max_ascent(ms, from, to),
        from < to ==> exists|t: int|
            from <= t < to && (#[trigger] ms[t]).ascent == max_ascent(ms, from, to),
    decreases to - from,
{
    if from < to {
        lemma_max_ascent_attained(ms, from, to - 1);
        if from < to - 1 && ms[to - 1].ascent <= max_ascent(ms, from, to - 1) {
            let w = choose|t: int|
                from <= t < to - 1 && (#[trigger] ms[t]).ascent == max_ascent(ms, from, to - 1);
            assert(ms[w].ascent == max_ascent(ms, from, to));
        } else {
            assert(ms[to - 1].ascent == max_ascent(ms, from, to));
        }
    }
}

/// As `lemma_max_ascent_attained`, for descents.
pub proof fn lemma_max_descent_attained(ms: Seq<MeasuredSpan>, from: int, to: int)
    requires
        0 <= from <= to <= ms.len(),
        forall|j: int| 0 <= j < ms.len() ==> mspan_wf(#[trigger] ms[j]),
    ensures
        forall|t: int| from <= t < to ==> (#[trigger] ms[t]).descent <= max_descent(ms, from, to),
        from < to ==> exists|t: int|
            from <= t < to && (#[trigger] ms[t]).descent == max_descent(ms, from, to),
    decreases to - from,
{
    if from < to {
        lemma_max_descent_attained(ms, from, to - 1);
        if from < to - 1 && ms[to - 1].descent <= max_descent(ms, from, to - 1) {
            let w = choose|t: int|
                from <= t < to - 1 && (#[trigger] ms[t]).descent == max_descent(ms, from, to - 1);
            assert(ms[w].descent == max_descent(ms, from, to));
        } else {
            assert(ms[to - 1].descent == max_descent(ms, from, to));
        }
    }
}

/// Law: a non-empty line's height comes from the maxima of its clusters'
/// metrics — mixed sizes and fallback substitutions on one line never
/// clip, since every cluster's ascent and descent fit under the line's —
/// unless height adjustment is disabled, in which case every line takes
/// the paragraph default style's metrics, whatever its clusters measure.
pub proof fn lemma_line_height(
    ms: Seq<MeasuredSpan>,
    sp: LineSpan,
    width: int,
    top: int,
    dm: (int, int),
    height_disabled: bool,
    a: Align,
    d: Direction,
    text_len: int,
)
    requires
        0 <= sp.start <= sp.end <= ms.len(),
        forall|j: int| 0 <= j < ms.len() ==> mspan_wf(#[trigger] ms[j]),
    ensures
        ({
            let l = mk_line(ms, sp, width, top, dm, height_disabled, a, d, text_len);
            &&& (height_disabled ==> l.ascent == dm.0 && l.descent == dm.1)
            &&& (!height_disabled && sp.end > sp.start ==> {
                &&& l.ascent == max_ascent(ms, sp.start, sp.end)
                &&& l.descent == max_descent(ms, sp.start, sp.end)
                &&& forall|t: int|
                    sp.start <= t < sp.end ==> (#[trigger] ms[t]).ascent <= l.ascent && ms[t].descent
                        <= l.descent
            })
            &&& (!height_disabled && sp.end <= sp.start ==> l.ascent == dm.0 && l.descent == dm.1)
        }),
{
    reveal(mk_line);
    if !height_disabled && sp.end > sp.start {
        lemma_max_ascent_attained(ms, sp.start, sp.end);
        lemma_max_descent_attained(ms, sp.start, sp.end);
    }
}

/// Law: an unbreakable cluster wider than the layout width is placed
/// alone on its own line — the scan ends right after it instead of
/// looping or dropping it. The scan's progress bound rules an endless
/// line out for every input.
pub proof fn lemma_oversized_cluster_alone(ms: Seq<MeasuredSpan>, width: int, base: int)
    requires
        0 <= base < ms.len(),
        !ms[base].space,
        !ms[base].newline,
        ms[base].advance > width,
    ensures
        scan_line(ms, width, base, base, 0, -1) == (base + 1, LineEnd::Soft),
{
}


/// What the range-query fold relies on of an assembled line: ink within
/// the clusters, positions running as prefix sums of non-negative
/// advances, the ink width closing the last ink cluster, and every ink
/// cluster intersecting the query range `[s, e)`.
pub open spec fn line_fold_ready(l: crate::layout::LineModel, s: int, e: int) -> bool {
    &&& 0 <= l.ink_count <= l.clusters.len()
    &&& (l.clusters.len() > 0 ==> l.clusters[0].x == 0)
    &&& forall|u: int|
        0 < u < l.clusters.len() ==> (#[trigger] l.clusters[u]).x == l.clusters[u - 1].x
            + l.clusters[u - 1].advance
    &&& forall|u: int|
        0 <= u < l.clusters.len() ==> (#[trigger] l.clusters[u]).advance >= 0 && l.clusters[u].x
            >= 0
    &&& l.width_ink == (if l.ink_count > 0 {
        l.clusters[l.ink_count - 1].x + l.clusters[l.ink_count - 1].advance
    } else {
        0
    })
    &&& forall|u: int|
        0 <= u < l.ink_count ==> (#[trigger] l.clusters[u]).start < e && s < l.clusters[u].end
}

/// Appending a box extends the extent by that box.
proof fn lemma_extent_push(bs: Seq<crate::geometry::BoxModel>, b: crate::geometry::BoxModel)
    ensures
        crate::geometry::boxes_extent(bs.push(b)) == crate::geometry::extent_union(
            crate::geometry::boxes_extent(bs),
            Some((b.left, b.right)),
        ),
{
    assert(bs.push(b).drop_last() =~= bs);
    assert(bs.push(b).last() == b);
}

/// The extent of a concatenation is the union of the extents.
proof fn lemma_extent_concat(xs: Seq<crate::geometry::BoxModel>, ys: Seq<crate::geometry::BoxModel>)
    ensures
        crate::geometry::boxes_extent(xs + ys) == crate::geometry::extent_union(
            crate::geometry::boxes_extent(xs),
            crate::geometry::boxes_extent(ys),
        ),
    decreases ys.len(),
{
    if ys.len() == 0 {
        assert(xs + ys =~= xs);
    } else {
        lemma_extent_concat(xs, ys.drop_last());
        assert((xs + ys).drop_last() =~= xs + ys.drop_last());
        assert((xs + ys).last() == ys.last());
    }
}

/// The fold over a line's ink clusters keeps the extent anchored at the
/// line origin and closes it at the running right edge.
proof fn lemma_fold_extrema(
    l: crate::layout::LineModel,
    s: int,
    e: int,
    hs: crate::geometry::RectHeightStyle,
    t: int,
    acc: Seq<crate::geometry::BoxModel>,
)
    requires
        line_fold_ready(l, s, e),
        0 < t <= l.ink_count,
        acc.len() > 0,
        crate::geometry::boxes_extent(acc) == Some(
            (l.x_offset, l.x_offset + l.clusters[t - 1].x + l.clusters[t - 1].advance),
        ),
        acc.last().right == l.x_offset + l.clusters[t - 1].x + l.clusters[t - 1].advance,
    ensures
        crate::geometry::boxes_extent(
            crate::geometry::line_boxes_rec(l, s, e, hs, crate::geometry::RectWidthStyle::Tight, t, acc),
        ) == Some((l.x_offset, l.x_offset + l.width_ink)),
    decreases l.ink_count - t,
{
    let ws = crate::geometry::RectWidthStyle::Tight;
    if t == l.ink_count {
        assert(crate::geometry::line_boxes_rec(l, s, e, hs, ws, t, acc) == acc);
    } else {
        let c = l.clusters[t];
        assert(c.start < e && s < c.end);
        let b = crate::geometry::box_of(l, c, hs);
        assert(c.x == l.clusters[t - 1].x + l.clusters[t - 1].advance);
        assert(b.left == acc.last().right);
        let acc2 = crate::geometry::push_box(acc, b, true);
        if crate::geometry::boxes_mergeable(acc.last(), b) {
            let nb = crate::geometry::BoxModel {
                left: acc.last().left,
                top: b.top,
                right: b.right,
                bottom: b.bottom,
                run: b.run,
            };
            assert(acc2 == acc.update(acc.len() - 1, nb));
            assert(acc2.drop_last() =~= acc.drop_last());
            assert(acc2.last() == nb);
            assert(crate::geometry::boxes_extent(acc2) == crate::geometry::extent_union(
                crate::geometry::boxes_extent(acc.drop_last()),
                Some((nb.left, nb.right)),
            ));
            assert(crate::geometry::boxes_extent(acc) == crate::geometry::extent_union(
                crate::geometry::boxes_extent(acc.drop_last()),
                Some((acc.last().left, acc.last().right)),
            ));
            assert(crate::geometry::boxes_extent(acc2) == Some(
                (l.x_offset, l.x_offset + c.x + c.advance),
            ));
        } else {
            lemma_extent_push(acc, b);
            assert(b.left >= l.x_offset);
            assert(b.right >= b.left);
            assert(crate::geometry::boxes_extent(acc2) == Some(
                (l.x_offset, l.x_offset + c.x + c.advance),
            ));
        }
        assert(acc2.last().right == l.x_offset + c.x + c.advance);
        lemma_fold_extrema(l, s, e, hs, t + 1, acc2);
        assert(crate::geometry::line_boxes_rec(l, s, e, hs, ws, t, acc)
            == crate::geometry::line_boxes_rec(l, s, e, hs, ws, t + 1, acc2));
    }
}

/// A ready line's boxes for the full range span exactly its ink: from the
/// line origin to the origin plus the ink width; a line with no ink
/// yields no boxes.
proof fn lemma_line_extent(
    l: crate::layout::LineModel,
    s: int,
    e: int,
    hs: crate::geometry::RectHeightStyle,
)
    requires
        line_fold_ready(l, s, e),
    ensures
        crate::geometry::boxes_extent(
            crate::geometry::line_boxes(l, s, e, hs, crate::geometry::RectWidthStyle::Tight),
        ) == (if l.ink_count > 0 {
            Some((l.x_offset, l.x_offset + l.width_ink))
        } else {
            None
        }),
{
    let ws = crate::geometry::RectWidthStyle::Tight;
    if l.ink_count == 0 {
        assert(crate::geometry::line_boxes(l, s, e, hs, ws) == Seq::<
            crate::geometry::BoxModel,
        >::empty());
    } else {
        let c0 = l.clusters[0];
        assert(c0.start < e && s < c0.end);
        let b0 = crate::geometry::box_of(l, c0, hs);
        let acc0 = Seq::<crate::geometry::BoxModel>::empty();
        let acc1 = crate::geometry::push_box(acc0, b0, true);
        assert(acc1 =~= seq![b0]);
        assert(acc1.drop_last() =~= Seq::<crate::geometry::BoxModel>::empty());
        assert(acc1.drop_last().len() == 0);
        assert(crate::geometry::boxes_extent(acc1.drop_last()) == None::<(int, int)>);
        assert(acc1.last() == b0);
        assert(crate::geometry::boxes_extent(acc1) == Some((b0.left, b0.right)));
        assert(b0.left == l.x_offset && b0.right == l.x_offset + c0.x + c0.advance);
        assert(crate::geometry::line_boxes(l, s, e, hs, ws) == crate::geometry::line_boxes_rec(
            l,
            s,
            e,
            hs,
            ws,
            1,
            acc1,
        ));
        lemma_fold_extrema(l, s, e, hs, 1, acc1);
    }
}

/// Every end offset in a well-formed measured sequence stays at or under
/// the last one.
proof fn lemma_mseq_end_mono(ms: Seq<MeasuredSpan>, t: int)
    requires
        crate::measure::mseq_wf(ms),
        0 <= t < ms.len(),
    ensures
        ms[t].end <= ms[ms.len() - 1].end,
    decreases ms.len() - t,
{
    if t < ms.len() - 1 {
        assert(ms[t].end == ms[t + 1].start);
        assert(mspan_wf(ms[t + 1]));
        lemma_mseq_end_mono(ms, t + 1);
    }
}

/// Every line the assembler makes over a well-formed measured sequence is
/// ready for the full-range fold.
proof fn lemma_assembled_ready(
    ms: Seq<MeasuredSpan>,
    sp: LineSpan,
    width: int,
    top: int,
    dm: (int, int),
    hd: bool,
    a: Align,
    d: Direction,
    text_len: int,
    s: int,
    e: int,
)
    requires
        crate::measure::mseq_wf(ms),
        0 <= sp.start <= sp.end <= ms.len(),
        s <= 0,
        ms.len() > 0 ==> ms[ms.len() - 1].end <= e,
    ensures
        line_fold_ready(mk_line(ms, sp, width, top, dm, hd, a, d, text_len), s, e),
{
    reveal(mk_line);
    let l = mk_line(ms, sp, width, top, dm, hd, a, d, text_len);
    let s0 = sp.start;
    crate::layout::lemma_ink_end_bounds(ms, sp.start, sp.end);
    let ink = ink_end(ms, sp.start, sp.end);
    assert(l.clusters.len() == sp.end - sp.start);
    assert forall|u: int| 0 <= u < l.clusters.len() implies (#[trigger] l.clusters[u]).advance >= 0
        && l.clusters[u].x >= 0 by {
        assert(l.clusters[u] == crate::layout::placed_of(ms, s0, s0 + u));
        assert(mspan_wf(ms[s0 + u]));
        crate::layout::lemma_sum_adv_bounds(ms, s0, s0 + u);
    }
    assert forall|u: int| 0 < u < l.clusters.len() implies (#[trigger] l.clusters[u]).x
        == l.clusters[u - 1].x + l.clusters[u - 1].advance by {
        assert(l.clusters[u] == crate::layout::placed_of(ms, s0, s0 + u));
        assert(l.clusters[u - 1] == crate::layout::placed_of(ms, s0, s0 + u - 1));
        assert(sum_adv(ms, s0, s0 + u) == sum_adv(ms, s0, s0 + u - 1) + ms[s0 + u - 1].advance);
    }
    if l.clusters.len() > 0 {
        assert(l.clusters[0] == crate::layout::placed_of(ms, s0, s0));
    }
    assert(l.ink_count == ink - s0);
    if ink > s0 {
        assert(l.clusters[ink - s0 - 1] == crate::layout::placed_of(ms, s0, ink - 1));
        assert(l.width_ink == sum_adv(ms, s0, ink));
        assert(sum_adv(ms, s0, ink) == sum_adv(ms, s0, ink - 1) + ms[ink - 1].advance);
    }
    assert forall|u: int| 0 <= u < l.ink_count implies (#[trigger] l.clusters[u]).start < e && s
        < l.clusters[u].end by {
        assert(l.clusters[u] == crate::layout::placed_of(ms, s0, s0 + u));
        assert(mspan_wf(ms[s0 + u]));
        lemma_mseq_end_mono(ms, s0 + u);
    }
}

/// Every line of the layout model is ready for the full-range fold.
proof fn lemma_lines_from_ready(
    ms: Seq<MeasuredSpan>,
    width: int,
    base: int,
    top: int,
    dm: (int, int),
    hd: bool,
    a: Align,
    d: Direction,
    text_len: int,
    s: int,
    e: int,
)
    requires
        crate::measure::mseq_wf(ms),
        0 <= base <= ms.len(),
        s <= 0,
        ms.len() > 0 ==> ms[ms.len() - 1].end <= e,
    ensures
        forall|i: int|
            0 <= i < crate::layout::lines_from(ms, width, base, top, dm, hd, a, d, text_len).len()
                ==> line_fold_ready(
                #[trigger] crate::layout::lines_from(ms, width, base, top, dm, hd, a, d, text_len)[i],
                s,
                e,
            ),
    decreases ms.len() - base,
{
    if 0 <= base < ms.len() {
        crate::layout::lemma_scan_bounds(ms, width, base, base, 0, -1);
        let r = scan_line(ms, width, base, base, 0, -1);
        let sp = LineSpan { start: base, end: r.0, kind: r.1 };
        let l = mk_line(ms, sp, width, top, dm, hd, a, d, text_len);
        lemma_assembled_ready(ms, sp, width, top, dm, hd, a, d, text_len, s, e);
        lemma_lines_from_ready(ms, width, r.0, top + l.ascent + l.descent, dm, hd, a, d, text_len, s, e);
        let whole = crate::layout::lines_from(ms, width, base, top, dm, hd, a, d, text_len);
        let rest = crate::layout::lines_from(
            ms,
            width,
            r.0,
            top + l.ascent + l.descent,
            dm,
            hd,
            a,
            d,
            text_len,
        );
        assert forall|i: int| 0 <= i < whole.len() implies line_fold_ready(
            #[trigger] whole[i],
            s,
            e,
        ) by {
            if i == 0 {
                assert(whole[0] == l);
            } else {
                assert(whole[i] == rest[i - 1]);
            }
        }
    }
}

/// Every line of a paragraph's layout model is ready for the full-range
/// fold.
proof fn lemma_model_lines_ready(p: Paragraph, coll: FontCollection, width: int, s: int, e: int)
    requires
        p.wf(),
        coll.wf(),
        s <= 0,
        e >= p.text@.len(),
    ensures
        forall|i: int|
            0 <= i < lines_model(p, coll, width).len() ==> line_fold_ready(
                #[trigger] lines_model(p, coll, width)[i],
                s,
                e,
            ),
{
    crate::measure::lemma_measure_all_wf(p, coll);
    let ms = crate::measure::measure_all(p, coll);
    let dm = style_metrics(coll, p.style.default_style);
    let hd = p.style.height_disabled;
    let a = p.style.align;
    let d = p.style.direction;
    let tl = p.text@.len() as int;
    lemma_lines_from_ready(ms, width, 0, 0, dm, hd, a, d, tl, s, e);
    let raw = crate::layout::lines_from(ms, width, 0, 0, dm, hd, a, d, tl);
    let lines = lines_model(p, coll, width);
    if ms.len() == 0 {
        lemma_assembled_ready(
            ms,
            LineSpan { start: 0, end: 0, kind: LineEnd::TextEnd },
            width,
            0,
            dm,
            hd,
            a,
            d,
            tl,
            s,
            e,
        );
    } else if raw.last().kind is Hard {
        lemma_assembled_ready(
            ms,
            LineSpan { start: ms.len() as int, end: ms.len() as int, kind: LineEnd::TextEnd },
            width,
            raw.last().baseline + raw.last().descent,
            dm,
            hd,
            a,
            d,
            tl,
            s,
            e,
        );
    }
    assert forall|i: int| 0 <= i < lines.len() implies line_fold_ready(
        #[trigger] lines[i],
        s,
        e,
    ) by {
        let full = if ms.len() == 0 {
            seq![
                mk_line(
                    ms,
                    LineSpan { start: 0, end: 0, kind: LineEnd::TextEnd },
                    width,
                    0,
                    dm,
                    hd,
                    a,
                    d,
                    tl,
                ),
            ]
        } else if raw.last().kind is Hard {
            raw + seq![
                mk_line(
                    ms,
                    LineSpan { start: ms.len() as int, end: ms.len() as int, kind: LineEnd::TextEnd },
                    width,
                    raw.last().baseline + raw.last().descent,
                    dm,
                    hd,
                    a,
                    d,
                    tl,
                ),
            ]
        } else {
            raw
        };
        assert(lines[i] == full[i]);
        if ms.len() > 0 && raw.last().kind is Hard && i < raw.len() {
            assert(full[i] == raw[i]);
        }
    }
}

/// Boxes of the lines from `i` on span exactly the ink extent of those
/// lines.
proof fn lemma_rects_extent_rec(
    lines: Seq<crate::layout::LineModel>,
    s: int,
    e: int,
    hs: crate::geometry::RectHeightStyle,
    i: int,
)
    requires
        forall|j: int| 0 <= j < lines.len() ==> line_fold_ready(#[trigger] lines[j], s, e),
        0 <= i,
    ensures
        crate::geometry::boxes_extent(
            crate::geometry::rects_rec(lines, s, e, hs, crate::geometry::RectWidthStyle::Tight, i),
        ) == crate::geometry::ink_extent(lines, i),
    decreases lines.len() - i,
{
    let ws = crate::geometry::RectWidthStyle::Tight;
    if i < lines.len() {
        lemma_rects_extent_rec(lines, s, e, hs, i + 1);
        lemma_line_extent(lines[i], s, e, hs);
        lemma_extent_concat(
            crate::geometry::line_boxes(lines[i], s, e, hs, ws),
            crate::geometry::rects_rec(lines, s, e, hs, ws, i + 1),
        );
    }
}

/// Law: for a query of the whole text with tight width, the union of the
/// returned boxes' left and right extrema equals the paragraph's overall
/// ink extent — exactly, in integer layout units. A paragraph with no
/// visible ink yields no boxes and an empty extent.
pub proof fn lemma_full_range_extrema(
    p: Paragraph,
    coll: FontCollection,
    width: int,
    e: int,
    hs: crate::geometry::RectHeightStyle,
)
    requires
        p.wf(),
        coll.wf(),
        e >= p.text@.len(),
    ensures
        ({
            let lines = lines_model(p, coll, width);
            crate::geometry::boxes_extent(
                crate::geometry::rects_model(lines, 0, e, hs, crate::geometry::RectWidthStyle::Tight),
            ) == crate::geometry::ink_extent(lines, 0)
        }),
{
    lemma_model_lines_ready(p, coll, width, 0, e);
    lemma_rects_extent_rec(lines_model(p, coll, width), 0, e, hs, 0);
}

} // verus!
