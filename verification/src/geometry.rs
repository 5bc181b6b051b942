//! Geometry queries over a laid-out paragraph: bounding boxes for a text
//! range, per-line metrics, and per-run style spans.
//!
//! Boxes come back in run order within each line and line order across
//! lines — not necessarily left-to-right in screen space. A consumer that
//! wants a range's true extent takes the minimum left and maximum right
//! across every returned box.

use vstd::prelude::*;

use crate::layout::{line_bounded, line_models, LaidOut, Line, LineModel, PlacedModel};
use crate::paragraph::StyleRun;
use crate::units::{MAX_ADVANCE, MAX_RISE, MAX_TEXT_LEN};
use crate::EngineError;

verus! {

/// Whether a box's vertical extent is only its glyphs' or the full line
/// height.
#[derive(Clone, Copy, Debug, PartialEq, Eq, Structural)]
pub enum RectHeightStyle {
    /// Each box spans its own cluster's ascent and descent.
    Tight,
    /// Each box spans the full line height.
    Max,
}

/// Whether adjacent boxes of one run merge, and whether a line's trailing
/// whitespace is included.
#[derive(Clone, Copy, Debug, PartialEq, Eq, Structural)]
pub enum RectWidthStyle {
    /// Merge adjacent same-run boxes and exclude trailing whitespace, so
    /// spaces at a line end never stretch a box past the last visible
    /// glyph.
    Tight,
    /// One box per cluster, trailing whitespace included.
    Max,
}

/// A box of a range query, in paragraph-local coordinates, tagged with
/// the run it came from.
#[derive(Clone, Copy, Debug, PartialEq, Eq, Structural)]
pub struct GeometryBox {
    pub left: i64,
    pub top: i64,
    pub right: i64,
    pub bottom: i64,
    pub run: usize,
}

/// A geometry box in the query model.
pub struct BoxModel {
    pub left: int,
    pub top: int,
    pub right: int,
    pub bottom: int,
    pub run: int,
}

impl GeometryBox {
    /// The model value this box stands for.
    pub open spec fn model(&self) -> BoxModel {
        BoxModel {
            left: self.left as int,
            top: self.top as int,
            right: self.right as int,
            bottom: self.bottom as int,
            run: self.run as int,
        }
    }
}

/// Lift a box vector to its model sequence.
pub open spec fn box_models(s: Seq<GeometryBox>) -> Seq<BoxModel> {
    s.map_values(|b: GeometryBox| b.model())
}

/// The box of one positioned cluster on a line.
pub open spec fn box_of(l: LineModel, c: PlacedModel, hs: RectHeightStyle) -> BoxModel {
    BoxModel {
        left: l.x_offset + c.x,
        right: l.x_offset + c.x + c.advance,
        top: if hs is Max {
            l.baseline - l.ascent
        } else {
            l.baseline - c.ascent
        },
        bottom: if hs is Max {
            l.baseline + l.descent
        } else {
            l.baseline + c.descent
        },
        run: c.run,
    }
}

/// Two boxes merge when they share a run, vertical extent, and a common
/// edge.
pub open spec fn boxes_mergeable(a: BoxModel, b: BoxModel) -> bool {
    a.run == b.run && a.right == b.left && a.top == b.top && a.bottom == b.bottom
}

/// Add a box to the accumulated list, extending the last box instead when
/// merging is on and they share a run and an edge.
pub open spec fn push_box(acc: Seq<BoxModel>, b: BoxModel, merge: bool) -> Seq<BoxModel> {
    if merge && acc.len() > 0 && boxes_mergeable(acc.last(), b) {
        acc.update(
            acc.len() - 1,
            BoxModel { left: acc.last().left, top: b.top, right: b.right, bottom: b.bottom, run: b.run },
        )
    } else {
        acc.push(b)
    }
}

/// How many leading clusters of a line a width style looks at: the ink
/// only, or all of them.
pub open spec fn clusters_considered(l: LineModel, ws: RectWidthStyle) -> int {
    if ws is Tight {
        l.ink_count
    } else {
        l.clusters.len() as int
    }
}

/// Boxes of the clusters of one line intersecting `[s, e)`, folded from
/// cluster `t` on into `acc`.
pub open spec fn line_boxes_rec(
    l: LineModel,
    s: int,
    e: int,
    hs: RectHeightStyle,
    ws: RectWidthStyle,
    t: int,
    acc: Seq<BoxModel>,
) -> Seq<BoxModel>
    decreases clusters_considered(l, ws) - t,
{
    if t < 0 || t >= clusters_considered(l, ws) || l.clusters.len() < clusters_considered(l, ws) {
        acc
    } else {
        let c = l.clusters[t];
        let acc2 = if c.start < e && s < c.end {
            push_box(acc, box_of(l, c, hs), ws is Tight)
        } else {
            acc
        };
        line_boxes_rec(l, s, e, hs, ws, t + 1, acc2)
    }
}

/// Boxes of one line for a range.
pub open spec fn line_boxes(
    l: LineModel,
    s: int,
    e: int,
    hs: RectHeightStyle,
    ws: RectWidthStyle,
) -> Seq<BoxModel> {
    line_boxes_rec(l, s, e, hs, ws, 0, seq![])
}

/// Boxes of the lines from `i` on, in line order.
pub open spec fn rects_rec(
    lines: Seq<LineModel>,
    s: int,
    e: int,
    hs: RectHeightStyle,
    ws: RectWidthStyle,
    i: int,
) -> Seq<BoxModel>
    decreases lines.len() - i,
{
    if i < 0 || i >= lines.len() {
        seq![]
    } else {
        line_boxes(lines[i], s, e, hs, ws) + rects_rec(lines, s, e, hs, ws, i + 1)
    }
}

/// The range-query model: per line, the boxes of the clusters whose text
/// range intersects `[s, e)`, in run order; never reordered into
/// screen-space order.
pub open spec fn rects_model(
    lines: Seq<LineModel>,
    s: int,
    e: int,
    hs: RectHeightStyle,
    ws: RectWidthStyle,
) -> Seq<BoxModel> {
    rects_rec(lines, s, e, hs, ws, 0)
}

/// Union of two optional horizontal extents.
pub open spec fn extent_union(a: Option<(int, int)>, b: Option<(int, int)>) -> Option<(int, int)> {
    match (a, b) {
        (Option::None, r) => r,
        (l, Option::None) => l,
        (Option::Some(x), Option::Some(y)) => Option::Some(
            (
                if x.0 < y.0 {
                    x.0
                } else {
                    y.0
                },
                if x.1 > y.1 {
                    x.1
                } else {
                    y.1
                },
            ),
        ),
    }
}

/// The horizontal extent of a box list: its least left and greatest
/// right edge; `None` for no boxes.
pub open spec fn boxes_extent(bs: Seq<BoxModel>) -> Option<(int, int)>
    decreases bs.len(),
{
    if bs.len() == 0 {
        None
    } else {
        extent_union(boxes_extent(bs.drop_last()), Some((bs.last().left, bs.last().right)))
    }
}

/// The ink extent of the lines from `i` on: the union over every line
/// with visible ink of its `[x_offset, x_offset + width_ink]` span.
pub open spec fn ink_extent(lines: Seq<LineModel>, i: int) -> Option<(int, int)>
    decreases lines.len() - i,
{
    if i < 0 || i >= lines.len() {
        None
    } else {
        let rest = ink_extent(lines, i + 1);
        if lines[i].ink_count > 0 {
            extent_union(Some((lines[i].x_offset, lines[i].x_offset + lines[i].width_ink)), rest)
        } else {
            rest
        }
    }
}

/// Per-line metrics: text offsets, vertical metrics, ink width and
/// baseline.
#[derive(Clone, Copy, Debug, PartialEq, Eq, Structural)]
pub struct LineMetric {
    /// First text offset of the line, in code points.
    pub start_index: usize,
    /// One past the last text offset; trailing whitespace and a hard
    /// break stay inside.
    pub end_index: usize,
    pub ascent: i64,
    pub descent: i64,
    /// Width of the visible ink: trailing whitespace excluded.
    pub width: i64,
    pub baseline: i64,
}

/// A run's span clipped to a query range.
#[derive(Clone, Copy, Debug, PartialEq, Eq, Structural)]
pub struct RunStyleSpan {
    pub start: usize,
    pub end: usize,
    /// Index of the run; the paragraph's `run_style` resolves it.
    pub run: usize,
}

/// A clipped run span in the query model.
pub struct RunSpanModel {
    pub start: int,
    pub end: int,
    pub run: int,
}

impl RunStyleSpan {
    /// The model value this span stands for.
    pub open spec fn model(&self) -> RunSpanModel {
        RunSpanModel { start: self.start as int, end: self.end as int, run: self.run as int }
    }
}

/// Lift a span vector to its model sequence.
pub open spec fn span_models(s: Seq<RunStyleSpan>) -> Seq<RunSpanModel> {
    s.map_values(|r: RunStyleSpan| r.model())
}

/// The runs intersecting `[s, e)`, clipped to it, from run `i` on.
pub open spec fn style_spans_rec(runs: Seq<StyleRun>, s: int, e: int, i: int) -> Seq<RunSpanModel>
    decreases runs.len() - i,
{
    if i < 0 || i >= runs.len() {
        seq![]
    } else {
        let r = runs[i];
        let rest = style_spans_rec(runs, s, e, i + 1);
        if r.start < e && s < r.end {
            seq![
                RunSpanModel {
                    start: if s > r.start {
                        s
                    } else {
                        r.start as int
                    },
                    end: if e < r.end {
                        e
                    } else {
                        r.end as int
                    },
                    run: i,
                },
            ] + rest
        } else {
            rest
        }
    }
}

/// The style-span query model.
pub open spec fn style_spans_model(runs: Seq<StyleRun>, s: int, e: int) -> Seq<RunSpanModel> {
    style_spans_rec(runs, s, e, 0)
}

impl LaidOut {
    /// Bounding boxes for a text-offset range, possibly spanning several
    /// runs and lines. Boxes are in run order within each line, not
    /// guaranteed left-to-right in screen space: take the min-left and
    /// max-right across all boxes for the range's true extent.
    pub fn rects_for_range(
        &self,
        start: usize,
        end: usize,
        hs: RectHeightStyle,
        ws: RectWidthStyle,
    ) -> (r: Vec<GeometryBox>)
        requires
            self.wf(),
        ensures
            box_models(r@) == rects_model(
                line_models(self.lines@),
                start as int,
                end as int,
                hs,
                ws,
            ),
    {
        let ghost lms = line_models(self.lines@);
        let ghost s = start as int;
        let ghost e = end as int;
        let n = self.lines.len();
        let mut out: Vec<GeometryBox> = Vec::new();
        let mut i: usize = 0;
        while i < n
            invariant
                0 <= i <= n,
                n == self.lines@.len(),
                lms == line_models(self.lines@),
                s == start as int && e == end as int,
                self.wf(),
                box_models(out@) + rects_rec(lms, s, e, hs, ws, i as int) == rects_model(
                    lms,
                    s,
                    e,
                    hs,
                    ws,
                ),
            decreases n - i,
        {
            let line = &self.lines[i];
            proof {
                assert(line_bounded(self.lines@[i as int]));
                assert(lms[i as int] == self.lines@[i as int].model());
            }
            let ghost lm = lms[i as int];
            let upto = match ws {
                RectWidthStyle::Tight => line.ink_count,
                RectWidthStyle::Max => line.clusters.len(),
            };
            let mut lb: Vec<GeometryBox> = Vec::new();
            proof {
                assert(box_models(lb@) =~= Seq::<BoxModel>::empty());
            }
            let mut t: usize = 0;
            while t < upto
                invariant
                    0 <= t <= upto,
                    upto == clusters_considered(lm, ws),
                    upto <= line.clusters@.len(),
                    lm == line.model(),
                    line == &self.lines@[i as int],
                    0 <= i < self.lines@.len(),
                    self.wf(),
                    s == start as int && e == end as int,
                    line_boxes_rec(lm, s, e, hs, ws, t as int, box_models(lb@)) == line_boxes(
                        lm,
                        s,
                        e,
                        hs,
                        ws,
                    ),
                decreases upto - t,
            {
                let c = &line.clusters[t];
                proof {
                    assert(line_bounded(self.lines@[i as int]));
                    assert(crate::layout::cluster_bounded(line.clusters@[t as int]));
                    assert(lm.clusters[t as int] == line.clusters@[t as int].model());
                }
                if c.start < end && start < c.end {
                    let top_v = match hs {
                        RectHeightStyle::Max => line.baseline - line.ascent,
                        RectHeightStyle::Tight => line.baseline - c.ascent,
                    };
                    let bottom_v = match hs {
                        RectHeightStyle::Max => line.baseline + line.descent,
                        RectHeightStyle::Tight => line.baseline + c.descent,
                    };
                    let b = GeometryBox {
                        left: line.x_offset + c.x,
                        top: top_v,
                        right: line.x_offset + c.x + c.advance,
                        bottom: bottom_v,
                        run: c.run,
                    };
                    proof {
                        assert(b.model() == box_of(lm, lm.clusters[t as int], hs));
                    }
                    let nb = lb.len();
                    let mut merged = false;
                    if matches!(ws, RectWidthStyle::Tight) && nb > 0 {
                        let last = lb[nb - 1];
                        if last.run == b.run && last.right == b.left && last.top == b.top
                            && last.bottom == b.bottom {
                            let ghost prior = lb@;
                            lb[nb - 1] =
                            GeometryBox {
                                left: last.left,
                                top: b.top,
                                right: b.right,
                                bottom: b.bottom,
                                run: b.run,
                            };
                            merged = true;
                            proof {
                                assert(box_models(lb@) =~= push_box(
                                    box_models(prior),
                                    b.model(),
                                    ws is Tight,
                                ));
                            }
                        }
                    }
                    if !merged {
                        let ghost prior = lb@;
                        lb.push(b);
                        proof {
                            assert(box_models(lb@) =~= push_box(
                                box_models(prior),
                                b.model(),
                                ws is Tight,
                            ));
                        }
                    }
                }
                t = t + 1;
            }
            let ghost prior_out = out@;
            let mut lb_moved = lb;
            out.append(&mut lb_moved);
            i = i + 1;
            proof {
                assert(box_models(out@) =~= box_models(prior_out) + line_boxes(lm, s, e, hs, ws));
                assert(box_models(out@) + rects_rec(lms, s, e, hs, ws, i as int) =~= box_models(
                    prior_out,
                ) + rects_rec(lms, s, e, hs, ws, i as int - 1));
            }
        }
        proof {
            assert(rects_rec(lms, s, e, hs, ws, n as int) =~= Seq::<BoxModel>::empty());
            assert(box_models(out@) =~= rects_model(lms, s, e, hs, ws));
        }
        out
    }

    /// Metrics of every line, in order; recomputed in full by every
    /// layout.
    pub fn line_metrics(&self) -> (r: Vec<LineMetric>)
        requires
            self.wf(),
        ensures
            r@.len() == self.lines@.len(),
            forall|i: int|
                0 <= i < r@.len() ==> {
                    let l = #[trigger] self.lines@[i];
                    (#[trigger] r@[i]) == (LineMetric {
                        start_index: l.start,
                        end_index: l.end,
                        ascent: l.ascent,
                        descent: l.descent,
                        width: l.width_ink,
                        baseline: l.baseline,
                    })
                },
    {
        let n = self.lines.len();
        let mut out: Vec<LineMetric> = Vec::new();
        let mut i: usize = 0;
        while i < n
            invariant
                0 <= i <= n,
                n == self.lines@.len(),
                out@.len() == i,
                forall|j: int|
                    0 <= j < i ==> {
                        let l = #[trigger] self.lines@[j];
                        (#[trigger] out@[j]) == (LineMetric {
                            start_index: l.start,
                            end_index: l.end,
                            ascent: l.ascent,
                            descent: l.descent,
                            width: l.width_ink,
                            baseline: l.baseline,
                        })
                    },
            decreases n - i,
        {
            let l = &self.lines[i];
            out.push(
                LineMetric {
                    start_index: l.start,
                    end_index: l.end,
                    ascent: l.ascent,
                    descent: l.descent,
                    width: l.width_ink,
                    baseline: l.baseline,
                },
            );
            i = i + 1;
        }
        out
    }

    /// The style runs intersecting `[start, end)`, clipped to it. Fails
    /// with `OutOfBoundsRange` exactly when the range is reversed or
    /// reaches past the text.
    pub fn style_metrics_for_range(&self, start: usize, end: usize) -> (r: Result<
        Vec<RunStyleSpan>,
        EngineError,
    >)
        ensures
            r is Ok <==> start <= end && end <= self.para.text@.len(),
            r matches Err(err) ==> err == EngineError::OutOfBoundsRange,
            r matches Ok(spans) ==> span_models(spans@) == style_spans_model(
                self.para.runs@,
                start as int,
                end as int,
            ),
    {
        if start > end || end > self.para.text.len() {
            return Err(EngineError::OutOfBoundsRange);
        }
        let ghost s = start as int;
        let ghost e = end as int;
        let runs = &self.para.runs;
        let n = runs.len();
        let mut out: Vec<RunStyleSpan> = Vec::new();
        let mut i: usize = 0;
        while i < n
            invariant
                0 <= i <= n,
                n == runs@.len(),
                runs == &self.para.runs,
                s == start as int && e == end as int,
                start <= end <= self.para.text@.len(),
                span_models(out@) + style_spans_rec(runs@, s, e, i as int) == style_spans_model(
                    runs@,
                    s,
                    e,
                ),
            decreases n - i,
        {
            let r = &runs[i];
            if r.start < end && start < r.end {
                let ghost prior = out@;
                out.push(
                    RunStyleSpan {
                        start: if start > r.start {
                            start
                        } else {
                            r.start
                        },
                        end: if end < r.end {
                            end
                        } else {
                            r.end
                        },
                        run: i,
                    },
                );
                proof {
                    assert(span_models(out@) =~= span_models(prior).push(
                        out@.last().model(),
                    ));
                    assert(span_models(out@) + style_spans_rec(runs@, s, e, i as int + 1)
                        =~= span_models(prior) + style_spans_rec(runs@, s, e, i as int));
                }
            }
            i = i + 1;
        }
        proof {
            assert(style_spans_rec(runs@, s, e, n as int) =~= Seq::<RunSpanModel>::empty());
            assert(span_models(out@) =~= style_spans_model(runs@, s, e));
        }
        Ok(out)
    }
}

} // verus!
