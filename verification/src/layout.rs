//! Greedy line breaking and line assembly.
//!
//! Clusters accumulate onto a line while the cumulative advance stays
//! within the maximum width; a cluster that would overflow breaks the line
//! at the most recent break opportunity, or, when none exists, after the
//! overflowing cluster itself, so an unbreakable overrun lands on a line
//! of its own rather than looping or being dropped. Whitespace never
//! overflows: trailing spaces hang past the edge, stay inside the line's
//! offset range, and are excluded from its ink width. A hard break always
//! ends its line, and a trailing hard break leaves one final empty line.
//! Line height is the maximum ascent plus the maximum descent of the
//! clusters on the line, unless height adjustment is disabled, in which
//! case every line takes the paragraph default style's metrics.

use vstd::prelude::*;

use crate::collection::{FontCollection, GlyphOutcome};
use crate::measure::{
    measure_all, measure_paragraph, models_of, mspan_wf, style_metrics, style_metrics_exec,
    MeasuredCluster, MeasuredSpan,
};
use crate::paragraph::Paragraph;
use crate::style::{Align, Direction};
use crate::units::{MAX_ADVANCE, MAX_LAYOUT_WIDTH, MAX_RISE, MAX_TEXT_LEN};
use crate::EngineError;

verus! {

/// Why a line ended: a hard break, a soft wrap, or the text's natural end.
#[derive(Clone, Copy, Debug, PartialEq, Eq, Structural)]
pub enum LineEnd {
    Hard,
    Soft,
    TextEnd,
}

/// A line's window over the measured clusters: `[start, end)`.
pub struct LineSpan {
    pub start: int,
    pub end: int,
    pub kind: LineEnd,
}

/// A line may wrap after cluster `j`: after whitespace, and on either
/// side of a break-anywhere cluster.
pub open spec fn can_break_after(ms: Seq<MeasuredSpan>, j: int) -> bool {
    ||| ms[j].space
    ||| ms[j].ideo
    ||| (j + 1 < ms.len() && ms[j + 1].ideo)
}

/// The greedy scan: from `pos` with accumulated advance `cum` and last
/// break opportunity `opp` (-1 when none), the end of the line that began
/// at `base`, and why it ends. Whitespace never triggers overflow; an
/// overflowing cluster breaks at the last opportunity, or stays and the
/// line breaks right after it when no opportunity exists.
pub open spec fn scan_line(
    ms: Seq<MeasuredSpan>,
    width: int,
    base: int,
    pos: int,
    cum: int,
    opp: int,
) -> (int, LineEnd)
    decreases ms.len() - pos,
{
    if pos < 0 || pos >= ms.len() {
        (ms.len() as int, LineEnd::TextEnd)
    } else if ms[pos].newline {
        (pos + 1, LineEnd::Hard)
    } else if !ms[pos].space && cum + ms[pos].advance > width {
        if opp >= base {
            (opp + 1, LineEnd::Soft)
        } else {
            (pos + 1, LineEnd::Soft)
        }
    } else {
        scan_line(
            ms,
            width,
            base,
            pos + 1,
            cum + ms[pos].advance,
            if can_break_after(ms, pos) {
                pos
            } else {
                opp
            },
        )
    }
}

/// The scan always makes progress and never passes the end.
pub proof fn lemma_scan_bounds(
    ms: Seq<MeasuredSpan>,
    width: int,
    base: int,
    pos: int,
    cum: int,
    opp: int,
)
    requires
        0 <= base <= pos <= ms.len(),
        base < ms.len(),
        opp < pos,
    ensures
        base < scan_line(ms, width, base, pos, cum, opp).0 <= ms.len(),
    decreases ms.len() - pos,
{
    if pos < ms.len() && !ms[pos].newline && !(!ms[pos].space && cum + ms[pos].advance > width) {
        lemma_scan_bounds(
            ms,
            width,
            base,
            pos + 1,
            cum + ms[pos].advance,
            if can_break_after(ms, pos) {
                pos
            } else {
                opp
            },
        );
    }
}

/// Sum of the advances of clusters `[from, to)`.
pub open spec fn sum_adv(ms: Seq<MeasuredSpan>, from: int, to: int) -> int
    decreases to - from,
{
    if to <= from {
        0
    } else {
        sum_adv(ms, from, to - 1) + ms[to - 1].advance
    }
}

/// End of the visible ink of `[from, to)`: trailing whitespace and hard
/// breaks are dropped.
pub open spec fn ink_end(ms: Seq<MeasuredSpan>, from: int, to: int) -> int
    decreases to - from,
{
    if to <= from {
        from
    } else if ms[to - 1].space || ms[to - 1].newline {
        ink_end(ms, from, to - 1)
    } else {
        to
    }
}

/// Largest cluster ascent on `[from, to)`; zero when empty.
pub open spec fn max_ascent(ms: Seq<MeasuredSpan>, from: int, to: int) -> int
    decreases to - from,
{
    if to <= from {
        0
    } else {
        let rest = max_ascent(ms, from, to - 1);
        if ms[to - 1].ascent > rest {
            ms[to - 1].ascent
        } else {
            rest
        }
    }
}

/// Largest cluster descent on `[from, to)`; zero when empty.
pub open spec fn max_descent(ms: Seq<MeasuredSpan>, from: int, to: int) -> int
    decreases to - from,
{
    if to <= from {
        0
    } else {
        let rest = max_descent(ms, from, to - 1);
        if ms[to - 1].descent > rest {
            ms[to - 1].descent
        } else {
            rest
        }
    }
}

/// Sum of advances stays within per-cluster bounds.
pub proof fn lemma_sum_adv_bounds(ms: Seq<MeasuredSpan>, from: int, to: int)
    requires
        0 <= from <= to <= ms.len(),
        forall|j: int| 0 <= j < ms.len() ==> mspan_wf(#[trigger] ms[j]),
    ensures
        0 <= sum_adv(ms, from, to) <= (to - from) * MAX_ADVANCE,
    decreases to - from,
{
    if to > from {
        lemma_sum_adv_bounds(ms, from, to - 1);
        assert((to - from) * MAX_ADVANCE == (to - 1 - from) * MAX_ADVANCE + MAX_ADVANCE)
            by (nonlinear_arith);
    }
}

/// A prefix of the advances sums to no more than the whole.
pub proof fn lemma_sum_adv_mono(ms: Seq<MeasuredSpan>, from: int, mid: int, to: int)
    requires
        0 <= from <= mid <= to <= ms.len(),
        forall|j: int| 0 <= j < ms.len() ==> mspan_wf(#[trigger] ms[j]),
    ensures
        sum_adv(ms, from, mid) <= sum_adv(ms, from, to),
    decreases to - mid,
{
    if mid < to {
        lemma_sum_adv_mono(ms, from, mid, to - 1);
    }
}

/// Ink never extends past the window and never before its start.
pub proof fn lemma_ink_end_bounds(ms: Seq<MeasuredSpan>, from: int, to: int)
    requires
        from <= to,
    ensures
        from <= ink_end(ms, from, to) <= to,
    decreases to - from,
{
    if to > from && (ms[to - 1].space || ms[to - 1].newline) {
        lemma_ink_end_bounds(ms, from, to - 1);
    }
}

/// Cluster maxima stay within the per-cluster bounds.
pub proof fn lemma_rise_bounds(ms: Seq<MeasuredSpan>, from: int, to: int)
    requires
        0 <= from <= to <= ms.len(),
        forall|j: int| 0 <= j < ms.len() ==> mspan_wf(#[trigger] ms[j]),
    ensures
        0 <= max_ascent(ms, from, to) <= MAX_RISE,
        0 <= max_descent(ms, from, to) <= MAX_RISE,
    decreases to - from,
{
    if to > from {
        lemma_rise_bounds(ms, from, to - 1);
    }
}

/// Alignment with `Start` and `End` resolved against the direction.
pub open spec fn resolve_align(a: Align, d: Direction) -> Align {
    match a {
        Align::Start => if d is Ltr {
            Align::Left
        } else {
            Align::Right
        },
        Align::End => if d is Ltr {
            Align::Right
        } else {
            Align::Left
        },
        other => other,
    }
}

/// Indent of a line within the layout width, from its ink width: flush
/// left, flush right, or centered on the leftover slack; never negative.
pub open spec fn line_indent(a: Align, d: Direction, width: int, ink: int) -> int {
    let slack = if width - ink < 0 {
        0
    } else {
        width - ink
    };
    match resolve_align(a, d) {
        Align::Right => slack,
        Align::Center => slack / 2,
        _ => 0,
    }
}

/// A positioned cluster in the layout model.
pub struct PlacedModel {
    /// Text offsets, in code points.
    pub start: int,
    pub end: int,
    pub run: int,
    /// Offset from the line's origin, before the line's indent.
    pub x: int,
    pub advance: int,
    pub ascent: int,
    pub descent: int,
    pub missing: bool,
    pub space: bool,
    pub newline: bool,
    pub outcome: GlyphOutcome,
}

/// One line in the layout model.
pub struct LineModel {
    /// Text offsets of the line, in code points; trailing whitespace and
    /// the hard break itself stay inside the range.
    pub start: int,
    pub end: int,
    pub kind: LineEnd,
    pub clusters: Seq<PlacedModel>,
    /// Count of leading clusters that form the visible ink: the rest is
    /// trailing whitespace.
    pub ink_count: int,
    pub ascent: int,
    pub descent: int,
    /// Baseline y: the running top of the line plus its ascent.
    pub baseline: int,
    /// Advance width of every cluster, trailing whitespace included.
    pub width_full: int,
    /// Advance width of the visible ink only.
    pub width_ink: int,
    /// Indent of the line's origin from alignment.
    pub x_offset: int,
}

/// The cluster at `t`, placed at the running advance from the line start.
pub open spec fn placed_of(ms: Seq<MeasuredSpan>, line_start: int, t: int) -> PlacedModel {
    let m = ms[t];
    PlacedModel {
        start: m.start,
        end: m.end,
        run: m.run,
        x: sum_adv(ms, line_start, t),
        advance: m.advance,
        ascent: m.ascent,
        descent: m.descent,
        missing: m.missing,
        space: m.space,
        newline: m.newline,
        outcome: m.outcome,
    }
}

/// Ascent and descent of a line: the maxima over its clusters, or the
/// default metrics when the line is empty or height adjustment is
/// disabled.
pub open spec fn line_rise(
    ms: Seq<MeasuredSpan>,
    sp: LineSpan,
    dm: (int, int),
    height_disabled: bool,
) -> (int, int) {
    if height_disabled || sp.end <= sp.start {
        dm
    } else {
        (max_ascent(ms, sp.start, sp.end), max_descent(ms, sp.start, sp.end))
    }
}

/// Assemble one line from its span: positioned clusters, ink extent,
/// metrics, baseline at `top` plus the ascent, and the alignment indent.
#[verifier::opaque]
pub open spec fn mk_line(
    ms: Seq<MeasuredSpan>,
    sp: LineSpan,
    width: int,
    top: int,
    dm: (int, int),
    height_disabled: bool,
    a: Align,
    d: Direction,
    text_len: int,
) -> LineModel {
    let rise = line_rise(ms, sp, dm, height_disabled);
    let ink_e = ink_end(ms, sp.start, sp.end);
    let w_ink = sum_adv(ms, sp.start, ink_e);
    let start_off = if sp.start < ms.len() {
        ms[sp.start].start
    } else {
        text_len
    };
    LineModel {
        start: start_off,
        end: if sp.end > sp.start {
            ms[sp.end - 1].end
        } else {
            start_off
        },
        kind: sp.kind,
        clusters: Seq::new((sp.end - sp.start) as nat, |u: int| placed_of(ms, sp.start, sp.start + u)),
        ink_count: ink_e - sp.start,
        ascent: rise.0,
        descent: rise.1,
        baseline: top + rise.0,
        width_full: sum_adv(ms, sp.start, sp.end),
        width_ink: w_ink,
        x_offset: line_indent(a, d, width, w_ink),
    }
}

#[via_fn]
proof fn lines_from_dec(
    ms: Seq<MeasuredSpan>,
    width: int,
    base: int,
    top: int,
    dm: (int, int),
    height_disabled: bool,
    a: Align,
    d: Direction,
    text_len: int,
) {
    if 0 <= base < ms.len() {
        lemma_scan_bounds(ms, width, base, base, 0, -1);
    }
}

/// The lines from cluster `base` on, each beginning where the previous
/// scan ended, tops accumulating by line height.
pub open spec fn lines_from(
    ms: Seq<MeasuredSpan>,
    width: int,
    base: int,
    top: int,
    dm: (int, int),
    height_disabled: bool,
    a: Align,
    d: Direction,
    text_len: int,
) -> Seq<LineModel>
    decreases ms.len() - base,
        via lines_from_dec
{
    if base < 0 || base >= ms.len() {
        seq![]
    } else {
        let r = scan_line(ms, width, base, base, 0, -1);
        let l = mk_line(
            ms,
            LineSpan { start: base, end: r.0, kind: r.1 },
            width,
            top,
            dm,
            height_disabled,
            a,
            d,
            text_len,
        );
        seq![l] + lines_from(
            ms,
            width,
            r.0,
            top + l.ascent + l.descent,
            dm,
            height_disabled,
            a,
            d,
            text_len,
        )
    }
}

/// The full line model over measured clusters: the scanned lines, plus a
/// single empty line for empty text, plus one trailing empty line after a
/// final hard break; capped at `max_lines`.
pub open spec fn lines_model_over(
    ms: Seq<MeasuredSpan>,
    width: int,
    dm: (int, int),
    height_disabled: bool,
    a: Align,
    d: Direction,
    text_len: int,
    max_lines: Option<usize>,
) -> Seq<LineModel> {
    let raw = lines_from(ms, width, 0, 0, dm, height_disabled, a, d, text_len);
    let full = if ms.len() == 0 {
        seq![
            mk_line(
                ms,
                LineSpan { start: 0, end: 0, kind: LineEnd::TextEnd },
                width,
                0,
                dm,
                height_disabled,
                a,
                d,
                text_len,
            ),
        ]
    } else if raw.last().kind is Hard {
        raw + seq![
            mk_line(
                ms,
                LineSpan { start: ms.len() as int, end: ms.len() as int, kind: LineEnd::TextEnd },
                width,
                raw.last().baseline + raw.last().descent,
                dm,
                height_disabled,
                a,
                d,
                text_len,
            ),
        ]
    } else {
        raw
    };
    match max_lines {
        Some(m) => if m < full.len() {
            full.take(m as int)
        } else {
            full
        },
        None => full,
    }
}

/// The layout model of a paragraph at a width.
pub open spec fn lines_model(p: Paragraph, coll: FontCollection, width: int) -> Seq<LineModel> {
    lines_model_over(
        measure_all(p, coll),
        width,
        style_metrics(coll, p.style.default_style),
        p.style.height_disabled,
        p.style.align,
        p.style.direction,
        p.text@.len() as int,
        p.style.max_lines,
    )
}

/// Field bounds every placed cluster of a laid-out line satisfies.
pub open spec fn cluster_bounded(c: PlacedCluster) -> bool {
    &&& 0 <= c.x
    &&& 0 <= c.advance <= MAX_ADVANCE
    &&& c.x + c.advance <= MAX_TEXT_LEN as int * MAX_ADVANCE as int
    &&& 0 <= c.ascent <= MAX_RISE
    &&& 0 <= c.descent <= MAX_RISE
}

/// A positioned grapheme cluster of a laid-out line.
pub struct PlacedCluster {
    /// Text offsets, in code points.
    pub start: usize,
    pub end: usize,
    /// Index of the owning style run.
    pub run: usize,
    /// Offset from the line's origin, before the line's indent.
    pub x: i64,
    pub advance: i64,
    pub ascent: i64,
    pub descent: i64,
    pub missing: bool,
    pub space: bool,
    pub newline: bool,
    /// Glyph lookup outcome of the base code point.
    pub outcome: GlyphOutcome,
}

impl PlacedCluster {
    /// The model value this cluster stands for.
    pub open spec fn model(&self) -> PlacedModel {
        PlacedModel {
            start: self.start as int,
            end: self.end as int,
            run: self.run as int,
            x: self.x as int,
            advance: self.advance as int,
            ascent: self.ascent as int,
            descent: self.descent as int,
            missing: self.missing,
            space: self.space,
            newline: self.newline,
            outcome: self.outcome,
        }
    }
}

/// One laid-out line.
pub struct Line {
    /// Text offsets of the line, in code points; trailing whitespace and
    /// a hard break stay inside the range.
    pub start: usize,
    pub end: usize,
    pub kind: LineEnd,
    pub clusters: Vec<PlacedCluster>,
    /// Clusters before the trailing whitespace.
    pub ink_count: usize,
    pub ascent: i64,
    pub descent: i64,
    pub baseline: i64,
    pub width_full: i64,
    pub width_ink: i64,
    pub x_offset: i64,
}

impl Line {
    /// The model value this line stands for.
    pub open spec fn model(&self) -> LineModel {
        LineModel {
            start: self.start as int,
            end: self.end as int,
            kind: self.kind,
            clusters: self.clusters@.map_values(|c: PlacedCluster| c.model()),
            ink_count: self.ink_count as int,
            ascent: self.ascent as int,
            descent: self.descent as int,
            baseline: self.baseline as int,
            width_full: self.width_full as int,
            width_ink: self.width_ink as int,
            x_offset: self.x_offset as int,
        }
    }
}

/// Field bounds every laid-out line satisfies.
pub open spec fn line_bounded(l: Line) -> bool {
    &&& 0 <= l.ascent <= MAX_RISE
    &&& 0 <= l.descent <= MAX_RISE
    &&& 0 <= l.baseline <= 0x20_0000_0000_0000
    &&& l.ascent <= l.baseline
    &&& 0 <= l.x_offset <= MAX_LAYOUT_WIDTH
    &&& l.ink_count <= l.clusters@.len()
    &&& 0 <= l.width_ink <= l.width_full
    &&& l.width_full <= MAX_TEXT_LEN as int * MAX_ADVANCE as int
    &&& forall|u: int| 0 <= u < l.clusters@.len() ==> cluster_bounded(#[trigger] l.clusters@[u])
}

/// Lift a line vector to its model sequence.
pub open spec fn line_models(s: Seq<Line>) -> Seq<LineModel> {
    s.map_values(|l: Line| l.model())
}

/// A laid-out paragraph: the paragraph, the width layout ran at, and the
/// lines.
pub struct LaidOut {
    pub para: Paragraph,
    pub width: i64,
    pub lines: Vec<Line>,
}

impl LaidOut {
    /// What layout promises of its result.
    pub open spec fn wf(&self) -> bool {
        &&& self.para.wf()
        &&& 0 < self.width <= MAX_LAYOUT_WIDTH
        &&& forall|i: int| 0 <= i < self.lines@.len() ==> line_bounded(#[trigger] self.lines@[i])
    }
}

/// The greedy scan at runtime.
fn scan_exec(mc: &Vec<MeasuredCluster>, width: i64, base: usize) -> (r: (usize, LineEnd))
    requires
        forall|j: int| 0 <= j < mc@.len() ==> mspan_wf(#[trigger] mc@[j].model()),
        mc@.len() <= MAX_TEXT_LEN,
        base < mc@.len(),
        0 < width <= MAX_LAYOUT_WIDTH,
    ensures
        (r.0 as int, r.1) == scan_line(models_of(mc@), width as int, base as int, base as int, 0, -1),
        base < r.0 <= mc@.len(),
{
    let ghost ms = models_of(mc@);
    proof {
        lemma_scan_bounds(ms, width as int, base as int, base as int, 0, -1);
    }
    let n = mc.len();
    let mut pos = base;
    let mut cum: i64 = 0;
    let mut opp: usize = 0;
    let mut have_opp = false;
    loop
        invariant
            base <= pos <= n,
            n == ms.len(),
            ms == models_of(mc@),
            forall|j: int| 0 <= j < ms.len() ==> mspan_wf(#[trigger] ms[j]),
            n <= MAX_TEXT_LEN,
            base < n,
            0 < width <= MAX_LAYOUT_WIDTH,
            0 <= cum <= (pos - base) * MAX_ADVANCE,
            have_opp ==> base <= opp < pos,
            scan_line(ms, width as int, base as int, base as int, 0, -1) == scan_line(
                ms,
                width as int,
                base as int,
                pos as int,
                cum as int,
                if have_opp {
                    opp as int
                } else {
                    -1
                },
            ),
        decreases n - pos,
    {
        if pos >= n {
            return (n, LineEnd::TextEnd);
        }
        let m = &mc[pos];
        proof {
            assert(ms[pos as int] == mc@[pos as int].model());
            assert((pos - base) * MAX_ADVANCE <= MAX_TEXT_LEN * MAX_ADVANCE) by (nonlinear_arith)
                requires
                    0 <= pos - base <= MAX_TEXT_LEN,
            ;
        }
        if m.newline {
            return (pos + 1, LineEnd::Hard);
        }
        if !m.space && cum + m.advance > width {
            if have_opp {
                return (opp + 1, LineEnd::Soft);
            } else {
                return (pos + 1, LineEnd::Soft);
            }
        }
        let brk = m.space || m.ideo || (pos + 1 < n && mc[pos + 1].ideo);
        proof {
            assert(pos + 1 < n ==> ms[pos as int + 1] == mc@[pos as int + 1].model());
            assert(brk == can_break_after(ms, pos as int));
            assert((pos + 1 - base) * MAX_ADVANCE == (pos - base) * MAX_ADVANCE + MAX_ADVANCE)
                by (nonlinear_arith);
        }
        cum = cum + m.advance;
        if brk {
            opp = pos;
            have_opp = true;
        }
        pos = pos + 1;
    }
}


/// Assemble one line over the cluster window `[base, e)` at runtime.
#[verifier::rlimit(100)]
fn build_line(
    mc: &Vec<MeasuredCluster>,
    base: usize,
    e: usize,
    kind: LineEnd,
    width: i64,
    top: i64,
    dm: (i64, i64),
    height_disabled: bool,
    a: Align,
    d: Direction,
    text_len: usize,
) -> (r: Line)
    requires
        forall|j: int| 0 <= j < mc@.len() ==> mspan_wf(#[trigger] mc@[j].model()),
        mc@.len() <= MAX_TEXT_LEN,
        base <= e <= mc@.len(),
        0 <= top <= 0x10_0000_0000_0000,
        0 <= dm.0 <= MAX_RISE,
        0 <= dm.1 <= MAX_RISE,
        0 < width <= MAX_LAYOUT_WIDTH,
    ensures
        r.model() == mk_line(
            models_of(mc@),
            LineSpan { start: base as int, end: e as int, kind },
            width as int,
            top as int,
            (dm.0 as int, dm.1 as int),
            height_disabled,
            a,
            d,
            text_len as int,
        ),
        0 <= r.ascent <= MAX_RISE,
        0 <= r.descent <= MAX_RISE,
        r.kind == kind,
        line_bounded(r),
{
    let ghost ms = models_of(mc@);
    proof {
        reveal(mk_line);
        lemma_sum_adv_bounds(ms, base as int, e as int);
        lemma_ink_end_bounds(ms, base as int, e as int);
        lemma_rise_bounds(ms, base as int, e as int);
    }
    let mut clusters: Vec<PlacedCluster> = Vec::new();
    let mut cum: i64 = 0;
    let mut t = base;
    while t < e
        invariant
            base <= t <= e <= mc@.len(),
            ms == models_of(mc@),
            forall|j: int| 0 <= j < ms.len() ==> mspan_wf(#[trigger] ms[j]),
            mc@.len() <= MAX_TEXT_LEN,
            cum == sum_adv(ms, base as int, t as int),
            0 <= cum <= (t - base) * MAX_ADVANCE,
            clusters@.len() == t - base,
            forall|u: int|
                0 <= u < clusters@.len() ==> (#[trigger] clusters@[u]).model() == placed_of(
                    ms,
                    base as int,
                    base + u,
                ),
            forall|u: int| 0 <= u < clusters@.len() ==> cluster_bounded(#[trigger] clusters@[u]),
        decreases e - t,
    {
        let m = &mc[t];
        proof {
            assert(ms[t as int] == mc@[t as int].model());
            assert((t - base) * MAX_ADVANCE <= MAX_TEXT_LEN * MAX_ADVANCE) by (nonlinear_arith)
                requires
                    0 <= t - base <= MAX_TEXT_LEN,
            ;
            assert((t + 1 - base) * MAX_ADVANCE == (t - base) * MAX_ADVANCE + MAX_ADVANCE)
                by (nonlinear_arith);
        }
        clusters.push(
            PlacedCluster {
                start: m.start,
                end: m.end,
                run: m.run,
                x: cum,
                advance: m.advance,
                ascent: m.ascent,
                descent: m.descent,
                missing: m.missing,
                space: m.space,
                newline: m.newline,
                outcome: m.outcome,
            },
        );
        cum = cum + m.advance;
        t = t + 1;
    }
    let w_full = cum;
    let mut k = e;
    while k > base && (mc[k - 1].space || mc[k - 1].newline)
        invariant
            base <= k <= e <= mc@.len(),
            ms == models_of(mc@),
            ink_end(ms, base as int, e as int) == ink_end(ms, base as int, k as int),
        decreases k,
    {
        proof {
            assert(ms[k as int - 1] == mc@[k as int - 1].model());
        }
        k = k - 1;
    }
    proof {
        if k > base {
            assert(ms[k as int - 1] == mc@[k as int - 1].model());
        }
        assert(ink_end(ms, base as int, k as int) == k);
    }
    let ink_count = k - base;
    let w_ink = if k == e {
        w_full
    } else {
        clusters[ink_count].x
    };
    proof {
        if k < e {
            assert(clusters@[ink_count as int].model() == placed_of(ms, base as int, k as int));
        }
        assert(w_ink == sum_adv(ms, base as int, k as int));
    }
    let (ascent, descent) = if height_disabled || e == base {
        dm
    } else {
        let mut amax: i64 = 0;
        let mut dmax: i64 = 0;
        let mut u = base;
        while u < e
            invariant
                base <= u <= e <= mc@.len(),
                ms == models_of(mc@),
                forall|j: int| 0 <= j < ms.len() ==> mspan_wf(#[trigger] ms[j]),
                amax == max_ascent(ms, base as int, u as int),
                dmax == max_descent(ms, base as int, u as int),
                0 <= amax <= MAX_RISE,
                0 <= dmax <= MAX_RISE,
            decreases e - u,
        {
            let m = &mc[u];
            proof {
                assert(ms[u as int] == mc@[u as int].model());
            }
            if m.ascent > amax {
                amax = m.ascent;
            }
            if m.descent > dmax {
                dmax = m.descent;
            }
            u = u + 1;
        }
        (amax, dmax)
    };
    let start_off = if base < mc.len() {
        proof {
            assert(ms[base as int] == mc@[base as int].model());
        }
        mc[base].start
    } else {
        text_len
    };
    let end_off = if e > base {
        proof {
            assert(ms[e as int - 1] == mc@[e as int - 1].model());
        }
        mc[e - 1].end
    } else {
        start_off
    };
    proof {
        lemma_sum_adv_bounds(ms, base as int, k as int);
        assert((k - base) * MAX_ADVANCE <= MAX_TEXT_LEN * MAX_ADVANCE) by (nonlinear_arith)
            requires
                0 <= k - base <= MAX_TEXT_LEN,
        ;
    }
    let slack_raw = width - w_ink;
    let slack = if slack_raw < 0 {
        0
    } else {
        slack_raw
    };
    let eff = match a {
        Align::Start => match d {
            Direction::Ltr => Align::Left,
            Direction::Rtl => Align::Right,
        },
        Align::End => match d {
            Direction::Ltr => Align::Right,
            Direction::Rtl => Align::Left,
        },
        other => other,
    };
    let x_offset = match eff {
        Align::Right => slack,
        Align::Center => slack / 2,
        _ => 0,
    };
    proof {
        lemma_sum_adv_mono(ms, base as int, k as int, e as int);
        assert((e - base) * MAX_ADVANCE <= MAX_TEXT_LEN * MAX_ADVANCE) by (nonlinear_arith)
            requires
                0 <= e - base <= MAX_TEXT_LEN,
        ;
    }
    let line = Line {
        start: start_off,
        end: end_off,
        kind,
        clusters,
        ink_count,
        ascent,
        descent,
        baseline: top + ascent,
        width_full: w_full,
        width_ink: w_ink,
        x_offset,
    };
    proof {
        let sp = LineSpan { start: base as int, end: e as int, kind };
        let m = mk_line(
            ms,
            sp,
            width as int,
            top as int,
            (dm.0 as int, dm.1 as int),
            height_disabled,
            a,
            d,
            text_len as int,
        );
        assert(line.model().clusters =~= m.clusters);
        assert(line.model() == m);
    }
    line
}

impl Paragraph {
    /// Lay the paragraph out at a maximum width, consuming it. Fails with
    /// `InvalidLayoutWidth` exactly when the width is not positive or is
    /// over the supported maximum; for any other input, including text no
    /// typeface covers, layout succeeds and the lines equal the layout
    /// model.
    pub fn layout(self, coll: &FontCollection, width: i64) -> (r: Result<LaidOut, EngineError>)
        requires
            self.wf(),
            coll.wf(),
        ensures
            r is Ok <==> 0 < width <= MAX_LAYOUT_WIDTH,
            r matches Err(e) ==> e == EngineError::InvalidLayoutWidth,
            r matches Ok(l) ==> l.para == self && l.width == width && l.wf() && line_models(
                l.lines@,
            ) == lines_model(self, *coll, width as int),
    {
        if width <= 0 || width > MAX_LAYOUT_WIDTH {
            return Err(EngineError::InvalidLayoutWidth);
        }
        let dm = style_metrics_exec(coll, &self.style.default_style);
        let ghost dmi = (dm.0 as int, dm.1 as int);
        let hd = self.style.height_disabled;
        let a = self.style.align;
        let d = self.style.direction;
        let text_len = self.text.len();
        let mc = measure_paragraph(&self, coll);
        let ghost ms = models_of(mc@);
        let n = mc.len();
        let mut lines: Vec<Line> = Vec::new();
        let mut base: usize = 0;
        let mut top: i64 = 0;
        while base < n
            invariant
                0 <= base <= n,
                n == mc@.len(),
                ms == models_of(mc@),
                forall|j: int| 0 <= j < mc@.len() ==> mspan_wf(#[trigger] mc@[j].model()),
                n <= MAX_TEXT_LEN,
                0 < width <= MAX_LAYOUT_WIDTH,
                0 <= dm.0 <= MAX_RISE && 0 <= dm.1 <= MAX_RISE,
                dmi == (dm.0 as int, dm.1 as int),
                text_len == self.text@.len(),
                lines@.len() <= base,
                forall|t: int| 0 <= t < lines@.len() ==> line_bounded(#[trigger] lines@[t]),
                0 <= top,
                top <= lines@.len() * (2 * MAX_RISE),
                lines@.len() > 0 ==> top == line_models(lines@).last().baseline + line_models(
                    lines@,
                ).last().descent,
                lines@.len() == 0 ==> top == 0,
                line_models(lines@) + lines_from(
                    ms,
                    width as int,
                    base as int,
                    top as int,
                    dmi,
                    hd,
                    a,
                    d,
                    text_len as int,
                ) == lines_from(ms, width as int, 0, 0, dmi, hd, a, d, text_len as int),
            decreases n - base,
        {
            proof {
                assert(lines@.len() * (2 * MAX_RISE) <= MAX_TEXT_LEN * (2 * MAX_RISE))
                    by (nonlinear_arith)
                    requires
                        0 <= lines@.len() <= MAX_TEXT_LEN,
                ;
            }
            let ghost obase = base;
            let (e, kind) = scan_exec(&mc, width, base);
            let line = build_line(&mc, base, e, kind, width, top, dm, hd, a, d, text_len);
            let ghost prior = lines@;
            let ghost ltop = top;
            top = top + line.ascent + line.descent;
            lines.push(line);
            base = e;
            proof {
                assert(line_models(lines@) =~= line_models(prior) + seq![line.model()]);
                assert((prior.len() + 1) * (2 * MAX_RISE) == prior.len() * (2 * MAX_RISE) + 2
                    * MAX_RISE) by (nonlinear_arith);
                assert(line_models(lines@).last() == line.model());
                reveal(mk_line);
                assert(line.model().baseline + line.model().descent == top);
                assert(seq![line.model()] + lines_from(
                    ms,
                    width as int,
                    base as int,
                    top as int,
                    dmi,
                    hd,
                    a,
                    d,
                    text_len as int,
                ) =~= lines_from(
                    ms,
                    width as int,
                    obase as int,
                    ltop as int,
                    dmi,
                    hd,
                    a,
                    d,
                    text_len as int,
                ));
            }
        }
        proof {
            assert(lines_from(ms, width as int, n as int, top as int, dmi, hd, a, d, text_len as int)
                =~= Seq::<LineModel>::empty());
            assert(line_models(lines@) =~= lines_from(
                ms,
                width as int,
                0,
                0,
                dmi,
                hd,
                a,
                d,
                text_len as int,
            ));
        }
        if n == 0 {
            let line = build_line(&mc, 0, 0, LineEnd::TextEnd, width, 0, dm, hd, a, d, text_len);
            let ghost prior = lines@;
            lines.push(line);
            proof {
                assert(prior.len() == 0);
                assert(line_models(lines@) =~= seq![line.model()]);
            }
        } else {
            let last_kind = lines[lines.len() - 1].kind;
            proof {
                assert(line_models(lines@).last() == lines@.last().model());
            }
            if matches!(last_kind, LineEnd::Hard) {
                let line = build_line(&mc, n, n, LineEnd::TextEnd, width, top, dm, hd, a, d, text_len);
                let ghost prior = lines@;
                lines.push(line);
                proof {
                    assert(line_models(lines@) =~= line_models(prior) + seq![line.model()]);
                }
            }
        }
        let ghost full = line_models(lines@);
        match self.style.max_lines {
            Some(m) => {
                if m < lines.len() {
                    lines.truncate(m);
                    proof {
                        assert(line_models(lines@) =~= full.take(m as int));
                    }
                }
            },
            None => {},
        }
        Ok(LaidOut { para: self, width, lines })
    }
}

} // verus!
