//! Layout, line breaking, metrics and geometry queries, end to end.

use textlayout::collection::{FontCollection, GlyphOutcome, ResolvedFace, TypefaceStore};
use textlayout::font::{FontTables, GlyphRange, StyleDescriptor, Typeface};
use textlayout::geometry::{RectHeightStyle, RectWidthStyle};
use textlayout::layout::{LaidOut, LineEnd};
use textlayout::paragraph::ParagraphBuilder;
use textlayout::style::{Align, Color, Direction, ParagraphStyle, TextStyle};
use textlayout::EngineError;

fn chars(s: &str) -> Vec<char> {
    s.chars().collect()
}

fn face_with(ranges: Vec<GlyphRange>) -> Typeface {
    Typeface::from_data(
        &vec![0x00, 0x01, 0x00, 0x00],
        StyleDescriptor::regular(),
        FontTables { units_per_em: 1000, ascent_em: 800, descent_em: 200, coverage: ranges },
    )
    .unwrap()
}

fn latin_face() -> Typeface {
    face_with(vec![
        GlyphRange { first_cp: 0x20, last_cp: 0x2FF, first_glyph: 1, advance_em: 500 },
        GlyphRange { first_cp: 0x300, last_cp: 0x36F, first_glyph: 0x2E1, advance_em: 0 },
    ])
}

fn latin_collection() -> FontCollection {
    let mut store = TypefaceStore::new();
    store.register_typeface(latin_face(), chars("F"));
    let mut c = FontCollection::new();
    c.set_asset_store(store);
    c
}

fn styled(size: i64, spacing: i64) -> ParagraphStyle {
    let mut ts = TextStyle::new();
    ts.set_color(Color::from_rgb(0, 0, 0));
    ts.set_font_size(size);
    ts.set_letter_spacing(spacing);
    ts.set_font_families(vec![chars("F")]);
    let mut ps = ParagraphStyle::new();
    ps.set_text_style(ts);
    ps
}

fn lay(text: &str, size: i64, spacing: i64, width: i64) -> LaidOut {
    let mut b = ParagraphBuilder::new(styled(size, spacing));
    b.add_text(&chars(text));
    b.build().layout(&latin_collection(), width).unwrap()
}

#[test]
fn invalid_layout_width() {
    let mut b = ParagraphBuilder::new(styled(64, 0));
    b.add_text(&chars("a"));
    match b.build().layout(&latin_collection(), 0) {
        Err(e) => assert_eq!(e, EngineError::InvalidLayoutWidth),
        Ok(_) => panic!("zero width must be rejected"),
    }
    let mut b2 = ParagraphBuilder::new(styled(64, 0));
    b2.add_text(&chars("a"));
    match b2.build().layout(&latin_collection(), -5) {
        Err(e) => assert_eq!(e, EngineError::InvalidLayoutWidth),
        Ok(_) => panic!("negative width must be rejected"),
    }
}

#[test]
fn empty_paragraph_single_line() {
    let laid = lay("", 64, 0, 500);
    let lm = laid.line_metrics();
    assert_eq!(lm.len(), 1);
    assert_eq!(lm[0].start_index, 0);
    assert_eq!(lm[0].end_index, 0);
    assert_eq!(lm[0].width, 0);
    assert!(matches!(laid.lines[0].kind, LineEnd::TextEnd));
    // An empty line takes the default style's metrics.
    assert_eq!(lm[0].ascent, 51);
    assert_eq!(lm[0].descent, 12);
}

#[test]
fn trailing_newline_keeps_empty_line() {
    let laid = lay("1\n", 64, 0, 500);
    let lm = laid.line_metrics();
    assert_eq!(lm.len(), 2);
    assert!(matches!(laid.lines[0].kind, LineEnd::Hard));
    assert_eq!(lm[0].start_index, 0);
    assert_eq!(lm[0].end_index, 2);
    assert_eq!(lm[1].start_index, 2);
    assert_eq!(lm[1].end_index, 2);
    assert!(matches!(laid.lines[1].kind, LineEnd::TextEnd));
}

#[test]
fn text_positioning() {
    // "ab cd" at 64: five clusters of 32 each on one line.
    let laid = lay("ab cd", 64, 0, 1000);
    assert_eq!(laid.lines.len(), 1);
    let l = &laid.lines[0];
    assert_eq!(l.clusters.len(), 5);
    let xs: Vec<i64> = l.clusters.iter().map(|c| c.x).collect();
    assert_eq!(xs, vec![0, 32, 64, 96, 128]);
    assert_eq!(l.width_full, 160);
    assert_eq!(l.width_ink, 160);
    assert_eq!(l.baseline, 51);
}

#[test]
fn text_wrapping() {
    // Width fits exactly two 32-unit clusters; a space is the only break
    // opportunity.
    let laid = lay("ab cd", 64, 0, 64);
    let lm = laid.line_metrics();
    assert_eq!(lm.len(), 2);
    // Line 1 carries "ab " with the trailing space hanging past the edge.
    assert_eq!(lm[0].start_index, 0);
    assert_eq!(lm[0].end_index, 3);
    assert_eq!(lm[0].width, 64);
    assert_eq!(lm[1].start_index, 3);
    assert_eq!(lm[1].end_index, 5);
    assert!(matches!(laid.lines[0].kind, LineEnd::Soft));
    assert!(matches!(laid.lines[1].kind, LineEnd::TextEnd));
}

#[test]
fn no_end_line_break_wrapping() {
    // No trailing newline: the last line ends with the text.
    let laid = lay("Lorem ipsum", 64, 0, 224);
    let lm = laid.line_metrics();
    assert_eq!(lm.len(), 2);
    assert_eq!(lm[0].end_index, 6);
    assert_eq!(lm[1].end_index, 11);
    assert!(matches!(laid.lines[1].kind, LineEnd::TextEnd));
}

#[test]
fn multi_line_end_spaces() {
    // Trailing spaces before a break stay inside the line's offset range
    // but never stretch its ink width.
    let laid = lay("Two lines with spaces  at the ends \n", 64, 0, 242);
    let lm = laid.line_metrics();
    assert_eq!(lm.len(), 7);
    assert_eq!(lm[0].end_index, 4); // "Two " keeps its space...
    assert_eq!(lm[0].width, 96); // ...but measures three glyphs.
    assert_eq!(lm[3].start_index, 15); // "spaces  " keeps both spaces...
    assert_eq!(lm[3].end_index, 23);
    assert_eq!(lm[3].width, 192); // ...but measures six glyphs.
    assert_eq!(lm[5].end_index, 36); // hard break inside the range
    assert_eq!(lm[6].start_index, 36); // and a final empty line after it.
    // Tight boxes for the first line stop at the last visible glyph.
    let boxes = laid.rects_for_range(0, 4, RectHeightStyle::Max, RectWidthStyle::Tight);
    assert_eq!(boxes.len(), 1);
    assert_eq!(boxes[0].left, 0);
    assert_eq!(boxes[0].right, 96);
}

#[test]
fn full_range_extrema() {
    // The union of full-range Tight boxes spans exactly the paragraph's
    // ink extent.
    let laid = lay("Two lines with spaces  at the ends \n", 64, 0, 242);
    let boxes = laid.rects_for_range(0, 36, RectHeightStyle::Max, RectWidthStyle::Tight);
    assert!(boxes.len() > 0);
    let min_left = boxes.iter().map(|b| b.left).min().unwrap();
    let max_right = boxes.iter().map(|b| b.right).max().unwrap();
    assert_eq!(min_left, 0);
    // The widest ink is "spaces" and "at the", six glyphs each.
    assert_eq!(max_right, 192);
    let widest = laid.line_metrics().iter().map(|m| m.width).max().unwrap();
    assert_eq!(max_right, widest);
}

#[test]
fn layout_deterministic() {
    let a = lay("Lorem ipsum dolor\nsit amet", 64, 3, 242);
    let b = lay("Lorem ipsum dolor\nsit amet", 64, 3, 242);
    assert_eq!(a.line_metrics(), b.line_metrics());
    let ba = a.rects_for_range(0, 26, RectHeightStyle::Tight, RectWidthStyle::Tight);
    let bb = b.rects_for_range(0, 26, RectHeightStyle::Tight, RectWidthStyle::Tight);
    assert_eq!(ba, bb);
}

#[test]
fn letter_spacing() {
    // Spacing is added once per cluster: base plus combining mark advance
    // exactly one increment over the bare glyph.
    let plain = lay("e", 64, 10, 500);
    let accented = lay("e\u{301}", 64, 10, 500);
    assert_eq!(plain.line_metrics()[0].width, 42);
    assert_eq!(accented.line_metrics()[0].width, 42);
    assert_eq!(accented.lines[0].clusters.len(), 1);
    let two = lay("ee", 64, 10, 500);
    assert_eq!(two.line_metrics()[0].width, 84);
}

#[test]
fn text_shifting_after_accent() {
    // The cluster after an accented cluster starts one advance further,
    // not two: the mark adds nothing.
    let laid = lay("e\u{301}x", 64, 20, 500);
    let l = &laid.lines[0];
    assert_eq!(l.clusters.len(), 2);
    assert_eq!(l.clusters[0].x, 0);
    assert_eq!(l.clusters[1].x, 52);
    assert_eq!(l.width_full, 104);
}

#[test]
fn negative_letter_spacing_floors_at_zero() {
    let laid = lay("a", 64, -100, 500);
    assert_eq!(laid.line_metrics()[0].width, 0);
}

#[test]
fn totally_missing_glyphs() {
    // Strict mode: fallback disabled, one of the two ideographs uncovered.
    // Layout succeeds and reports the missing coverage.
    let a = face_with(vec![GlyphRange {
        first_cp: 0x4E00,
        last_cp: 0x4E00,
        first_glyph: 1,
        advance_em: 1000,
    }]);
    let b = face_with(vec![GlyphRange {
        first_cp: 0x41,
        last_cp: 0x5A,
        first_glyph: 1,
        advance_em: 500,
    }]);
    let mut store = TypefaceStore::new();
    store.register_typeface(a, chars("Test"));
    store.register_typeface(b, chars("Fallback"));
    let mut c = FontCollection::new();
    c.set_asset_store(store);
    c.disable_font_fallback();
    let mut ts = TextStyle::new();
    ts.set_font_size(40);
    ts.set_font_families(vec![chars("Test"), chars("Fallback")]);
    let mut ps = ParagraphStyle::new();
    ps.set_text_style(ts);
    let mut builder = ParagraphBuilder::new(ps);
    builder.add_text(&chars("\u{4E00}\u{9FEF}"));
    let laid = builder.build().layout(&c, 320).unwrap();
    let l = &laid.lines[0];
    assert_eq!(l.clusters.len(), 2);
    assert!(!l.clusters[0].missing);
    assert!(matches!(
        l.clusters[0].outcome,
        GlyphOutcome::Found { face: ResolvedFace::Asset(0), .. }
    ));
    assert!(l.clusters[1].missing);
    assert!(matches!(l.clusters[1].outcome, GlyphOutcome::NotFound));
    // The missing cluster takes a half-em box: 40 / 2.
    assert_eq!(l.clusters[1].advance, 20);
}

#[test]
fn system_font_fallback() {
    // No families named: the system fallback manager's typeface serves.
    let mut c = FontCollection::new();
    c.set_fallback(latin_face());
    let mut ps = ParagraphStyle::new();
    let mut ts = TextStyle::new();
    ts.set_font_size(64);
    ps.set_text_style(ts);
    let mut b = ParagraphBuilder::new(ps);
    b.add_text(&chars("ab"));
    let laid = b.build().layout(&c, 500).unwrap();
    let l = &laid.lines[0];
    assert!(!l.clusters[0].missing);
    assert!(matches!(
        l.clusters[0].outcome,
        GlyphOutcome::Found { face: ResolvedFace::Fallback, .. }
    ));
    assert_eq!(l.width_full, 64);
}

#[test]
fn missing_glyph_box_without_fallback() {
    // Fallback enabled but no manager attached: the uncovered cluster
    // degrades to a half-em missing-glyph box.
    let laid = lay("\u{4E00}", 64, 0, 500);
    let l = &laid.lines[0];
    assert!(l.clusters[0].missing);
    assert_eq!(l.clusters[0].advance, 32);
}

#[test]
fn mixed_sizes_use_max_metrics() {
    // One line, two runs of different sizes: the line takes the maxima.
    let mut b = ParagraphBuilder::new(styled(64, 0));
    b.add_text(&chars("a"));
    let mut big = TextStyle::new();
    big.set_font_size(128);
    big.set_font_families(vec![chars("F")]);
    b.push_style(big);
    b.add_text(&chars("b"));
    let laid = b.build().layout(&latin_collection(), 1000).unwrap();
    let lm = laid.line_metrics();
    assert_eq!(lm.len(), 1);
    assert_eq!(lm[0].ascent, 102);
    assert_eq!(lm[0].descent, 25);
    assert_eq!(lm[0].baseline, 102);
}

#[test]
fn disabled_height_uses_default_metrics() {
    let mut ps = styled(64, 0);
    ps.set_height_disabled(true);
    let mut b = ParagraphBuilder::new(ps);
    b.add_text(&chars("a"));
    let mut big = TextStyle::new();
    big.set_font_size(128);
    big.set_font_families(vec![chars("F")]);
    b.push_style(big);
    b.add_text(&chars("b"));
    let laid = b.build().layout(&latin_collection(), 1000).unwrap();
    let lm = laid.line_metrics();
    // Default-style metrics at size 64, whatever the runs measure; the
    // advances still come from each run's own size.
    assert_eq!(lm[0].ascent, 51);
    assert_eq!(lm[0].descent, 12);
    assert_eq!(laid.lines[0].width_full, 32 + 64);
}

#[test]
fn oversized_cluster_alone() {
    // A cluster wider than the width lands alone on its line; nothing
    // loops and nothing is dropped.
    let laid = lay("aa", 64, 0, 10);
    let lm = laid.line_metrics();
    assert_eq!(lm.len(), 2);
    assert_eq!(lm[0].end_index, 1);
    assert_eq!(lm[1].end_index, 2);
    assert_eq!(lm[0].width, 32);
    assert!(matches!(laid.lines[0].kind, LineEnd::Soft));
}

#[test]
fn ideographic_break_between_clusters() {
    // Break-anywhere script: two ideographs wrap without any space.
    let cjk = face_with(vec![GlyphRange {
        first_cp: 0x4E00,
        last_cp: 0x9FFF,
        first_glyph: 1,
        advance_em: 1000,
    }]);
    let mut store = TypefaceStore::new();
    store.register_typeface(cjk, chars("F"));
    let mut c = FontCollection::new();
    c.set_asset_store(store);
    let mut b = ParagraphBuilder::new(styled(64, 0));
    b.add_text(&chars("\u{4E00}\u{4E8C}\u{4E09}"));
    let laid = b.build().layout(&c, 140).unwrap();
    // Each ideograph advances a full em (64): two fit in 140.
    let lm = laid.line_metrics();
    assert_eq!(lm.len(), 2);
    assert_eq!(lm[0].end_index, 2);
    assert_eq!(lm[1].end_index, 3);
}

#[test]
fn baselines_accumulate() {
    let laid = lay("a\nb", 64, 0, 500);
    let lm = laid.line_metrics();
    assert_eq!(lm.len(), 2);
    assert_eq!(lm[0].baseline, 51);
    assert_eq!(lm[1].baseline, 51 + 12 + 51);
}

#[test]
fn max_lines_cap() {
    let mut ps = styled(64, 0);
    ps.set_max_lines(Some(2));
    let mut b = ParagraphBuilder::new(ps);
    b.add_text(&chars("a\nb\nc"));
    let laid = b.build().layout(&latin_collection(), 500).unwrap();
    assert_eq!(laid.line_metrics().len(), 2);
    assert_eq!(laid.line_metrics()[1].start_index, 2);
}

#[test]
fn center_and_right_alignment() {
    let mut ps = styled(64, 0);
    ps.set_align(Align::Center);
    let mut b = ParagraphBuilder::new(ps);
    b.add_text(&chars("ab"));
    let laid = b.build().layout(&latin_collection(), 100).unwrap();
    assert_eq!(laid.lines[0].x_offset, 18);

    let mut ps2 = styled(64, 0);
    ps2.set_align(Align::Right);
    let mut b2 = ParagraphBuilder::new(ps2);
    b2.add_text(&chars("ab"));
    let laid2 = b2.build().layout(&latin_collection(), 100).unwrap();
    assert_eq!(laid2.lines[0].x_offset, 36);

    // Start resolves against the direction.
    let mut ps3 = styled(64, 0);
    ps3.set_direction(Direction::Rtl);
    let mut b3 = ParagraphBuilder::new(ps3);
    b3.add_text(&chars("ab"));
    let laid3 = b3.build().layout(&latin_collection(), 100).unwrap();
    assert_eq!(laid3.lines[0].x_offset, 36);
}

#[test]
fn rect_width_styles_differ() {
    // Max keeps one box per cluster, trailing whitespace included; Tight
    // merges same-run neighbors and drops trailing whitespace.
    let laid = lay("ab \n", 64, 0, 500);
    let max_boxes = laid.rects_for_range(0, 4, RectHeightStyle::Max, RectWidthStyle::Max);
    assert_eq!(max_boxes.len(), 4);
    assert_eq!(max_boxes[2].left, 64);
    assert_eq!(max_boxes[2].right, 96);
    let tight_boxes = laid.rects_for_range(0, 4, RectHeightStyle::Max, RectWidthStyle::Tight);
    assert_eq!(tight_boxes.len(), 1);
    assert_eq!(tight_boxes[0].left, 0);
    assert_eq!(tight_boxes[0].right, 64);
}

#[test]
fn rect_height_styles_differ() {
    let mut b = ParagraphBuilder::new(styled(64, 0));
    b.add_text(&chars("a"));
    let mut big = TextStyle::new();
    big.set_font_size(128);
    big.set_font_families(vec![chars("F")]);
    b.push_style(big);
    b.add_text(&chars("b"));
    let laid = b.build().layout(&latin_collection(), 1000).unwrap();
    // Max: both boxes span the whole line; Tight: each box spans its own
    // cluster's metrics around the shared baseline.
    let max_boxes = laid.rects_for_range(0, 2, RectHeightStyle::Max, RectWidthStyle::Max);
    assert_eq!(max_boxes[0].top, 0);
    assert_eq!(max_boxes[0].bottom, 127);
    assert_eq!(max_boxes[1].top, 0);
    assert_eq!(max_boxes[1].bottom, 127);
    let tight_boxes = laid.rects_for_range(0, 2, RectHeightStyle::Tight, RectWidthStyle::Max);
    assert_eq!(tight_boxes[0].top, 102 - 51);
    assert_eq!(tight_boxes[0].bottom, 102 + 12);
    assert_eq!(tight_boxes[1].top, 0);
    assert_eq!(tight_boxes[1].bottom, 127);
}

#[test]
fn metrics_for_style_span() {
    // Querying style metrics for a line's own range is a plain bounded
    // query; it can never step outside the text.
    let laid = lay("Lorem ipsum dolor sit amet\n", 64, 0, 100);
    let lm = laid.line_metrics();
    let spans = laid
        .style_metrics_for_range(lm[0].start_index, lm[0].end_index)
        .unwrap();
    assert_eq!(spans.len(), 1);
    assert_eq!(spans[0].start, lm[0].start_index);
    assert_eq!(spans[0].end, lm[0].end_index);
}

#[test]
fn style_metrics_out_of_bounds() {
    let laid = lay("ab", 64, 0, 500);
    assert_eq!(
        laid.style_metrics_for_range(2, 1).unwrap_err(),
        EngineError::OutOfBoundsRange
    );
    assert_eq!(
        laid.style_metrics_for_range(0, 3).unwrap_err(),
        EngineError::OutOfBoundsRange
    );
    assert!(laid.style_metrics_for_range(0, 2).is_ok());
}

#[test]
fn spaces_with_different_style() {
    // A style change splits runs; identical styles merge into one run.
    let mut b = ParagraphBuilder::new(styled(64, 0));
    b.add_text(&chars("Lorem ipsum "));
    let mut bold = TextStyle::new();
    bold.set_font_size(64);
    bold.set_font_families(vec![chars("F")]);
    bold.set_letter_spacing(1);
    b.push_style(bold);
    b.add_text(&chars("   \n"));
    let laid = b.build().layout(&latin_collection(), 1000).unwrap();
    let spans = laid.style_metrics_for_range(0, 16).unwrap();
    assert_eq!(spans.len(), 2);
    assert_eq!((spans[0].start, spans[0].end), (0, 12));
    assert_eq!((spans[1].start, spans[1].end), (12, 16));
    // The styled trailing spaces stay inside the line range but out of
    // the ink width.
    let lm = laid.line_metrics();
    assert_eq!(lm[0].end_index, 16);
    assert_eq!(lm[0].width, 11 * 32);
}

#[test]
fn builder_merges_identical_styles() {
    let mut b = ParagraphBuilder::new(styled(64, 0));
    b.add_text(&chars("ab"));
    b.add_text(&chars("cd"));
    // An empty append records no run.
    b.add_text(&chars(""));
    // A pushed style never followed by text contributes no run either.
    let mut unused = TextStyle::new();
    unused.set_font_size(30);
    b.push_style(unused);
    let laid = b.build().layout(&latin_collection(), 500).unwrap();
    let spans = laid.style_metrics_for_range(0, 4).unwrap();
    assert_eq!(spans.len(), 1);
    assert_eq!((spans[0].start, spans[0].end), (0, 4));
}

#[test]
fn locale_splits_runs() {
    // Styles differing only in locale are not mergeable.
    let mut b = ParagraphBuilder::new(styled(64, 0));
    b.add_text(&chars("ab"));
    let mut ja = TextStyle::new();
    ja.set_font_size(64);
    ja.set_font_families(vec![chars("F")]);
    ja.set_locale(chars("ja-JP"));
    b.push_style(ja);
    b.add_text(&chars("cd"));
    let laid = b.build().layout(&latin_collection(), 500).unwrap();
    let spans = laid.style_metrics_for_range(0, 4).unwrap();
    assert_eq!(spans.len(), 2);
}

#[test]
fn run_style_resolves_spans() {
    let mut b = ParagraphBuilder::new(styled(64, 0));
    b.add_text(&chars("ab"));
    let mut big = TextStyle::new();
    big.set_font_size(128);
    big.set_font_families(vec![chars("F")]);
    b.push_style(big);
    b.add_text(&chars("cd"));
    let p = b.build();
    let laid = p.layout(&latin_collection(), 500).unwrap();
    let spans = laid.style_metrics_for_range(0, 4).unwrap();
    assert_eq!(laid.para.run_style(spans[0].run).font_size, 64);
    assert_eq!(laid.para.run_style(spans[1].run).font_size, 128);
}

#[test]
fn mixed_fallback_metrics_in_one_run() {
    // One run, one family list: fallback substitution mixes typefaces
    // with different metrics on one line, and the line takes the maxima.
    let small = face_with(vec![GlyphRange {
        first_cp: 0x61,
        last_cp: 0x7A,
        first_glyph: 1,
        advance_em: 500,
    }]);
    let tall = Typeface::from_data(
        &vec![0x00, 0x01, 0x00, 0x00],
        StyleDescriptor::regular(),
        FontTables {
            units_per_em: 1000,
            ascent_em: 1600,
            descent_em: 400,
            coverage: vec![GlyphRange {
                first_cp: 0x4E00,
                last_cp: 0x9FFF,
                first_glyph: 1,
                advance_em: 1000,
            }],
        },
    )
    .unwrap();
    let mut store = TypefaceStore::new();
    store.register_typeface(small, chars("A"));
    store.register_typeface(tall, chars("B"));
    let mut c = FontCollection::new();
    c.set_asset_store(store);
    let mut ts = TextStyle::new();
    ts.set_font_size(64);
    ts.set_font_families(vec![chars("A"), chars("B")]);
    let mut ps = ParagraphStyle::new();
    ps.set_text_style(ts);
    let mut b = ParagraphBuilder::new(ps);
    b.add_text(&chars("a\u{4E00}"));
    let laid = b.build().layout(&c, 1000).unwrap();
    let lm = laid.line_metrics();
    assert_eq!(lm.len(), 1);
    // 'a' measures 51/12 from the first typeface; the ideograph measures
    // 102/25 from the fallback within the same run.
    assert_eq!(laid.lines[0].clusters[0].ascent, 51);
    assert_eq!(laid.lines[0].clusters[1].ascent, 102);
    assert_eq!(lm[0].ascent, 102);
    assert_eq!(lm[0].descent, 25);
}
