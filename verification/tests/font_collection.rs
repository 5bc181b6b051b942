//! Typeface decoding, coverage, and family resolution.

use textlayout::collection::{FontCollection, GlyphOutcome, ResolvedFace, TypefaceStore};
use textlayout::font::{FontTables, GlyphRange, StyleDescriptor, Typeface};
use textlayout::EngineError;

fn chars(s: &str) -> Vec<char> {
    s.chars().collect()
}

fn truetype_magic() -> Vec<u8> {
    vec![0x00, 0x01, 0x00, 0x00, 0xAB, 0xCD]
}

fn face_with(ranges: Vec<GlyphRange>) -> Typeface {
    Typeface::from_data(
        &truetype_magic(),
        StyleDescriptor::regular(),
        FontTables { units_per_em: 1000, ascent_em: 800, descent_em: 200, coverage: ranges },
    )
    .unwrap()
}

fn latin_face() -> Typeface {
    face_with(vec![
        GlyphRange { first_cp: 0x20, last_cp: 0x2FF, first_glyph: 1, advance_em: 500 },
        GlyphRange { first_cp: 0x300, last_cp: 0x36F, first_glyph: 0x2E1, advance_em: 0 },
    ])
}

#[test]
fn decode_rejects_unknown_container() {
    let bad = vec![0x01u8, 0x02, 0x03, 0x04];
    let r = Typeface::from_data(
        &bad,
        StyleDescriptor::regular(),
        FontTables { units_per_em: 1000, ascent_em: 800, descent_em: 200, coverage: vec![] },
    );
    assert_eq!(r.unwrap_err(), EngineError::DecodeError);
    let short = vec![0x00u8];
    let r2 = Typeface::from_data(
        &short,
        StyleDescriptor::regular(),
        FontTables { units_per_em: 1000, ascent_em: 800, descent_em: 200, coverage: vec![] },
    );
    assert_eq!(r2.unwrap_err(), EngineError::DecodeError);
}

#[test]
fn decode_rejects_bad_tables() {
    let r = Typeface::from_data(
        &truetype_magic(),
        StyleDescriptor::regular(),
        FontTables { units_per_em: 0, ascent_em: 0, descent_em: 0, coverage: vec![] },
    );
    assert_eq!(r.unwrap_err(), EngineError::DecodeError);
    // An advance over four em is ill-formed.
    let r2 = Typeface::from_data(
        &truetype_magic(),
        StyleDescriptor::regular(),
        FontTables {
            units_per_em: 1000,
            ascent_em: 800,
            descent_em: 200,
            coverage: vec![GlyphRange { first_cp: 65, last_cp: 90, first_glyph: 1, advance_em: 4001 }],
        },
    );
    assert_eq!(r2.unwrap_err(), EngineError::DecodeError);
}

#[test]
fn decode_accepts_woff2_container() {
    let woff2 = vec![0x77u8, 0x4F, 0x46, 0x32, 0x00];
    let r = Typeface::from_data(
        &woff2,
        StyleDescriptor::regular(),
        FontTables { units_per_em: 2048, ascent_em: 1638, descent_em: 410, coverage: vec![] },
    );
    assert!(r.is_ok());
}

#[test]
fn glyph_coverage_query() {
    let f = face_with(vec![GlyphRange {
        first_cp: 0x41,
        last_cp: 0x5A,
        first_glyph: 10,
        advance_em: 500,
    }]);
    assert_eq!(f.glyph_for('C'), Some(12));
    assert_eq!(f.glyph_for('Z'), Some(10 + 25));
    assert_eq!(f.glyph_for('c'), None);
    assert!(f.covers('A'));
    assert!(!f.covers('a'));
}

#[test]
fn scaled_advance_exact() {
    let f = latin_face();
    // 500 design units at size 100 on a 1000-unit em: 50 layout units.
    assert_eq!(f.advance('a', 100), Some(50));
    // Flooring division: 500 * 64 / 1000 = 32.
    assert_eq!(f.advance('a', 64), Some(32));
    assert_eq!(f.ascent(64), 51);
    assert_eq!(f.descent(64), 12);
}

#[test]
fn register_and_resolve_in_order() {
    let mut store = TypefaceStore::new();
    store.register_typeface(latin_face(), chars("Open Sans"));
    store.register_typeface(latin_face(), chars("Noto"));
    store.register_typeface(latin_face(), chars("Open Sans"));
    let mut c = FontCollection::new();
    c.set_asset_store(store);
    c.set_fallback(latin_face());
    // Both registrations under the alias, in registration order, before
    // any fallback entry; the fallback is not consulted when the alias
    // resolves.
    let r = c.resolve_family(&vec![chars("Open Sans")]);
    assert_eq!(r, vec![ResolvedFace::Asset(0), ResolvedFace::Asset(2)]);
    // Caller order across names.
    let r2 = c.resolve_family(&vec![chars("Noto"), chars("Open Sans")]);
    assert_eq!(
        r2,
        vec![ResolvedFace::Asset(1), ResolvedFace::Asset(0), ResolvedFace::Asset(2)]
    );
}

#[test]
fn unresolved_name_falls_back() {
    let mut store = TypefaceStore::new();
    store.register_typeface(latin_face(), chars("Real")) ;
    let mut c = FontCollection::new();
    c.set_asset_store(store);
    c.set_fallback(latin_face());
    // Nothing resolves: the fallback manager's typeface is appended.
    let r = c.resolve_family(&vec![chars("Ghost")]);
    assert_eq!(r, vec![ResolvedFace::Fallback]);
    // An empty name list consults the fallback too.
    let r2 = c.resolve_family(&vec![]);
    assert_eq!(r2, vec![ResolvedFace::Fallback]);
}

#[test]
fn fallback_disabled_skips_unresolved() {
    let mut store = TypefaceStore::new();
    store.register_typeface(latin_face(), chars("Real"));
    let mut c = FontCollection::new();
    c.set_asset_store(store);
    c.set_fallback(latin_face());
    c.disable_font_fallback();
    let r = c.resolve_family(&vec![chars("Ghost")]);
    assert_eq!(r, vec![]);
}

#[test]
fn fallback_test() {
    // Family order wins over registration order: the first family that
    // covers a code point supplies the glyph.
    let first = face_with(vec![GlyphRange {
        first_cp: 0x42,
        last_cp: 0x42,
        first_glyph: 7,
        advance_em: 600,
    }]);
    let second = face_with(vec![GlyphRange {
        first_cp: 0x41,
        last_cp: 0x5A,
        first_glyph: 1,
        advance_em: 500,
    }]);
    let mut store = TypefaceStore::new();
    store.register_typeface(first, chars("First"));
    store.register_typeface(second, chars("Second"));
    let mut c = FontCollection::new();
    c.set_asset_store(store);
    let resolved = c.resolve_family(&vec![chars("First"), chars("Second")]);
    assert_eq!(resolved, vec![ResolvedFace::Asset(0), ResolvedFace::Asset(1)]);
    match c.glyph_for(&resolved, 'A') {
        GlyphOutcome::Found { face, glyph } => {
            assert_eq!(face, ResolvedFace::Asset(1));
            assert_eq!(glyph, 1);
        },
        GlyphOutcome::NotFound => panic!("A is covered by the second family"),
    }
    match c.glyph_for(&resolved, 'B') {
        GlyphOutcome::Found { face, glyph } => {
            assert_eq!(face, ResolvedFace::Asset(0));
            assert_eq!(glyph, 7);
        },
        GlyphOutcome::NotFound => panic!("B is covered by the first family"),
    }
    assert_eq!(c.glyph_for(&resolved, '\u{4E00}'), GlyphOutcome::NotFound);
}

#[test]
fn segmentation_clusters() {
    let cl = textlayout::segment::segment_clusters(&chars("e\u{301}x\n"));
    assert_eq!(cl.len(), 3);
    assert_eq!((cl[0].start, cl[0].end), (0, 2));
    assert_eq!((cl[1].start, cl[1].end), (2, 3));
    assert_eq!((cl[2].start, cl[2].end), (3, 4));
    // A lone combining mark degrades to its own cluster.
    let lone = textlayout::segment::segment_clusters(&chars("\u{301}a"));
    assert_eq!(lone.len(), 2);
    assert_eq!((lone[0].start, lone[0].end), (0, 1));
}
