//! Typefaces: decoded font summaries.
//!
//! A typeface wraps what the engine reads of a decoded font: the style
//! descriptor, the design-unit grid (`units_per_em`), vertical metrics,
//! and the character-to-glyph coverage as ordered ranges. Outline data,
//! shaping tables and rasterization stay with the font back end outside
//! this crate; any compliant font parser can produce these tables.

use vstd::prelude::*;

use crate::units::{scale_to_size, scaled, MAX_FONT_SIZE, MAX_UNITS_PER_EM};
use crate::EngineError;

verus! {

/// Slant of a style descriptor.
#[derive(Clone, Copy, Debug, PartialEq, Eq, Structural)]
pub enum Slant {
    Upright,
    Italic,
    Oblique,
}

/// Weight, width and slant of a typeface, as the caller describes it at
/// registration.
#[derive(Clone, Copy, Debug, PartialEq, Eq, Structural)]
pub struct StyleDescriptor {
    /// Weight class, conventionally 100..=900 with 400 regular.
    pub weight: u32,
    /// Width class, conventionally 1..=9 with 5 normal.
    pub width: u32,
    pub slant: Slant,
}

impl StyleDescriptor {
    /// A regular upright descriptor.
    pub fn regular() -> (r: StyleDescriptor)
        ensures
            r == (StyleDescriptor { weight: 400u32, width: 5u32, slant: Slant::Upright }),
    {
        StyleDescriptor { weight: 400, width: 5, slant: Slant::Upright }
    }
}

/// One contiguous range of covered code points. Code point
/// `first_cp + k` maps to glyph `first_glyph + k`; every glyph of the
/// range advances by `advance_em` design units.
#[derive(Clone, Copy, Debug, PartialEq, Eq, Structural)]
pub struct GlyphRange {
    pub first_cp: u32,
    pub last_cp: u32,
    pub first_glyph: u32,
    pub advance_em: u32,
}

/// The tables a font parser hands over for one typeface.
#[derive(Debug)]
pub struct FontTables {
    /// Design units per em; every design-unit measure is relative to it.
    pub units_per_em: u32,
    /// Ascent above the baseline, in design units.
    pub ascent_em: u32,
    /// Descent below the baseline, in design units.
    pub descent_em: u32,
    /// Coverage ranges; the first range containing a code point decides
    /// its glyph and advance.
    pub coverage: Vec<GlyphRange>,
}

impl FontTables {
    /// Well-formed tables: a positive em grid, metrics and advances within
    /// four em, ordered ranges over valid code points, and glyph ids that
    /// stay within the 16-bit glyph space.
    pub open spec fn wf(&self) -> bool {
        &&& 1 <= self.units_per_em <= MAX_UNITS_PER_EM
        &&& self.ascent_em <= 4 * self.units_per_em
        &&& self.descent_em <= 4 * self.units_per_em
        &&& forall|i: int|
            0 <= i < self.coverage@.len() ==> range_wf(
                #[trigger] self.coverage@[i],
                self.units_per_em as int,
            )
    }
}

/// Well-formedness of one coverage range.
pub open spec fn range_wf(r: GlyphRange, units_per_em: int) -> bool {
    &&& r.first_cp <= r.last_cp <= 0x10FFFF
    &&& r.advance_em <= 4 * units_per_em
    &&& r.first_glyph + (r.last_cp - r.first_cp) <= 0xFFFF
}

/// An immutable typeface handle: the decoded summary of one font, plus the
/// caller-assigned style descriptor. Never mutated after registration.
#[derive(Debug)]
pub struct Typeface {
    pub descriptor: StyleDescriptor,
    pub tables: FontTables,
}

/// Whether a byte stream begins like a recognized font container:
/// TrueType (`0x00010000` or `true` or a `ttcf` collection), OpenType
/// (`OTTO`), or WOFF/WOFF2 (`wOFF`, `wOF2`).
pub open spec fn valid_font_container(b: Seq<u8>) -> bool {
    &&& b.len() >= 4
    &&& {
        ||| (b[0] == 0x00u8 && b[1] == 0x01u8 && b[2] == 0x00u8 && b[3] == 0x00u8)
        ||| (b[0] == 0x74u8 && b[1] == 0x72u8 && b[2] == 0x75u8 && b[3] == 0x65u8)
        ||| (b[0] == 0x74u8 && b[1] == 0x74u8 && b[2] == 0x63u8 && b[3] == 0x66u8)
        ||| (b[0] == 0x4Fu8 && b[1] == 0x54u8 && b[2] == 0x54u8 && b[3] == 0x4Fu8)
        ||| (b[0] == 0x77u8 && b[1] == 0x4Fu8 && b[2] == 0x46u8 && b[3] == 0x46u8)
        ||| (b[0] == 0x77u8 && b[1] == 0x4Fu8 && b[2] == 0x46u8 && b[3] == 0x32u8)
    }
}

/// Index of the first coverage range containing `cp`, or -1.
pub open spec fn find_range(cov: Seq<GlyphRange>, cp: int, i: int) -> int
    decreases cov.len() - i,
{
    if i < 0 || i >= cov.len() {
        -1
    } else if cov[i].first_cp <= cp <= cov[i].last_cp {
        i
    } else {
        find_range(cov, cp, i + 1)
    }
}

/// A found range index is in bounds and its range contains the code
/// point.
pub proof fn lemma_find_range_valid(cov: Seq<GlyphRange>, cp: int, i: int)
    requires
        0 <= i,
    ensures
        ({
            let r = find_range(cov, cp, i);
            r >= 0 ==> i <= r < cov.len() && cov[r].first_cp <= cp <= cov[r].last_cp
        }),
    decreases cov.len() - i,
{
    if i < cov.len() && !(cov[i].first_cp <= cp <= cov[i].last_cp) {
        lemma_find_range_valid(cov, cp, i + 1);
    }
}

impl Typeface {
    /// Well-formed typeface: well-formed tables.
    pub open spec fn wf(&self) -> bool {
        self.tables.wf()
    }

    /// Whether this typeface covers `cp`: some coverage range contains it.
    pub open spec fn spec_covers(&self, cp: char) -> bool {
        find_range(self.tables.coverage@, cp as int, 0) >= 0
    }

    /// Glyph id for `cp` under the first matching range; meaningful only
    /// when `spec_covers` holds.
    pub open spec fn spec_glyph_id(&self, cp: char) -> int {
        let i = find_range(self.tables.coverage@, cp as int, 0);
        self.tables.coverage@[i].first_glyph + (cp as int - self.tables.coverage@[i].first_cp)
    }

    /// Advance of `cp` in design units under the first matching range;
    /// meaningful only when `spec_covers` holds.
    pub open spec fn spec_advance_em(&self, cp: char) -> int {
        let i = find_range(self.tables.coverage@, cp as int, 0);
        self.tables.coverage@[i].advance_em as int
    }

    /// Decode a font byte stream into a typeface. Fails with
    /// `DecodeError` exactly when the bytes are not a recognized font
    /// container or the decoded tables are ill-formed. The byte stream's
    /// leading magic is all this summary-level decoder reads of it; the
    /// tables come from the caller's font parser.
    pub fn from_data(bytes: &Vec<u8>, descriptor: StyleDescriptor, tables: FontTables) -> (r:
        Result<Typeface, EngineError>)
        ensures
            r is Ok <==> valid_font_container(bytes@) && tables.wf(),
            r matches Ok(f) ==> f == (Typeface { descriptor, tables }),
            r matches Err(e) ==> e == EngineError::DecodeError,
    {
        if !container_check(bytes) {
            return Err(EngineError::DecodeError);
        }
        if !tables_check(&tables) {
            return Err(EngineError::DecodeError);
        }
        Ok(Typeface { descriptor, tables })
    }

    /// Glyph-coverage test: the glyph id for `cp`, or `None` when `cp` is
    /// outside the font's coverage. Never fails.
    pub fn glyph_for(&self, cp: char) -> (r: Option<u32>)
        requires
            self.wf(),
        ensures
            r is Some <==> self.spec_covers(cp),
            r matches Some(g) ==> g == self.spec_glyph_id(cp) && g <= 0xFFFF,
    {
        let u = cp as u32;
        let n = self.tables.coverage.len();
        let mut i: usize = 0;
        while i < n
            invariant
                0 <= i <= n,
                n == self.tables.coverage@.len(),
                self.wf(),
                find_range(self.tables.coverage@, cp as int, 0) == find_range(
                    self.tables.coverage@,
                    cp as int,
                    i as int,
                ),
                u == cp as u32,
            decreases n - i,
        {
            let rg = self.tables.coverage[i];
            if rg.first_cp <= u && u <= rg.last_cp {
                assert(range_wf(self.tables.coverage@[i as int], self.tables.units_per_em as int));
                return Some(rg.first_glyph + (u - rg.first_cp));
            }
            i = i + 1;
        }
        None
    }

    /// Runtime coverage test.
    pub fn covers(&self, cp: char) -> (r: bool)
        requires
            self.wf(),
        ensures
            r == self.spec_covers(cp),
    {
        self.glyph_for(cp).is_some()
    }

    /// Advance of `cp` at `size`, in layout units; `None` outside coverage.
    pub fn advance(&self, cp: char, size: i64) -> (r: Option<i64>)
        requires
            self.wf(),
            0 < size <= MAX_FONT_SIZE,
        ensures
            r is Some <==> self.spec_covers(cp),
            r matches Some(a) ==> a == scaled(
                self.spec_advance_em(cp),
                size as int,
                self.tables.units_per_em as int,
            ) && 0 <= a <= 4 * size,
    {
        let u = cp as u32;
        let n = self.tables.coverage.len();
        let mut i: usize = 0;
        while i < n
            invariant
                0 <= i <= n,
                n == self.tables.coverage@.len(),
                self.wf(),
                0 < size <= MAX_FONT_SIZE,
                find_range(self.tables.coverage@, cp as int, 0) == find_range(
                    self.tables.coverage@,
                    cp as int,
                    i as int,
                ),
                u == cp as u32,
            decreases n - i,
        {
            let rg = self.tables.coverage[i];
            if rg.first_cp <= u && u <= rg.last_cp {
                assert(range_wf(self.tables.coverage@[i as int], self.tables.units_per_em as int));
                return Some(scale_to_size(rg.advance_em, size, self.tables.units_per_em));
            }
            i = i + 1;
        }
        None
    }

    /// Ascent at `size`, in layout units.
    pub fn ascent(&self, size: i64) -> (r: i64)
        requires
            self.wf(),
            0 < size <= MAX_FONT_SIZE,
        ensures
            r == scaled(self.tables.ascent_em as int, size as int, self.tables.units_per_em as int),
            0 <= r <= 4 * size,
    {
        scale_to_size(self.tables.ascent_em, size, self.tables.units_per_em)
    }

    /// Descent at `size`, in layout units.
    pub fn descent(&self, size: i64) -> (r: i64)
        requires
            self.wf(),
            0 < size <= MAX_FONT_SIZE,
        ensures
            r == scaled(
                self.tables.descent_em as int,
                size as int,
                self.tables.units_per_em as int,
            ),
            0 <= r <= 4 * size,
    {
        scale_to_size(self.tables.descent_em, size, self.tables.units_per_em)
    }
}

/// Runtime test of [`valid_font_container`].
fn container_check(bytes: &Vec<u8>) -> (r: bool)
    ensures
        r == valid_font_container(bytes@),
{
    if bytes.len() < 4 {
        return false;
    }
    let b0 = bytes[0];
    let b1 = bytes[1];
    let b2 = bytes[2];
    let b3 = bytes[3];
    (b0 == 0x00 && b1 == 0x01 && b2 == 0x00 && b3 == 0x00) || (b0 == 0x74 && b1 == 0x72 && b2
        == 0x75 && b3 == 0x65) || (b0 == 0x74 && b1 == 0x74 && b2 == 0x63 && b3 == 0x66) || (b0
        == 0x4F && b1 == 0x54 && b2 == 0x54 && b3 == 0x4F) || (b0 == 0x77 && b1 == 0x4F && b2
        == 0x46 && b3 == 0x46) || (b0 == 0x77 && b1 == 0x4F && b2 == 0x46 && b3 == 0x32)
}

/// Runtime test of [`FontTables::wf`].
fn tables_check(tables: &FontTables) -> (r: bool)
    ensures
        r == tables.wf(),
{
    if !(1 <= tables.units_per_em && tables.units_per_em <= MAX_UNITS_PER_EM) {
        return false;
    }
    if !(tables.ascent_em <= 4 * tables.units_per_em) {
        return false;
    }
    if !(tables.descent_em <= 4 * tables.units_per_em) {
        return false;
    }
    let n = tables.coverage.len();
    let mut i: usize = 0;
    while i < n
        invariant
            0 <= i <= n,
            n == tables.coverage@.len(),
            1 <= tables.units_per_em <= MAX_UNITS_PER_EM,
            forall|j: int|
                0 <= j < i ==> range_wf(#[trigger] tables.coverage@[j], tables.units_per_em as int),
        decreases n - i,
    {
        let rg = tables.coverage[i];
        if !(rg.first_cp <= rg.last_cp && rg.last_cp <= 0x10FFFF) {
            return false;
        }
        if !(rg.advance_em <= 4 * tables.units_per_em) {
            return false;
        }
        if !(rg.first_glyph as u64 + (rg.last_cp - rg.first_cp) as u64 <= 0xFFFF) {
            return false;
        }
        i = i + 1;
    }
    true
}

} // verus!
