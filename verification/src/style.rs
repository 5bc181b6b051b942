//! Text styles and paragraph-level options.
//!
//! A text style is a value type; two styles are run-mergeable only when
//! they are identical field for field. Paragraph options carry direction,
//! alignment, a line cap and the height behavior, plus the default style
//! that uncovered text and empty lines fall back to.

use vstd::prelude::*;

use crate::units::{MAX_FONT_SIZE, MAX_LETTER_SPACING};
use crate::chars::chars_eq;

verus! {

/// An opaque RGB color.
#[derive(Clone, Copy, Debug, PartialEq, Eq, Structural)]
pub struct Color {
    pub r: u8,
    pub g: u8,
    pub b: u8,
}

impl Color {
    pub fn from_rgb(r: u8, g: u8, b: u8) -> (c: Color)
        ensures
            c == (Color { r, g, b }),
    {
        Color { r, g, b }
    }
}

/// One named font-feature toggle.
pub struct FontFeature {
    pub name: Vec<char>,
    pub on: bool,
}

/// Style attributes of a run of text. Mergeable only when identical.
pub struct TextStyle {
    pub color: Color,
    /// Foreground paint override; `None` paints with `color`.
    pub foreground: Option<Color>,
    /// Font size in layout units; positive.
    pub font_size: i64,
    /// Family-name priority list; first match wins.
    pub families: Vec<Vec<char>>,
    /// Added once per grapheme cluster; may be negative.
    pub letter_spacing: i64,
    /// Locale tag, as code points.
    pub locale: Vec<char>,
    pub features: Vec<FontFeature>,
}

/// Default font size, in layout units.
pub const DEFAULT_FONT_SIZE: i64 = 896;

/// Field-for-field equality of two feature toggles.
pub open spec fn feature_eq(a: FontFeature, b: FontFeature) -> bool {
    a.name@ == b.name@ && a.on == b.on
}

/// Field-for-field equality of two styles: the run-merge criterion.
pub open spec fn style_eq(a: TextStyle, b: TextStyle) -> bool {
    &&& a.color == b.color
    &&& a.foreground == b.foreground
    &&& a.font_size == b.font_size
    &&& a.families@.len() == b.families@.len()
    &&& forall|i: int| 0 <= i < a.families@.len() ==> a.families@[i]@ == #[trigger] b.families@[i]@
    &&& a.letter_spacing == b.letter_spacing
    &&& a.locale@ == b.locale@
    &&& a.features@.len() == b.features@.len()
    &&& forall|i: int| 0 <= i < a.features@.len() ==> feature_eq(a.features@[i], #[trigger] b.features@[i])
}

impl TextStyle {
    /// Size and spacing within the layout-unit bounds.
    pub open spec fn wf(&self) -> bool {
        &&& 0 < self.font_size <= MAX_FONT_SIZE
        &&& -MAX_LETTER_SPACING <= self.letter_spacing <= MAX_LETTER_SPACING
    }

    /// The default style: black, default size, no families, no spacing.
    pub fn new() -> (r: TextStyle)
        ensures
            r.color == (Color { r: 0u8, g: 0u8, b: 0u8 }),
            r.foreground is None,
            r.font_size == DEFAULT_FONT_SIZE,
            r.families@.len() == 0,
            r.letter_spacing == 0,
            r.locale@.len() == 0,
            r.features@.len() == 0,
            r.wf(),
    {
        TextStyle {
            color: Color { r: 0, g: 0, b: 0 },
            foreground: None,
            font_size: DEFAULT_FONT_SIZE,
            families: Vec::new(),
            letter_spacing: 0,
            locale: Vec::new(),
            features: Vec::new(),
        }
    }

    pub fn set_color(&mut self, color: Color)
        ensures
            *final(self) == (TextStyle { color, ..*old(self) }),
    {
        self.color = color;
    }

    pub fn set_foreground(&mut self, paint: Option<Color>)
        ensures
            *final(self) == (TextStyle { foreground: paint, ..*old(self) }),
    {
        self.foreground = paint;
    }

    pub fn set_font_size(&mut self, size: i64)
        requires
            0 < size <= MAX_FONT_SIZE,
        ensures
            *final(self) == (TextStyle { font_size: size, ..*old(self) }),
    {
        self.font_size = size;
    }

    pub fn set_font_families(&mut self, families: Vec<Vec<char>>)
        ensures
            *final(self) == (TextStyle { families, ..*old(self) }),
    {
        self.families = families;
    }

    pub fn set_letter_spacing(&mut self, spacing: i64)
        requires
            -MAX_LETTER_SPACING <= spacing <= MAX_LETTER_SPACING,
        ensures
            *final(self) == (TextStyle { letter_spacing: spacing, ..*old(self) }),
    {
        self.letter_spacing = spacing;
    }

    pub fn set_locale(&mut self, locale: Vec<char>)
        ensures
            *final(self) == (TextStyle { locale, ..*old(self) }),
    {
        self.locale = locale;
    }

    /// Append one feature toggle.
    pub fn add_font_feature(&mut self, name: Vec<char>, on: bool)
        ensures
            final(self).features@ == old(self).features@.push(FontFeature { name, on }),
            *final(self) == (TextStyle { features: final(self).features, ..*old(self) }),
    {
        self.features.push(FontFeature { name, on });
    }

    /// Runtime test of [`style_eq`].
    pub fn same_style(&self, other: &TextStyle) -> (r: bool)
        ensures
            r == style_eq(*self, *other),
    {
        if !(self.color == other.color) {
            return false;
        }
        match (&self.foreground, &other.foreground) {
            (Some(a), Some(b)) => {
                if !(*a == *b) {
                    return false;
                }
            },
            (None, None) => {},
            _ => {
                return false;
            },
        }
        if self.font_size != other.font_size {
            return false;
        }
        if self.letter_spacing != other.letter_spacing {
            return false;
        }
        if !chars_eq(&self.locale, &other.locale) {
            return false;
        }
        if self.families.len() != other.families.len() {
            return false;
        }
        let n = self.families.len();
        let mut i: usize = 0;
        while i < n
            invariant
                0 <= i <= n,
                n == self.families@.len() && n == other.families@.len(),
                forall|j: int| 0 <= j < i ==> self.families@[j]@ == #[trigger] other.families@[j]@,
            decreases n - i,
        {
            if !chars_eq(&self.families[i], &other.families[i]) {
                return false;
            }
            i = i + 1;
        }
        if self.features.len() != other.features.len() {
            return false;
        }
        let m = self.features.len();
        let mut k: usize = 0;
        while k < m
            invariant
                0 <= k <= m,
                m == self.features@.len() && m == other.features@.len(),
                forall|j: int|
                    0 <= j < k ==> feature_eq(self.features@[j], #[trigger] other.features@[j]),
            decreases m - k,
        {
            if !chars_eq(&self.features[k].name, &other.features[k].name) {
                return false;
            }
            if self.features[k].on != other.features[k].on {
                return false;
            }
            k = k + 1;
        }
        true
    }
}

/// Base direction of the paragraph.
#[derive(Clone, Copy, Debug, PartialEq, Eq, Structural)]
pub enum Direction {
    Ltr,
    Rtl,
}

/// Horizontal alignment of each line within the layout width. `Start` and
/// `End` resolve against the paragraph direction.
#[derive(Clone, Copy, Debug, PartialEq, Eq, Structural)]
pub enum Align {
    Left,
    Center,
    Right,
    Start,
    End,
}

/// Paragraph-level options plus the default text style.
pub struct ParagraphStyle {
    pub direction: Direction,
    pub align: Align,
    /// Keep at most this many lines of the laid-out result.
    pub max_lines: Option<usize>,
    /// Disable all height adjustments: every line takes the default
    /// style's ascent and descent, ignoring per-run font metrics for
    /// spacing (but not for advances).
    pub height_disabled: bool,
    /// The style text falls back to outside any pushed style, and the
    /// source of metrics for empty lines.
    pub default_style: TextStyle,
}

impl ParagraphStyle {
    /// Defaults: left-to-right, start-aligned, no line cap, per-run
    /// heights, default text style.
    pub fn new() -> (r: ParagraphStyle)
        ensures
            r.direction == Direction::Ltr,
            r.align == Align::Start,
            r.max_lines is None,
            !r.height_disabled,
            style_eq(r.default_style, r.default_style),
            r.default_style.wf(),
            r.default_style.families@.len() == 0,
            r.wf(),
    {
        ParagraphStyle {
            direction: Direction::Ltr,
            align: Align::Start,
            max_lines: None,
            height_disabled: false,
            default_style: TextStyle::new(),
        }
    }

    /// Well-formed options: a well-formed default style.
    pub open spec fn wf(&self) -> bool {
        self.default_style.wf()
    }

    pub fn set_direction(&mut self, direction: Direction)
        ensures
            *final(self) == (ParagraphStyle { direction, ..*old(self) }),
    {
        self.direction = direction;
    }

    pub fn set_align(&mut self, align: Align)
        ensures
            *final(self) == (ParagraphStyle { align, ..*old(self) }),
    {
        self.align = align;
    }

    pub fn set_max_lines(&mut self, max_lines: Option<usize>)
        ensures
            *final(self) == (ParagraphStyle { max_lines, ..*old(self) }),
    {
        self.max_lines = max_lines;
    }

    pub fn set_height_disabled(&mut self, height_disabled: bool)
        ensures
            *final(self) == (ParagraphStyle { height_disabled, ..*old(self) }),
    {
        self.height_disabled = height_disabled;
    }

    /// Set the default text style.
    pub fn set_text_style(&mut self, style: TextStyle)
        requires
            style.wf(),
        ensures
            *final(self) == (ParagraphStyle { default_style: style, ..*old(self) }),
    {
        self.default_style = style;
    }
}

} // verus!
