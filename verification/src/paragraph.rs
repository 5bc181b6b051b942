//! The style-run text model: a cooperative builder and the immutable
//! paragraph it produces.
//!
//! The builder keeps a stack of active styles; appended text records a run
//! tagged with the style on top of the stack (or the paragraph default
//! when the stack is empty), merging with the previous run when the styles
//! are identical. Runs partition the text contiguously with no gaps, no
//! overlaps and no zero-length runs. Pushed styles live in a table; runs
//! and the stack refer to them by index, so one style value serves any
//! number of runs.

use vstd::prelude::*;

use crate::style::{style_eq, ParagraphStyle, TextStyle};
use crate::units::MAX_TEXT_LEN;

verus! {

/// A maximal contiguous text span sharing one style: `[start, end)` over
/// the paragraph's text, in code points. `style` points into the
/// paragraph's style table; `None` is the paragraph default style.
pub struct StyleRun {
    pub start: usize,
    pub end: usize,
    pub style: Option<usize>,
}

/// Runs partition `[0, len)` contiguously: the first starts at zero, the
/// last ends at `len`, each is non-empty, and each begins where its
/// predecessor ended. Empty text has no runs.
pub open spec fn runs_partition(runs: Seq<StyleRun>, len: int) -> bool {
    &&& (runs.len() == 0 <==> len == 0)
    &&& (runs.len() > 0 ==> runs[0].start == 0 && runs[runs.len() - 1].end == len)
    &&& forall|i: int| 0 <= i < runs.len() ==> (#[trigger] runs[i]).start < runs[i].end
    &&& forall|i: int| 0 < i < runs.len() ==> (#[trigger] runs[i]).start == runs[i - 1].end
}

/// A style reference points into the table or at the default style.
pub open spec fn style_ref_wf(r: Option<usize>, table_len: int) -> bool {
    match r {
        Some(k) => k < table_len,
        None => true,
    }
}

/// The style a reference stands for.
pub open spec fn style_at(table: Seq<TextStyle>, default_style: TextStyle, r: Option<usize>)
    -> TextStyle {
    match r {
        Some(k) => table[k as int],
        None => default_style,
    }
}

/// An immutable paragraph: text, its partition into style runs, the style
/// table the runs refer to, and the paragraph-level options. Built by
/// [`ParagraphBuilder::build`]; consumed exactly once by layout.
pub struct Paragraph {
    pub text: Vec<char>,
    pub styles: Vec<TextStyle>,
    pub runs: Vec<StyleRun>,
    pub style: ParagraphStyle,
}

impl Paragraph {
    /// Well-formed paragraph: runs partition the text, style references
    /// are valid, and every style is well-formed.
    pub open spec fn wf(&self) -> bool {
        &&& self.text@.len() <= MAX_TEXT_LEN
        &&& runs_partition(self.runs@, self.text@.len() as int)
        &&& forall|i: int|
            0 <= i < self.runs@.len() ==> style_ref_wf(
                (#[trigger] self.runs@[i]).style,
                self.styles@.len() as int,
            )
        &&& forall|i: int| 0 <= i < self.styles@.len() ==> (#[trigger] self.styles@[i]).wf()
        &&& self.style.wf()
    }

    /// The style of run `i`.
    pub open spec fn spec_run_style(&self, i: int) -> TextStyle {
        style_at(self.styles@, self.style.default_style, self.runs@[i].style)
    }

    /// The style of run `i`.
    pub fn run_style(&self, i: usize) -> (r: &TextStyle)
        requires
            i < self.runs@.len(),
            self.wf(),
        ensures
            *r == self.spec_run_style(i as int),
    {
        match self.runs[i].style {
            Some(k) => &self.styles[k],
            None => &self.style.default_style,
        }
    }
}

/// Accumulates text and a stack of active style attributes; terminal
/// `build` produces the immutable paragraph. The builder moves into
/// `build` and cannot be reused afterward.
pub struct ParagraphBuilder {
    pub text: Vec<char>,
    pub styles: Vec<TextStyle>,
    pub runs: Vec<StyleRun>,
    pub stack: Vec<usize>,
    pub style: ParagraphStyle,
}

impl ParagraphBuilder {
    /// Builder state the methods preserve: the same shape a well-formed
    /// paragraph has, plus a valid style stack.
    pub open spec fn wf(&self) -> bool {
        &&& self.text@.len() <= MAX_TEXT_LEN
        &&& runs_partition(self.runs@, self.text@.len() as int)
        &&& forall|i: int|
            0 <= i < self.runs@.len() ==> style_ref_wf(
                (#[trigger] self.runs@[i]).style,
                self.styles@.len() as int,
            )
        &&& forall|i: int| 0 <= i < self.styles@.len() ==> (#[trigger] self.styles@[i]).wf()
        &&& forall|i: int| 0 <= i < self.stack@.len() ==> #[trigger] self.stack@[i] < self.styles@.len()
        &&& self.style.wf()
    }

    /// The style reference appended text would be tagged with: the top of
    /// the stack, or the paragraph default when the stack is empty.
    pub open spec fn current_ref(&self) -> Option<usize> {
        if self.stack@.len() > 0 {
            Some(self.stack@.last())
        } else {
            None
        }
    }

    /// The style value appended text would be tagged with.
    pub open spec fn current_style(&self) -> TextStyle {
        style_at(self.styles@, self.style.default_style, self.current_ref())
    }

    /// A fresh builder over the given paragraph options.
    pub fn new(style: ParagraphStyle) -> (r: ParagraphBuilder)
        requires
            style.wf(),
        ensures
            r.text@.len() == 0,
            r.styles@.len() == 0,
            r.runs@.len() == 0,
            r.stack@.len() == 0,
            r.style == style,
            r.wf(),
    {
        ParagraphBuilder {
            text: Vec::new(),
            styles: Vec::new(),
            runs: Vec::new(),
            stack: Vec::new(),
            style,
        }
    }

    /// Push a style: text appended next is tagged with it, until `pop`.
    pub fn push_style(&mut self, style: TextStyle)
        requires
            old(self).wf(),
            style.wf(),
        ensures
            final(self).wf(),
            final(self).styles@ == old(self).styles@.push(style),
            final(self).stack@ == old(self).stack@.push(old(self).styles@.len() as usize),
            final(self).current_style() == style,
            final(self).text@ == old(self).text@,
            final(self).runs@ == old(self).runs@,
            final(self).style == old(self).style,
    {
        let idx = self.styles.len();
        self.styles.push(style);
        self.stack.push(idx);
    }

    /// Pop the top style; on an empty stack this is a no-op.
    pub fn pop(&mut self)
        requires
            old(self).wf(),
        ensures
            final(self).wf(),
            old(self).stack@.len() > 0 ==> final(self).stack@ == old(self).stack@.drop_last(),
            old(self).stack@.len() == 0 ==> final(self).stack@ == old(self).stack@,
            final(self).text@ == old(self).text@,
            final(self).runs@ == old(self).runs@,
            final(self).styles@ == old(self).styles@,
            final(self).style == old(self).style,
    {
        if self.stack.len() > 0 {
            self.stack.pop();
        }
    }

    /// Append text under the current style: the buffer grows by `t`, and
    /// the run list records the span, merged into the previous run when
    /// the styles are identical. Appending nothing records no run, so no
    /// zero-length run ever arises.
    #[verifier::rlimit(60)]
    pub fn add_text(&mut self, t: &Vec<char>)
        requires
            old(self).wf(),
            old(self).text@.len() + t@.len() <= MAX_TEXT_LEN,
        ensures
            final(self).wf(),
            final(self).text@ == old(self).text@ + t@,
            final(self).styles@ == old(self).styles@,
            final(self).stack@ == old(self).stack@,
            final(self).style == old(self).style,
            t@.len() == 0 ==> final(self).runs@ == old(self).runs@,
            t@.len() > 0 && old(self).runs@.len() > 0 && style_eq(
                style_at(
                    old(self).styles@,
                    old(self).style.default_style,
                    old(self).runs@.last().style,
                ),
                old(self).current_style(),
            ) ==> final(self).runs@ == old(self).runs@.update(
                old(self).runs@.len() - 1,
                StyleRun {
                    start: old(self).runs@.last().start,
                    end: (old(self).text@.len() + t@.len()) as usize,
                    style: old(self).runs@.last().style,
                },
            ),
            t@.len() > 0 && !(old(self).runs@.len() > 0 && style_eq(
                style_at(
                    old(self).styles@,
                    old(self).style.default_style,
                    old(self).runs@.last().style,
                ),
                old(self).current_style(),
            )) ==> final(self).runs@ == old(self).runs@.push(
                StyleRun {
                    start: old(self).text@.len() as usize,
                    end: (old(self).text@.len() + t@.len()) as usize,
                    style: old(self).current_ref(),
                },
            ),
    {
        if t.len() == 0 {
            proof {
                assert(self.text@ =~= old(self).text@ + t@);
            }
            return ;
        }
        let start = self.text.len();
        let mut k: usize = 0;
        let n = t.len();
        while k < n
            invariant
                0 <= k <= n,
                n == t@.len(),
                self.text@ == old(self).text@ + t@.subrange(0, k as int),
                old(self).text@.len() + n <= MAX_TEXT_LEN,
                self.styles@ == old(self).styles@,
                self.runs@ == old(self).runs@,
                self.stack@ == old(self).stack@,
                self.style == old(self).style,
            decreases n - k,
        {
            self.text.push(t[k]);
            proof {
                assert(self.text@ =~= old(self).text@ + t@.subrange(0, k as int + 1));
            }
            k = k + 1;
        }
        proof {
            assert(t@.subrange(0, n as int) =~= t@);
        }
        let end = self.text.len();
        let cur_ref: Option<usize> = if self.stack.len() > 0 {
            Some(self.stack[self.stack.len() - 1])
        } else {
            None
        };
        let n_runs = self.runs.len();
        let mut merged = false;
        if n_runs > 0 {
            let last_ref = self.runs[n_runs - 1].style;
            let last_style: &TextStyle = match last_ref {
                Some(i) => &self.styles[i],
                None => &self.style.default_style,
            };
            let cur_style: &TextStyle = match cur_ref {
                Some(i) => &self.styles[i],
                None => &self.style.default_style,
            };
            if last_style.same_style(cur_style) {
                let last_start = self.runs[n_runs - 1].start;
                let ghost prior_runs = self.runs@;
                self.runs[n_runs - 1] = StyleRun { start: last_start, end, style: last_ref };
                merged = true;
                proof {
                    assert(self.runs@ =~= prior_runs.update(
                        prior_runs.len() - 1,
                        StyleRun { start: last_start, end, style: last_ref },
                    ));
                }
            }
        }
        if !merged {
            self.runs.push(StyleRun { start, end, style: cur_ref });
        }
    }

    /// Terminal: produce the immutable paragraph. The builder moves in
    /// and cannot be reused.
    pub fn build(self) -> (r: Paragraph)
        requires
            self.wf(),
        ensures
            r.wf(),
            r.text@ == self.text@,
            r.styles@ == self.styles@,
            r.runs@ == self.runs@,
            r.style == self.style,
    {
        Paragraph { text: self.text, styles: self.styles, runs: self.runs, style: self.style }
    }
}

} // verus!
