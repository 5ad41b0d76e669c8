//! The formatting policy of a renderer.

use vstd::prelude::*;

verus! {

/// How rendered text is laid out: the number of spaces that one level of
/// nesting indents by.
#[derive(Clone, Copy, Debug)]
pub struct RendererConfig {
    pub tab_size: usize,
}

/// The view of a [`RendererConfig`].
pub struct RendererConfigView {
    pub tab_size: nat,
}

impl View for RendererConfig {
    type V = RendererConfigView;

    open spec fn view(&self) -> RendererConfigView {
        RendererConfigView { tab_size: self.tab_size as nat }
    }
}

/// A run of `n` spaces.
pub open spec fn spaces(n: nat) -> Seq<char> {
    Seq::new(n, |i: int| ' ')
}

/// The indentation of a line at nesting level `depth`.
pub open spec fn indent_text(config: RendererConfigView, depth: nat) -> Seq<char> {
    spaces(depth * config.tab_size)
}

impl RendererConfig {
    /// The indentation of a line at nesting level `depth`: `tab_size`
    /// spaces for each level.
    pub fn indent(&self, depth: usize) -> (out: String)
        ensures
            out@ == indent_text(self@, depth as nat),
    {
        let mut out = String::new();
        let mut level: usize = 0;
        while level < depth
            invariant
                level <= depth,
                out@ == spaces((level as nat) * (self.tab_size as nat)),
            decreases depth - level,
        {
            let mut column: usize = 0;
            while column < self.tab_size
                invariant
                    column <= self.tab_size,
                    out@ == spaces((level as nat) * (self.tab_size as nat) + (column as nat)),
                decreases self.tab_size - column,
            {
                out.push(' ');
                column = column + 1;
            }
            assert((level as nat) * (self.tab_size as nat) + (self.tab_size as nat) == ((level
                + 1) as nat) * (self.tab_size as nat)) by (nonlinear_arith);
            level = level + 1;
        }
        out
    }
}

} // verus!
