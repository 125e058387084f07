//! Source positions and values that carry one.

use vstd::prelude::*;

verus! {

/// A 1-indexed line and column in the source text.
#[derive(Clone, Copy, Debug, PartialEq, Eq, Hash, Default, Structural)]
pub struct Pos {
    pub line: usize,
    pub column: usize,
}

impl DeepView for Pos {
    type V = Pos;

    open spec fn deep_view(&self) -> Pos {
        *self
    }
}

/// A node together with the position of its first token.
#[derive(Clone, Debug)]
pub struct Positioned<T> {
    pub pos: Pos,
    pub node: T,
}

impl<T: DeepView> DeepView for Positioned<T> {
    type V = Positioned<T::V>;

    open spec fn deep_view(&self) -> Positioned<T::V> {
        Positioned { pos: self.pos, node: self.node.deep_view() }
    }
}

impl<T> Positioned<T> {
    /// Pairs `node` with `pos`.
    pub fn new(node: T, pos: Pos) -> (r: Self)
        ensures
            r.pos == pos,
            r.node == node,
    {
        Positioned { pos, node }
    }

    /// The node without its position.
    pub fn into_inner(self) -> (r: T)
        ensures
            r == self.node,
    {
        self.node
    }

    /// The position of the node's first token.
    pub fn position(&self) -> (r: Pos)
        ensures
            r == self.pos,
    {
        self.pos
    }
}

} // verus!
