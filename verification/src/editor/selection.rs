//! A selection: an anchor and a head, in character indices.
use vstd::prelude::*;

verus! {

/// A selection made by dragging from `anchor` to `head`.
#[derive(Debug, Clone, Copy, PartialEq, Eq, Structural)]
pub struct Selection {
    pub anchor: usize,
    pub head: usize,
}

impl Selection {
    /// The smaller end of the selection.
    pub open spec fn spec_start(&self) -> usize {
        if self.anchor <= self.head {
            self.anchor
        } else {
            self.head
        }
    }

    /// The larger end of the selection.
    pub open spec fn spec_end(&self) -> usize {
        if self.anchor <= self.head {
            self.head
        } else {
            self.anchor
        }
    }

    pub fn new(anchor: usize, head: usize) -> (s: Self)
        ensures
            s.anchor == anchor,
            s.head == head,
    {
        Self { anchor, head }
    }

    #[verifier::when_used_as_spec(spec_start)]
    pub fn start(&self) -> (r: usize)
        ensures
            r == self.spec_start(),
    {
        if self.anchor <= self.head {
            self.anchor
        } else {
            self.head
        }
    }

    #[verifier::when_used_as_spec(spec_end)]
    pub fn end(&self) -> (r: usize)
        ensures
            r == self.spec_end(),
    {
        if self.anchor <= self.head {
            self.head
        } else {
            self.anchor
        }
    }

    pub fn is_empty(&self) -> (r: bool)
        ensures
            r == (self.anchor == self.head),
    {
        self.anchor == self.head
    }

    /// The selected range, `None` when nothing is selected.
    pub fn range(&self) -> (r: Option<std::ops::Range<usize>>)
        ensures
            self.anchor == self.head <==> r is None,
            r matches Some(rg) ==> rg.start == self.spec_start() && rg.end == self.spec_end()
                && rg.start < rg.end,
    {
        if self.is_empty() {
            None
        } else {
            Some(self.start()..self.end())
        }
    }

    /// Collapses the selection to the single position `cursor_idx`.
    pub fn clear(&mut self, cursor_idx: usize)
        ensures
            final(self).anchor == cursor_idx,
            final(self).head == cursor_idx,
    {
        self.anchor = cursor_idx;
        self.head = cursor_idx;
    }
}

impl Default for Selection {
    fn default() -> (s: Self)
        ensures
            s.anchor == 0 && s.head == 0,
    {
        Self { anchor: 0, head: 0 }
    }
}

/// The start of a selection is never past its end, and the range is empty only
/// when the anchor and the head coincide.
pub proof fn law_selection_ordered(s: Selection)
    ensures
        s.spec_start() <= s.spec_end(),
        s.spec_start() == s.spec_end() <==> s.anchor == s.head,
        (s.spec_start() == s.anchor && s.spec_end() == s.head) || (s.spec_start() == s.head
            && s.spec_end() == s.anchor),
{
}

} // verus!
