//! A slice: a tree bundled with a locator, giving segment operations a
//! handle-like shape. The slice owns the tree; take it back with
//! [`Slice::into_tree`].

use vstd::prelude::*;
use core::marker::PhantomData;
use crate::data::Data;
use crate::data::summarize_seq;
use crate::locators::Locator;
use crate::locators::seg_high;
use crate::locators::seg_low;
use crate::locators::segment_shaped;
use crate::methods::act_stable;
use crate::methods::hybrid;
use crate::trees::SomeEntry;
use crate::trees::SomeTree;

verus! {

/// A tree together with the locator that picks the segment of interest.
pub struct Slice<D: Data, T: SomeTree<D>, L: Locator<D>> {
    pub tree: T,
    pub locator: L,
    pub marker: PhantomData<D>,
}

impl<D: Data, T: SomeTree<D>, L: Locator<D>> Slice<D, T, L> {
    /// A slice of the tree as the locator selects it.
    pub fn new(tree: T, locator: L) -> (s: Self)
        ensures
            s.tree == tree,
            s.locator == locator,
    {
        Slice { tree, locator, marker: PhantomData }
    }

    /// The tree back.
    pub fn into_tree(self) -> (t: T)
        ensures
            t == self.tree,
    {
        let Slice { tree, locator: _, marker: _ } = self;
        tree
    }

    /// The summary of the slice's segment.
    pub fn summary(&mut self) -> (r: D::Summary)
        requires
            old(self).tree.inv(),
            segment_shaped(old(self).locator, old(self).tree.view_seq()),
        ensures
            final(self).tree.inv(),
            final(self).tree.view_seq() == old(self).tree.view_seq(),
            final(self).locator == old(self).locator,
            r == summarize_seq::<D>(
                old(self).tree.view_seq().subrange(
                    seg_low(old(self).locator, old(self).tree.view_seq()),
                    seg_high(old(self).locator, old(self).tree.view_seq()),
                ),
            ),
    {
        self.tree.segment_summary(&self.locator)
    }

    /// Apply an action to the slice's segment.
    pub fn act(&mut self, action: D::Action)
        requires
            old(self).tree.inv(),
            segment_shaped(old(self).locator, old(self).tree.view_seq()),
            act_stable(old(self).locator, action, old(self).tree.view_seq()),
            !D::to_reverse_spec(action),
        ensures
            final(self).tree.inv(),
            final(self).locator == old(self).locator,
            final(self).tree.view_seq() == hybrid::<D>(
                action,
                old(self).tree.view_seq(),
                seg_low(old(self).locator, old(self).tree.view_seq()),
                seg_high(old(self).locator, old(self).tree.view_seq()),
            ),
    {
        self.tree.act_segment(action, &self.locator)
    }

    /// The values of the slice's segment, in order.
    pub fn iter(&self) -> (r: Vec<D::Value>)
        requires
            self.tree.inv(),
            segment_shaped(self.locator, self.tree.view_seq()),
        ensures
            r@ == self.tree.view_seq().subrange(
                seg_low(self.locator, self.tree.view_seq()),
                seg_high(self.locator, self.tree.view_seq()),
            ),
    {
        self.tree.iter_locator(&self.locator)
    }
}

} // verus!
