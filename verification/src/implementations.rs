//! Implementations of the tree traits for the basic tree and its
//! walker.

use vstd::prelude::*;
use crate::data::Data;
use crate::basic_tree::BasicNode;
use crate::basic_tree::BasicTree;
use crate::locators::Locator;
use crate::methods;
use crate::trees::ConcatenableTree;
use crate::trees::SomeEntry;
use crate::trees::SomeTree;
use crate::trees::SomeWalker;
use crate::trees::SplittableWalker;
use crate::walker::BasicWalker;

verus! {

impl<D: Data> Default for BasicTree<D> {
    /// The empty tree.
    fn default() -> (t: Self)
        ensures
            t == BasicTree::<D>::Empty,
    {
        BasicTree::Empty
    }
}

impl<D: Data> SomeEntry<D> for BasicTree<D> {
    open spec fn inv(&self) -> bool {
        BasicTree::inv(*self)
    }

    open spec fn view_seq(&self) -> Seq<D::Value> {
        BasicTree::view_seq(*self)
    }

    fn is_empty(&self) -> (r: bool) {
        BasicTree::is_empty(self)
    }

    fn subtree_summary(&self) -> (r: D::Summary) {
        BasicTree::subtree_summary(self)
    }

    fn act_subtree(&mut self, a: D::Action) {
        BasicTree::act_subtree(self, a);
    }
}

impl<D: Data> SomeTree<D> for BasicTree<D> {
    fn segment_summary<L: Locator<D>>(&mut self, locator: &L) -> (r: D::Summary) {
        let mut t = BasicTree::Empty;
        core::mem::swap(self, &mut t);
        let mut w = BasicWalker::new(t);
        let r = methods::segment_summary(&mut w, locator);
        *self = w.into_tree();
        r
    }

    fn act_segment<L: Locator<D>>(&mut self, action: D::Action, locator: &L) {
        let mut t = BasicTree::Empty;
        core::mem::swap(self, &mut t);
        let mut w = BasicWalker::new(t);
        methods::act_segment(&mut w, action, locator);
        *self = w.into_tree();
    }

    fn iter_locator<L: Locator<D>>(&self, locator: &L) -> (r: Vec<D::Value>) {
        methods::iter_locator(self, locator)
    }

    fn iter(&self) -> (r: Vec<D::Value>) {
        methods::to_array(self)
    }
}

impl<D: Data> ConcatenableTree<D> for BasicTree<D> {
    fn concatenate_right(&mut self, other: Self) {
        let ghost lv = BasicTree::view_seq(*self);
        let ghost rv = BasicTree::view_seq(other);
        let mut t = BasicTree::Empty;
        core::mem::swap(self, &mut t);
        match t {
            BasicTree::Empty => {
                *self = other;
                proof {
                    assert(lv + rv =~= rv);
                }
            },
            BasicTree::Root(n) => {
                let mut w = BasicWalker::new(BasicTree::Root(n));
                proof {
                    w.lemma_wf();
                    crate::basic_tree::lemma_view_len::<D>(w.cur);
                }
                // walk to the empty position after the last value
                loop
                    invariant
                        w.wf(),
                        w.full() == lv,
                        w.hi() == lv.len(),
                    ensures
                        w.wf(),
                        w.full() == lv,
                        w.hi() == lv.len(),
                        w.lo() == w.hi(),
                    decreases w.hi() - w.lo(),
                {
                    proof {
                        w.lemma_wf();
                    }
                    if SomeWalker::is_empty(&w) {
                        break ;
                    }
                    let _ = w.go_right();
                }
                let _ = methods::previous_filled(&mut w);
                let v = match crate::trees::ModifiableWalker::delete(&mut w) {
                    Option::Some(v) => v,
                    Option::None => {
                        proof {
                            assert(false);
                        }
                        return ;
                    },
                };
                let l2 = w.into_tree();
                let node = BasicNode::new(v, l2, other);
                *self = BasicTree::Root(Box::new(node));
                proof {
                    assert(lv.remove(lv.len() - 1) + seq![lv.last()] =~= lv);
                    assert(BasicTree::view_seq(*self) =~= lv + rv);
                }
            },
        }
    }
}

impl<D: Data> SplittableWalker<D> for BasicWalker<D> {
    type T = BasicTree<D>;

    fn split_right(&mut self) -> (r: Option<BasicTree<D>>) {
        BasicWalker::split_right(self)
    }

    fn split_left(&mut self) -> (r: Option<BasicTree<D>>) {
        BasicWalker::split_left(self)
    }
}

} // verus!
