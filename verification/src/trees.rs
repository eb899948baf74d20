//! The traits that every tree flavor implements: entries (reading and
//! acting on a subtree), trees (whole-tree and segment operations) and
//! walkers (cursors that traverse a tree one step at a time).
//!
//! A walker's contract is stated against three pieces of ghost state:
//! the in-order sequence of the whole tree (`full`), the span `[lo,
//! hi)` of that sequence covered by the subtree currently in focus, and
//! the stack of spans of the positions it descended through. Every
//! operation says exactly how it moves the span and what it does to the
//! sequence, and the generic segment algorithms are proved against
//! those contracts alone.

use vstd::prelude::*;
use crate::data::Data;
use crate::data::act_seq;
use crate::data::summarize_seq;
use crate::data::lemma_summarize_concat;
use crate::locators::Locator;
use crate::locators::seg_high;
use crate::locators::seg_low;
use crate::locators::segment_shaped;

verus! {

/// Which child of a node a position is.
#[derive(Clone, Copy, PartialEq, Eq, Structural, Debug)]
pub enum Side {
    Left,
    Right,
}

impl Side {
    /// The other side.
    pub fn flip(self) -> (r: Self)
        ensures
            self is Left <==> r is Right,
    {
        match self {
            Side::Left => Side::Right,
            Side::Right => Side::Left,
        }
    }
}

/// Reading a subtree and acting on it. Implemented by whole trees; the
/// same operations on walkers, whose contracts must speak of the whole
/// surrounding tree, live in [`SomeWalker`].
pub trait SomeEntry<D: Data>: Sized {
    /// Well-formedness of the tree.
    spec fn inv(&self) -> bool;

    /// The in-order sequence of values, pending actions applied.
    spec fn view_seq(&self) -> Seq<D::Value>;

    /// Whether the tree holds no values.
    fn is_empty(&self) -> (r: bool)
        requires
            self.inv(),
        ensures
            r <==> self.view_seq().len() == 0,
    ;

    /// The summary of all values in the tree.
    fn subtree_summary(&self) -> (r: D::Summary)
        requires
            self.inv(),
        ensures
            r == summarize_seq::<D>(self.view_seq()),
    ;

    /// Compose an action into the whole tree, in constant time.
    fn act_subtree(&mut self, a: D::Action)
        requires
            old(self).inv(),
        ensures
            final(self).inv(),
            final(self).view_seq() == act_seq::<D>(a, old(self).view_seq()),
    ;
}

/// A cursor over a tree. It carries the path from the root to the
/// subtree in focus, pushes pending actions down as it descends, and
/// rebuilds summaries as it ascends. The focus may be an empty position
/// between values (`lo() == hi()`).
pub trait SomeWalker<D: Data>: Sized {
    /// The in-order sequence of the whole tree being walked.
    spec fn full(&self) -> Seq<D::Value>;

    /// Start of the focused subtree's span in `full`.
    spec fn lo(&self) -> int;

    /// End of the focused subtree's span in `full`.
    spec fn hi(&self) -> int;

    /// Index in `full` of the focused node's own value, when the focus
    /// is not empty.
    spec fn mid(&self) -> int;

    /// The spans of the positions descended through, outermost first.
    spec fn spans(&self) -> Seq<(int, int)>;

    /// Well-formedness of the walker.
    spec fn wf(&self) -> bool;

    /// Facts that hold of every well-formed walker.
    proof fn lemma_wf(&self)
        requires
            self.wf(),
        ensures
            0 <= self.lo() <= self.hi() <= self.full().len(),
            self.lo() < self.hi() ==> self.lo() <= self.mid() < self.hi(),
            self.spans().len() == 0 ==> self.lo() == 0 && self.hi() == self.full().len(),
    ;

    /// Descend into the left child. Fails exactly when the focus is an
    /// empty position.
    fn go_left(&mut self) -> (r: Result<(), ()>)
        requires
            old(self).wf(),
        ensures
            final(self).wf(),
            final(self).full() == old(self).full(),
            r is Ok <==> old(self).lo() < old(self).hi(),
            r is Err ==> *final(self) == *old(self),
            r is Ok ==> final(self).lo() == old(self).lo() && final(self).hi() == old(self).mid()
                && final(self).spans() == old(self).spans().push(
                (old(self).lo(), old(self).hi()),
            ),
    ;

    /// Descend into the right child. Fails exactly when the focus is an
    /// empty position.
    fn go_right(&mut self) -> (r: Result<(), ()>)
        requires
            old(self).wf(),
        ensures
            final(self).wf(),
            final(self).full() == old(self).full(),
            r is Ok <==> old(self).lo() < old(self).hi(),
            r is Err ==> *final(self) == *old(self),
            r is Ok ==> final(self).lo() == old(self).mid() + 1 && final(self).hi()
                == old(self).hi() && final(self).spans() == old(self).spans().push(
                (old(self).lo(), old(self).hi()),
            ),
    ;

    /// Ascend one step, rebuilding the node left behind. Returns which
    /// side the focus came from. Fails exactly at the root.
    fn go_up(&mut self) -> (r: Result<Side, ()>)
        requires
            old(self).wf(),
        ensures
            final(self).wf(),
            final(self).full() == old(self).full(),
            r is Err <==> old(self).spans().len() == 0,
            r is Err ==> *final(self) == *old(self),
            r is Ok ==> final(self).spans() == old(self).spans().drop_last() && final(self).lo()
                == old(self).spans().last().0 && final(self).hi() == old(self).spans().last().1
                && final(self).lo() < final(self).hi(),
            r == Result::<Side, ()>::Ok(Side::Left) ==> final(self).lo() == old(self).lo()
                && final(self).mid() == old(self).hi(),
            r == Result::<Side, ()>::Ok(Side::Right) ==> final(self).mid() + 1 == old(self).lo()
                && final(self).hi() == old(self).hi(),
    ;

    /// The current depth; the root is at depth zero.
    fn depth(&self) -> (d: usize)
        ensures
            d == self.spans().len(),
    ;

    /// Ascend to the root. A flavor may restructure the tree while
    /// doing so; the splay walker splays.
    fn go_to_root(&mut self)
        requires
            old(self).wf(),
        ensures
            final(self).wf(),
            final(self).full() == old(self).full(),
            final(self).spans().len() == 0,
    {
        loop
            invariant
                self.wf(),
                self.full() == old(self).full(),
            ensures
                self.wf(),
                self.full() == old(self).full(),
                self.spans().len() == 0,
            decreases self.spans().len(),
        {
            let r = self.go_up();
            if r.is_err() {
                break ;
            }
        }
    }

    /// Whether the focus is an empty position.
    fn is_empty(&self) -> (r: bool)
        requires
            self.wf(),
        ensures
            r <==> self.lo() == self.hi(),
    ;

    /// Summary of everything left of the focused subtree.
    fn far_left_summary(&self) -> (s: D::Summary)
        requires
            self.wf(),
        ensures
            s == summarize_seq::<D>(self.full().take(self.lo())),
    ;

    /// Summary of everything right of the focused subtree.
    fn far_right_summary(&self) -> (s: D::Summary)
        requires
            self.wf(),
        ensures
            s == summarize_seq::<D>(self.full().skip(self.hi())),
    ;

    /// Summary of the whole focused subtree.
    fn subtree_summary(&self) -> (s: D::Summary)
        requires
            self.wf(),
        ensures
            s == summarize_seq::<D>(self.full().subrange(self.lo(), self.hi())),
    ;

    /// Summary of the focused node's value alone; the empty summary at
    /// an empty position.
    fn node_summary(&self) -> (s: D::Summary)
        requires
            self.wf(),
        ensures
            self.lo() < self.hi() ==> s == D::summarize_spec(self.full()[self.mid()]),
            self.lo() == self.hi() ==> s == D::empty_spec(),
    ;

    /// Summary of the focused node's left subtree; absent at an empty
    /// position.
    fn left_subtree_summary(&self) -> (r: Option<D::Summary>)
        requires
            self.wf(),
        ensures
            r is Some <==> self.lo() < self.hi(),
            r is Some ==> r->Some_0 == summarize_seq::<D>(
                self.full().subrange(self.lo(), self.mid()),
            ),
    ;

    /// Summary of the focused node's right subtree; absent at an empty
    /// position.
    fn right_subtree_summary(&self) -> (r: Option<D::Summary>)
        requires
            self.wf(),
        ensures
            r is Some <==> self.lo() < self.hi(),
            r is Some ==> r->Some_0 == summarize_seq::<D>(
                self.full().subrange(self.mid() + 1, self.hi()),
            ),
    ;

    /// The focused node's value, pending actions applied; absent at an
    /// empty position.
    fn value(&self) -> (r: Option<D::Value>)
        requires
            self.wf(),
        ensures
            r is Some <==> self.lo() < self.hi(),
            r is Some ==> r->Some_0 == self.full()[self.mid()],
    ;

    /// Summary of everything left of the focus, the focused node
    /// excluded.
    fn left_summary(&self) -> (s: D::Summary)
        requires
            self.wf(),
        ensures
            self.lo() < self.hi() ==> s == summarize_seq::<D>(self.full().take(self.mid())),
            self.lo() == self.hi() ==> s == summarize_seq::<D>(self.full().take(self.lo())),
    {
        proof {
            self.lemma_wf();
        }
        let fl = self.far_left_summary();
        match self.left_subtree_summary() {
            Option::Some(ls) => {
                proof {
                    lemma_summarize_concat::<D>(
                        self.full().take(self.lo()),
                        self.full().subrange(self.lo(), self.mid()),
                    );
                    assert(self.full().take(self.lo()) + self.full().subrange(
                        self.lo(),
                        self.mid(),
                    ) =~= self.full().take(self.mid()));
                }
                D::combine(fl, ls)
            },
            Option::None => fl,
        }
    }

    /// Summary of everything right of the focus, the focused node
    /// excluded.
    fn right_summary(&self) -> (s: D::Summary)
        requires
            self.wf(),
        ensures
            self.lo() < self.hi() ==> s == summarize_seq::<D>(self.full().skip(self.mid() + 1)),
            self.lo() == self.hi() ==> s == summarize_seq::<D>(self.full().skip(self.hi())),
    {
        proof {
            self.lemma_wf();
        }
        let fr = self.far_right_summary();
        match self.right_subtree_summary() {
            Option::Some(rs) => {
                proof {
                    lemma_summarize_concat::<D>(
                        self.full().subrange(self.mid() + 1, self.hi()),
                        self.full().skip(self.hi()),
                    );
                    assert(self.full().subrange(self.mid() + 1, self.hi()) + self.full().skip(
                        self.hi(),
                    ) =~= self.full().skip(self.mid() + 1));
                }
                D::combine(rs, fr)
            },
            Option::None => fr,
        }
    }

    /// Compose an action into the focused subtree.
    fn act_subtree(&mut self, a: D::Action)
        requires
            old(self).wf(),
        ensures
            final(self).wf(),
            final(self).full() == old(self).full().take(old(self).lo()) + act_seq::<D>(
                a,
                old(self).full().subrange(old(self).lo(), old(self).hi()),
            ) + old(self).full().skip(old(self).hi()),
            final(self).lo() == old(self).lo(),
            final(self).hi() == old(self).hi(),
            final(self).spans() == old(self).spans(),
    ;

    /// Apply an action to the focused node's value alone. Fails exactly
    /// at an empty position. A reversal request is meaningless on a
    /// single value and is discarded.
    fn act_node(&mut self, a: D::Action) -> (r: Option<()>)
        requires
            old(self).wf(),
        ensures
            final(self).wf(),
            r is Some <==> old(self).lo() < old(self).hi(),
            r is None ==> *final(self) == *old(self),
            r is Some ==> final(self).full() == old(self).full().update(
                old(self).mid(),
                D::act_value_spec(a, old(self).full()[old(self).mid()]),
            ),
            r is Some ==> final(self).lo() == old(self).lo() && final(self).hi() == old(self).hi()
                && final(self).mid() == old(self).mid() && final(self).spans() == old(self).spans(),
    ;

    /// Compose an action into the focused node's left subtree. Fails
    /// exactly at an empty position.
    fn act_left_subtree(&mut self, a: D::Action) -> (r: Option<()>)
        requires
            old(self).wf(),
        ensures
            final(self).wf(),
            r is Some <==> old(self).lo() < old(self).hi(),
            r is None ==> *final(self) == *old(self),
            r is Some ==> final(self).full() == old(self).full().take(old(self).lo())
                + act_seq::<D>(a, old(self).full().subrange(old(self).lo(), old(self).mid()))
                + old(self).full().skip(old(self).mid()),
            r is Some ==> final(self).lo() == old(self).lo() && final(self).hi() == old(self).hi()
                && final(self).mid() == old(self).mid() && final(self).spans() == old(self).spans(),
    ;

    /// Compose an action into the focused node's right subtree. Fails
    /// exactly at an empty position.
    fn act_right_subtree(&mut self, a: D::Action) -> (r: Option<()>)
        requires
            old(self).wf(),
        ensures
            final(self).wf(),
            r is Some <==> old(self).lo() < old(self).hi(),
            r is None ==> *final(self) == *old(self),
            r is Some ==> final(self).full() == old(self).full().take(old(self).mid() + 1)
                + act_seq::<D>(a, old(self).full().subrange(old(self).mid() + 1, old(self).hi()))
                + old(self).full().skip(old(self).hi()) && final(self).lo() == old(self).lo()
                && final(self).hi() == old(self).hi() && final(self).mid() == old(self).mid()
                && final(self).spans() == old(self).spans(),
    ;
}

/// Walkers that can insert and delete values.
pub trait ModifiableWalker<D: Data>: SomeWalker<D> {
    /// Insert the value at the focused empty position. Fails exactly
    /// when the focus is not empty.
    fn insert(&mut self, value: D::Value) -> (r: Option<()>)
        requires
            old(self).wf(),
        ensures
            final(self).wf(),
            r is Some <==> old(self).lo() == old(self).hi(),
            r is None ==> *final(self) == *old(self),
            r is Some ==> final(self).full() == old(self).full().insert(old(self).lo(), value)
                && final(self).lo() == old(self).lo() && final(self).hi() == old(self).lo() + 1,
    ;

    /// Remove the focused node's value from the tree and return it,
    /// replacing the node by its in-order successor. Fails exactly at
    /// an empty position.
    fn delete(&mut self) -> (r: Option<D::Value>)
        requires
            old(self).wf(),
        ensures
            final(self).wf(),
            r is Some <==> old(self).lo() < old(self).hi(),
            r is None ==> *final(self) == *old(self),
            r is Some ==> r->Some_0 == old(self).full()[old(self).mid()] && final(self).full()
                == old(self).full().remove(old(self).mid()),
    ;
}

/// Whole-tree and segment operations, shared by every tree flavor.
pub trait SomeTree<D: Data>: SomeEntry<D> {
    /// The summary of the locator's segment.
    fn segment_summary<L: Locator<D>>(&mut self, locator: &L) -> (r: D::Summary)
        requires
            old(self).inv(),
            segment_shaped(*locator, old(self).view_seq()),
        ensures
            final(self).inv(),
            final(self).view_seq() == old(self).view_seq(),
            r == summarize_seq::<D>(
                old(self).view_seq().subrange(
                    seg_low(*locator, old(self).view_seq()),
                    seg_high(*locator, old(self).view_seq()),
                ),
            ),
    ;

    /// Apply an action to the locator's segment. The action must not
    /// request reversal, and the locator's answers must not depend on
    /// values the action is still being pushed towards.
    fn act_segment<L: Locator<D>>(&mut self, action: D::Action, locator: &L)
        requires
            old(self).inv(),
            segment_shaped(*locator, old(self).view_seq()),
            crate::methods::act_stable(*locator, action, old(self).view_seq()),
            !D::to_reverse_spec(action),
        ensures
            final(self).inv(),
            final(self).view_seq() == crate::methods::hybrid::<D>(
                action,
                old(self).view_seq(),
                seg_low(*locator, old(self).view_seq()),
                seg_high(*locator, old(self).view_seq()),
            ),
    ;

    /// The values of the locator's segment, in order.
    fn iter_locator<L: Locator<D>>(&self, locator: &L) -> (r: Vec<D::Value>)
        requires
            self.inv(),
            segment_shaped(*locator, self.view_seq()),
        ensures
            r@ == self.view_seq().subrange(
                seg_low(*locator, self.view_seq()),
                seg_high(*locator, self.view_seq()),
            ),
    ;

    /// All values of the tree, in order.
    fn iter(&self) -> (r: Vec<D::Value>)
        requires
            self.inv(),
        ensures
            r@ == self.view_seq(),
    ;
}

/// Trees that can concatenate. It is enough to implement
/// [`ConcatenableTree::concatenate_right`]; the others come with it.
pub trait ConcatenableTree<D: Data>: SomeEntry<D> {
    /// Append the other tree's values after this tree's.
    fn concatenate_right(&mut self, other: Self)
        requires
            old(self).inv(),
            other.inv(),
        ensures
            final(self).inv(),
            final(self).view_seq() == old(self).view_seq() + other.view_seq(),
    ;

    /// The tree holding the left tree's values followed by the right
    /// tree's.
    fn concatenate(left: Self, right: Self) -> (t: Self)
        requires
            left.inv(),
            right.inv(),
        ensures
            t.inv(),
            t.view_seq() == left.view_seq() + right.view_seq(),
    {
        let mut l = left;
        l.concatenate_right(right);
        l
    }
}

/// Walkers that can split their tree in two at the focused empty
/// position.
pub trait SplittableWalker<D: Data>: ModifiableWalker<D> {
    type T: SomeEntry<D>;

    /// Detach and return everything right of the focused empty
    /// position; the walker keeps the rest. Fails, changing nothing,
    /// at a nonempty position.
    fn split_right(&mut self) -> (r: Option<Self::T>)
        requires
            old(self).wf(),
        ensures
            final(self).wf(),
            r is Some <==> old(self).lo() == old(self).hi(),
            r is None ==> *final(self) == *old(self),
            r is Some ==> final(self).full() == old(self).full().take(old(self).lo())
                && r->Some_0.inv() && r->Some_0.view_seq() == old(self).full().skip(old(self).lo()),
    ;

    /// Detach and return everything left of the focused empty position;
    /// the walker keeps the rest. Fails, changing nothing, at a
    /// nonempty position.
    fn split_left(&mut self) -> (r: Option<Self::T>)
        requires
            old(self).wf(),
        ensures
            final(self).wf(),
            r is Some <==> old(self).lo() == old(self).hi(),
            r is None ==> *final(self) == *old(self),
            r is Some ==> final(self).full() == old(self).full().skip(old(self).lo())
                && r->Some_0.inv() && r->Some_0.view_seq() == old(self).full().take(old(self).lo()),
    ;
}

} // verus!
