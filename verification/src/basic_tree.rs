//! The basic, unbalanced tree: nodes own their children, cache the
//! summary of their whole subtree, and carry a pending action that is
//! pushed down lazily.
//!
//! The central invariant is that every node's cached summary describes
//! the node's whole subtree *with its own pending action already
//! applied*; a child's cache may lag behind an ancestor's pending
//! action, but pushing that action down repairs it. This is what makes
//! acting on a whole subtree constant-time.

use vstd::prelude::*;
use crate::data::Data;
use crate::data::act_seq;
use crate::data::lemma_act_seq_compose;
use crate::data::lemma_act_seq_id;
use crate::data::lemma_map_reverse;
use crate::data::lemma_reverse_reverse;
use crate::data::lemma_summarize_act_seq;
use crate::data::lemma_summarize_concat;
use crate::data::lemma_summarize_one;
use crate::data::summarize_seq;

verus! {

/// A subtree: either empty or rooted at a node.
pub enum BasicTree<D: Data> {
    Empty,
    Root(Box<BasicNode<D>>),
}

/// A node: a value, the cached summary of the whole subtree, the
/// pending action owed to the whole subtree, and the two children.
pub struct BasicNode<D: Data> {
    pub value: D::Value,
    pub action: D::Action,
    pub summary: D::Summary,
    pub left: BasicTree<D>,
    pub right: BasicTree<D>,
}

/// Three summaries of adjacent segments, combined left to right.
pub open spec fn combine3<D: Data>(l: D::Summary, m: D::Summary, r: D::Summary) -> D::Summary {
    D::combine_spec(D::combine_spec(l, m), r)
}

impl<D: Data> BasicTree<D> {
    /// The sequence of values of this subtree, in order, with all
    /// pending actions applied.
    pub open spec fn view_seq(self) -> Seq<D::Value>
        decreases self,
    {
        match self {
            BasicTree::Empty => Seq::empty(),
            BasicTree::Root(n) => act_seq::<D>(
                n.action,
                n.left.view_seq() + seq![n.value] + n.right.view_seq(),
            ),
        }
    }

    /// The cached summary, as a value; the empty summary for an empty
    /// subtree.
    pub open spec fn summary_spec(self) -> D::Summary {
        match self {
            BasicTree::Empty => D::empty_spec(),
            BasicTree::Root(n) => n.summary,
        }
    }

    /// Well-formedness: every node's cached summary describes its
    /// subtree with the node's own pending action applied, the
    /// children's caches (with their own pendings baked in) taken as
    /// they stand.
    pub open spec fn inv(self) -> bool
        decreases self,
    {
        match self {
            BasicTree::Empty => true,
            BasicTree::Root(n) => n.left.inv() && n.right.inv() && n.summary
                == D::act_summary_spec(
                n.action,
                combine3::<D>(
                    n.left.summary_spec(),
                    D::summarize_spec(n.value),
                    n.right.summary_spec(),
                ),
            ),
        }
    }

    /// Whether the root of this subtree owes nothing: its pending
    /// action is the identity.
    pub open spec fn clean(self) -> bool {
        match self {
            BasicTree::Empty => true,
            BasicTree::Root(n) => n.action == D::id_spec(),
        }
    }

    /// The number of values in the root's left subtree; zero for an
    /// empty tree.
    pub open spec fn left_len(self) -> int {
        match self {
            BasicTree::Empty => 0,
            BasicTree::Root(n) => n.left.view_seq().len() as int,
        }
    }

    /// The empty tree.
    pub fn empty() -> (t: Self)
        ensures
            t == BasicTree::<D>::Empty,
    {
        BasicTree::Empty
    }

    /// Whether the tree is empty; equivalently, whether it holds no
    /// values.
    pub fn is_empty(&self) -> (r: bool)
        ensures
            r <==> (self is Empty),
            r <==> self.view_seq().len() == 0,
    {
        proof {
            lemma_view_len::<D>(*self);
        }
        match self {
            BasicTree::Empty => true,
            BasicTree::Root(_) => false,
        }
    }

    /// The cached summary: exactly the summary of the subtree's values
    /// whenever the tree is well-formed.
    pub fn subtree_summary(&self) -> (r: D::Summary)
        requires
            self.inv(),
        ensures
            r == summarize_seq::<D>(self.view_seq()),
    {
        proof {
            lemma_summary_correct::<D>(*self);
        }
        match self {
            BasicTree::Empty => D::empty_summary(),
            BasicTree::Root(n) => n.summary,
        }
    }

    /// The cached summary without any well-formedness demanded.
    pub(crate) fn summary_cache(&self) -> (r: D::Summary)
        ensures
            r == self.summary_spec(),
    {
        match self {
            BasicTree::Empty => D::empty_summary(),
            BasicTree::Root(n) => n.summary,
        }
    }

    /// Push the root's pending action one level down, so that the root
    /// owes nothing. Does nothing on an empty tree.
    pub fn access_tree(&mut self)
        requires
            old(self).inv(),
        ensures
            final(self).inv(),
            final(self).clean(),
            final(self).view_seq() == old(self).view_seq(),
            final(self).summary_spec() == old(self).summary_spec(),
            (*final(self)) is Root <==> (*old(self)) is Root,
    {
        let mut t = BasicTree::Empty;
        core::mem::swap(self, &mut t);
        match t {
            BasicTree::Empty => {},
            BasicTree::Root(mut n) => {
                n.access();
                *self = BasicTree::Root(n);
            },
        }
    }

    /// Compose an action into the whole subtree: constant-time lazy
    /// update of the pending action and of the cached summary.
    pub fn act_subtree(&mut self, a: D::Action)
        requires
            old(self).inv(),
        ensures
            final(self).inv(),
            final(self).view_seq() == act_seq::<D>(a, old(self).view_seq()),
            final(self).summary_spec() == D::act_summary_spec(a, old(self).summary_spec()),
            (*final(self)) is Root <==> (*old(self)) is Root,
    {
        let mut t = BasicTree::Empty;
        core::mem::swap(self, &mut t);
        match t {
            BasicTree::Empty => {
                proof {
                    D::law_act_empty(a);
                    assert(act_seq::<D>(a, Seq::<D::Value>::empty()) =~= Seq::<D::Value>::empty());
                }
            },
            BasicTree::Root(mut n) => {
                proof {
                    let raw = n.left.view_seq() + seq![n.value] + n.right.view_seq();
                    lemma_act_seq_compose::<D>(a, n.action, raw);
                    D::law_act_compose(
                        a,
                        n.action,
                        n.value,
                        combine3::<D>(
                            n.left.summary_spec(),
                            D::summarize_spec(n.value),
                            n.right.summary_spec(),
                        ),
                    );
                }
                n.action = D::compose(a, n.action);
                n.summary = D::act_summary(a, n.summary);
                *self = BasicTree::Root(n);
            },
        }
    }
}

impl<D: Data> BasicNode<D> {
    /// A fresh node over the given children, clean and with a correct
    /// cache.
    pub fn new(value: D::Value, left: BasicTree<D>, right: BasicTree<D>) -> (n: Self)
        requires
            left.inv(),
            right.inv(),
        ensures
            n.value == value,
            n.left == left,
            n.right == right,
            n.action == D::id_spec(),
            BasicTree::Root(Box::new(n)).inv(),
            BasicTree::Root(Box::new(n)).view_seq() == left.view_seq() + seq![value]
                + right.view_seq(),
    {
        let summary = D::combine(
            D::combine(left.summary_cache(), D::summarize(value)),
            right.summary_cache(),
        );
        let n = BasicNode { value, action: D::id_action(), summary, left, right };
        proof {
            D::law_id(
                value,
                combine3::<D>(
                    n.left.summary_spec(),
                    D::summarize_spec(value),
                    n.right.summary_spec(),
                ),
            );
            lemma_act_seq_id::<D>(n.left.view_seq() + seq![value] + n.right.view_seq());
        }
        n
    }

    /// Push the pending action one level down: apply it to the value,
    /// compose it into both children (swapping them first if the action
    /// requests reversal), and clear it. The subtree's values and its
    /// cached summary are unchanged.
    pub fn access(&mut self)
        requires
            BasicTree::Root(Box::new(*old(self))).inv(),
        ensures
            BasicTree::Root(Box::new(*final(self))).inv(),
            final(self).action == D::id_spec(),
            final(self).summary == old(self).summary,
            BasicTree::Root(Box::new(*final(self))).view_seq() == BasicTree::Root(
                Box::new(*old(self)),
            ).view_seq(),
            BasicTree::Root(Box::new(*final(self))).view_seq() == final(self).left.view_seq()
                + seq![final(self).value] + final(self).right.view_seq(),
            final(self).left.inv(),
            final(self).right.inv(),
    {
        let ghost n0 = *self;
        let ghost a0 = self.action;
        let ghost lv = self.left.view_seq();
        let ghost rv = self.right.view_seq();
        let ghost raw = lv + seq![n0.value] + rv;
        let a = self.action;
        self.action = D::id_action();
        self.value = D::act_value(a, self.value);
        if D::to_reverse(a) {
            core::mem::swap(&mut self.left, &mut self.right);
        }
        let ghost lmid = *self;
        self.left.act_subtree(a);
        self.right.act_subtree(a);
        proof {
            let n1 = *self;
            let fa = |v: D::Value| D::act_value_spec(a0, v);
            // the new children's views
            if D::to_reverse_spec(a0) {
                assert(n1.left.view_seq() == act_seq::<D>(a0, rv));
                assert(n1.right.view_seq() == act_seq::<D>(a0, lv));
            } else {
                assert(n1.left.view_seq() == act_seq::<D>(a0, lv));
                assert(n1.right.view_seq() == act_seq::<D>(a0, rv));
            }
            // the whole subtree's view is preserved
            D::law_id(n1.value, D::empty_spec());
            lemma_act_seq_id::<D>(n1.left.view_seq() + seq![n1.value] + n1.right.view_seq());
            assert(raw.map_values(fa) =~= lv.map_values(fa) + seq![fa(n0.value)] + rv.map_values(
                fa,
            ));
            if D::to_reverse_spec(a0) {
                assert(raw.map_values(fa).reverse() =~= rv.map_values(fa).reverse() + seq![
                    fa(n0.value),
                ] + lv.map_values(fa).reverse());
            }
            // the cache still describes the subtree
            let ls = n0.left.summary_spec();
            let ms = D::summarize_spec(n0.value);
            let rs = n0.right.summary_spec();
            D::law_act_summarize(a0, n0.value);
            D::law_act_combine(a0, D::combine_spec(ls, ms), rs);
            D::law_act_combine(a0, ls, ms);
            D::law_id(n1.value, combine3::<D>(n1.left.summary_spec(), D::summarize_spec(n1.value), n1.right.summary_spec()));
            if D::to_reverse_spec(a0) {
                // a reversing action has a commutative summary monoid
                let als = D::act_summary_spec(a0, ls);
                let ams = D::act_summary_spec(a0, ms);
                let ars = D::act_summary_spec(a0, rs);
                D::law_reverse_commutes(a0, D::combine_spec(als, ams), ars);
                D::law_reverse_commutes(a0, als, ams);
                D::law_combine_assoc(ars, ams, als);
                D::law_combine_assoc(als, ams, ars);
                D::law_reverse_commutes(a0, als, D::combine_spec(ars, ams));
                D::law_combine_assoc(ars, ams, als);
            }
        }
    }

    /// Recompute the cached summary from the children and the value.
    /// For a clean node this re-establishes well-formedness after the
    /// children were replaced.
    pub fn rebuild(&mut self)
        requires
            old(self).action == D::id_spec(),
            old(self).left.inv(),
            old(self).right.inv(),
        ensures
            *final(self) == (BasicNode { summary: final(self).summary, ..*old(self) }),
            BasicTree::Root(Box::new(*final(self))).inv(),
    {
        self.summary = D::combine(
            D::combine(self.left.summary_cache(), D::summarize(self.value)),
            self.right.summary_cache(),
        );
        proof {
            D::law_id(
                self.value,
                combine3::<D>(
                    self.left.summary_spec(),
                    D::summarize_spec(self.value),
                    self.right.summary_spec(),
                ),
            );
        }
    }
}

/// Detach the leftmost value of a nonempty subtree, returning it
/// together with the remainder of the subtree.
pub fn remove_leftmost<D: Data>(n: Box<BasicNode<D>>) -> (r: (D::Value, BasicTree<D>))
    requires
        BasicTree::Root(n).inv(),
    ensures
        r.1.inv(),
        BasicTree::Root(n).view_seq() == seq![r.0] + r.1.view_seq(),
    decreases BasicTree::Root(n).view_seq().len(),
{
    let ghost len0 = BasicTree::Root(n).view_seq().len();
    let mut n = n;
    n.access();
    proof {
        lemma_view_len::<D>(BasicTree::Root(Box::new(*n)));
        assert(n.left.view_seq().len() < len0);
    }
    let mut left = BasicTree::Empty;
    core::mem::swap(&mut n.left, &mut left);
    match left {
        BasicTree::Empty => {
            let ghost v = n.value;
            let ghost rv = n.right.view_seq();
            let mut right = BasicTree::Empty;
            core::mem::swap(&mut n.right, &mut right);
            proof {
                assert(Seq::<D::Value>::empty() + seq![v] + rv =~= seq![v] + rv);
            }
            (n.value, right)
        },
        BasicTree::Root(lc) => {
            let ghost lv = left.view_seq();
            let ghost v0 = n.value;
            let ghost rv = n.right.view_seq();
            let (v, rest) = remove_leftmost(lc);
            n.left = rest;
            n.rebuild();
            proof {
                lemma_view_clean::<D>(BasicTree::Root(n));
                assert(lv + seq![v0] + rv =~= seq![v] + (rest.view_seq() + seq![v0] + rv));
            }
            (v, BasicTree::Root(n))
        },
    }
}

/// A subtree's view has one value per node; in particular a root's view
/// is never empty.
pub proof fn lemma_view_len<D: Data>(t: BasicTree<D>)
    ensures
        t is Root ==> t.view_seq().len() == (t->Root_0).left.view_seq().len() + 1
            + (t->Root_0).right.view_seq().len(),
        t is Empty ==> t.view_seq().len() == 0,
{
}

/// A clean root's view is simply left view, value, right view.
pub proof fn lemma_view_clean<D: Data>(t: BasicTree<D>)
    requires
        t is Root,
        t.clean(),
    ensures
        t.view_seq() == (t->Root_0).left.view_seq() + seq![(t->Root_0).value]
            + (t->Root_0).right.view_seq(),
{
    let n = t->Root_0;
    D::law_id(n.value, D::empty_spec());
    lemma_act_seq_id::<D>(n.left.view_seq() + seq![n.value] + n.right.view_seq());
}

/// Summary correctness: in a well-formed tree, every cached summary is
/// exactly the monoid fold of the summaries of the subtree's in-order
/// values, pending actions applied.
pub proof fn lemma_summary_correct<D: Data>(t: BasicTree<D>)
    requires
        t.inv(),
    ensures
        t.summary_spec() == summarize_seq::<D>(t.view_seq()),
    decreases t,
{
    match t {
        BasicTree::Empty => {},
        BasicTree::Root(n) => {
            lemma_summary_correct::<D>(n.left);
            lemma_summary_correct::<D>(n.right);
            let lv = n.left.view_seq();
            let rv = n.right.view_seq();
            let raw = lv + seq![n.value] + rv;
            lemma_summarize_concat::<D>(lv + seq![n.value], rv);
            lemma_summarize_concat::<D>(lv, seq![n.value]);
            lemma_summarize_one::<D>(n.value);
            assert(raw =~= (lv + seq![n.value]) + rv);
            lemma_summarize_act_seq::<D>(n.action, raw);
        },
    }
}

} // verus!
