//! The walker over basic trees: an owned zipper.
//!
//! Descending detaches the focused node, keeps its value and the
//! subtree not descended into in a stack frame, and focuses the chosen
//! child; ascending reassembles the node and recomputes its summary.
//! Nodes are accessed (their pending action pushed down) before the
//! walker descends past them, so the focused subtree's root is always
//! clean, and every frame stores the far summaries of the position it
//! was pushed from so they can be restored on the way up.

use vstd::prelude::*;
use crate::data::Data;
use crate::data::act_seq;
use crate::data::summarize_seq;
use crate::data::lemma_sum3_left;
use crate::data::lemma_sum3_right;
use crate::basic_tree::BasicNode;
use crate::basic_tree::combine3;
use crate::basic_tree::BasicTree;
use crate::basic_tree::lemma_summary_correct;
use crate::basic_tree::lemma_view_clean;
use crate::basic_tree::lemma_view_len;
use crate::basic_tree::remove_leftmost;
use crate::trees::ModifiableWalker;
use crate::trees::Side;
use crate::trees::SomeWalker;

verus! {

/// One step of the path from the root to the focus: the value of the
/// node descended past, the subtree not descended into, which side was
/// descended to, and the far summaries to restore on ascent.
pub struct Frame<D: Data> {
    pub value: D::Value,
    pub other: BasicTree<D>,
    pub side: Side,
    pub left_s: D::Summary,
    pub right_s: D::Summary,
}

/// Everything in the tree left of the subtree the path leads to.
pub open spec fn prefix_of<D: Data>(path: Seq<Frame<D>>) -> Seq<D::Value>
    decreases path.len(),
{
    if path.len() == 0 {
        Seq::empty()
    } else {
        let f = path.last();
        match f.side {
            Side::Left => prefix_of(path.drop_last()),
            Side::Right => prefix_of(path.drop_last()) + f.other.view_seq() + seq![f.value],
        }
    }
}

/// Everything in the tree right of the subtree the path leads to.
pub open spec fn suffix_of<D: Data>(path: Seq<Frame<D>>) -> Seq<D::Value>
    decreases path.len(),
{
    if path.len() == 0 {
        Seq::empty()
    } else {
        let f = path.last();
        match f.side {
            Side::Left => seq![f.value] + f.other.view_seq() + suffix_of(path.drop_last()),
            Side::Right => suffix_of(path.drop_last()),
        }
    }
}

/// Well-formedness of a path whose deepest position has far summaries
/// `fl` and `fr`: every stashed subtree is well-formed, and at each
/// step the far summaries extend the stored parent ones by exactly the
/// values and subtree the frame keeps.
pub open spec fn path_wf<D: Data>(path: Seq<Frame<D>>, fl: D::Summary, fr: D::Summary) -> bool
    decreases path.len(),
{
    if path.len() == 0 {
        fl == D::empty_spec() && fr == D::empty_spec()
    } else {
        let f = path.last();
        f.other.inv() && (match f.side {
            Side::Left => fl == f.left_s && fr == D::combine_spec(
                D::summarize_spec(f.value),
                D::combine_spec(f.other.summary_spec(), f.right_s),
            ),
            Side::Right => fr == f.right_s && fl == D::combine_spec(
                D::combine_spec(f.left_s, f.other.summary_spec()),
                D::summarize_spec(f.value),
            ),
        }) && path_wf(path.drop_last(), f.left_s, f.right_s)
    }
}

/// On a well-formed path the far summaries are exactly the summaries of
/// the prefix and the suffix around the focused subtree.
pub proof fn lemma_path_far<D: Data>(path: Seq<Frame<D>>, fl: D::Summary, fr: D::Summary)
    requires
        path_wf::<D>(path, fl, fr),
    ensures
        fl == summarize_seq::<D>(prefix_of::<D>(path)),
        fr == summarize_seq::<D>(suffix_of::<D>(path)),
    decreases path.len(),
{
    if path.len() == 0 {
    } else {
        let f = path.last();
        lemma_path_far::<D>(path.drop_last(), f.left_s, f.right_s);
        lemma_summary_correct::<D>(f.other);
        match f.side {
            Side::Left => {
                lemma_sum3_left::<D>(
                    f.value,
                    f.other.view_seq(),
                    suffix_of::<D>(path.drop_last()),
                );
            },
            Side::Right => {
                lemma_sum3_right::<D>(
                    prefix_of::<D>(path.drop_last()),
                    f.other.view_seq(),
                    f.value,
                );
            },
        }
    }
}

/// A cursor over a [`BasicTree`], holding the focused subtree, the
/// stack of frames back to the root, and the far summaries of the
/// focused position.
pub struct BasicWalker<D: Data> {
    pub cur: BasicTree<D>,
    pub path: Vec<Frame<D>>,
    pub far_left: D::Summary,
    pub far_right: D::Summary,
}

impl<D: Data> BasicWalker<D> {
    /// A walker over the given tree, focused at its root.
    pub fn new(t: BasicTree<D>) -> (w: Self)
        requires
            t.inv(),
        ensures
            w.wf(),
            w.full() == t.view_seq(),
            w.lo() == 0,
            w.hi() == t.view_seq().len(),
            w.spans().len() == 0,
    {
        let mut cur = t;
        cur.access_tree();
        let w = BasicWalker {
            cur,
            path: Vec::new(),
            far_left: D::empty_summary(),
            far_right: D::empty_summary(),
        };
        proof {
            assert(w.full() =~= t.view_seq());
        }
        w
    }

    /// The focused subtree.
    pub fn inner(&self) -> (t: &BasicTree<D>)
        ensures
            t == self.cur,
    {
        &self.cur
    }

    /// Ascend all the way and return the tree, well-formed and with the
    /// same values the walker was holding.
    pub fn into_tree(self) -> (t: BasicTree<D>)
        requires
            self.wf(),
        ensures
            t.inv(),
            t.view_seq() == self.full(),
            self.spans().len() == 0 ==> t.left_len() == self.mid() - self.lo(),
    {
        let mut w = self;
        if w.path.len() == 0 {
            proof {
                assert(w.full() =~= w.cur.view_seq());
            }
            return w.cur;
        }
        loop
            invariant
                w.wf(),
                w.full() == self.full(),
            ensures
                w.wf(),
                w.full() == self.full(),
                w.spans().len() == 0,
            decreases w.spans().len(),
        {
            let r = w.go_up();
            if r.is_err() {
                break ;
            }
        }
        proof {
            assert(w.path@.len() == 0);
            assert(w.full() =~= w.cur.view_seq());
        }
        w.cur
    }

    /// Which side of its parent the focus is on; absent at the root.
    pub fn came_side(&self) -> (r: Option<Side>)
        ensures
            r is Some <==> self.spans().len() > 0,
            r is Some ==> r->Some_0 == self.path@.last().side,
    {
        if self.path.len() == 0 {
            Option::None
        } else {
            Option::Some(self.path[self.path.len() - 1].side)
        }
    }
}

impl<D: Data> SomeWalker<D> for BasicWalker<D> {
    open spec fn full(&self) -> Seq<D::Value> {
        prefix_of::<D>(self.path@) + self.cur.view_seq() + suffix_of::<D>(self.path@)
    }

    open spec fn lo(&self) -> int {
        prefix_of::<D>(self.path@).len() as int
    }

    open spec fn hi(&self) -> int {
        self.lo() + self.cur.view_seq().len()
    }

    open spec fn mid(&self) -> int {
        self.lo() + self.cur.left_len()
    }

    open spec fn spans(&self) -> Seq<(int, int)> {
        Seq::new(
            self.path@.len(),
            |k: int|
                (
                    prefix_of::<D>(self.path@.take(k)).len() as int,
                    self.full().len() - suffix_of::<D>(self.path@.take(k)).len(),
                ),
        )
    }

    open spec fn wf(&self) -> bool {
        self.cur.inv() && self.cur.clean() && path_wf::<D>(
            self.path@,
            self.far_left,
            self.far_right,
        )
    }

    proof fn lemma_wf(&self) {
        lemma_view_len::<D>(self.cur);
        if self.cur is Root {
            lemma_view_clean::<D>(self.cur);
        }
        assert(self.spans().len() == self.path@.len());
        if self.path@.len() == 0 {
            assert(prefix_of::<D>(self.path@) =~= Seq::<D::Value>::empty());
            assert(suffix_of::<D>(self.path@) =~= Seq::<D::Value>::empty());
            assert(self.full() =~= self.cur.view_seq());
        }
    }

    fn go_left(&mut self) -> (r: Result<(), ()>) {
        let ghost w0 = *self;
        let mut t = BasicTree::Empty;
        core::mem::swap(&mut self.cur, &mut t);
        match t {
            BasicTree::Empty => {
                proof {
                    lemma_view_len::<D>(w0.cur);
                    assert(*self =~= w0);
                }
                Result::Err(())
            },
            BasicTree::Root(mut n) => {
                proof {
                    lemma_view_clean::<D>(w0.cur);
                    lemma_view_len::<D>(w0.cur);
                }
                let new_fr = D::combine(
                    D::summarize(n.value),
                    D::combine(n.right.summary_cache(), self.far_right),
                );
                let mut left = BasicTree::Empty;
                core::mem::swap(&mut n.left, &mut left);
                left.access_tree();
                let mut right = BasicTree::Empty;
                core::mem::swap(&mut n.right, &mut right);
                let f = Frame {
                    value: n.value,
                    other: right,
                    side: Side::Left,
                    left_s: self.far_left,
                    right_s: self.far_right,
                };
                self.path.push(f);
                self.far_right = new_fr;
                self.cur = left;
                proof {
                    let p0 = w0.path@;
                    let p1 = self.path@;
                    assert(p1.drop_last() =~= p0);
                    assert(prefix_of::<D>(p1) == prefix_of::<D>(p0));
                    assert(self.full() =~= w0.full());
                    assert forall|k: int| 0 <= k < p0.len() implies self.spans()[k] == w0.spans()[k] by {
                        assert(p1.take(k) =~= p0.take(k));
                    }
                    assert(p1.take(p0.len() as int) =~= p0);
                    assert(self.spans() =~= w0.spans().push((w0.lo(), w0.hi())));
                }
                Result::Ok(())
            },
        }
    }

    fn go_right(&mut self) -> (r: Result<(), ()>) {
        let ghost w0 = *self;
        let mut t = BasicTree::Empty;
        core::mem::swap(&mut self.cur, &mut t);
        match t {
            BasicTree::Empty => {
                proof {
                    lemma_view_len::<D>(w0.cur);
                    assert(*self =~= w0);
                }
                Result::Err(())
            },
            BasicTree::Root(mut n) => {
                proof {
                    lemma_view_clean::<D>(w0.cur);
                    lemma_view_len::<D>(w0.cur);
                }
                let new_fl = D::combine(
                    D::combine(self.far_left, n.left.summary_cache()),
                    D::summarize(n.value),
                );
                let mut right = BasicTree::Empty;
                core::mem::swap(&mut n.right, &mut right);
                right.access_tree();
                let mut left = BasicTree::Empty;
                core::mem::swap(&mut n.left, &mut left);
                let f = Frame {
                    value: n.value,
                    other: left,
                    side: Side::Right,
                    left_s: self.far_left,
                    right_s: self.far_right,
                };
                self.path.push(f);
                self.far_left = new_fl;
                self.cur = right;
                proof {
                    let p0 = w0.path@;
                    let p1 = self.path@;
                    assert(p1.drop_last() =~= p0);
                    assert(self.full() =~= w0.full());
                    assert forall|k: int| 0 <= k < p0.len() implies self.spans()[k] == w0.spans()[k] by {
                        assert(p1.take(k) =~= p0.take(k));
                    }
                    assert(p1.take(p0.len() as int) =~= p0);
                    assert(self.spans() =~= w0.spans().push((w0.lo(), w0.hi())));
                }
                Result::Ok(())
            },
        }
    }

    fn go_up(&mut self) -> (r: Result<Side, ()>) {
        let ghost w0 = *self;
        if self.path.len() == 0 {
            return Result::Err(());
        }
        match self.path.pop() {
            Option::None => {
                proof {
                    assert(false);
                }
                Result::Err(())
            },
            Option::Some(f) => {
                let ghost p0 = w0.path@;
                let mut t = BasicTree::Empty;
                core::mem::swap(&mut self.cur, &mut t);
                let side = f.side;
                let node = match f.side {
                    Side::Left => BasicNode::new(f.value, t, f.other),
                    Side::Right => BasicNode::new(f.value, f.other, t),
                };
                self.cur = BasicTree::Root(Box::new(node));
                self.far_left = f.left_s;
                self.far_right = f.right_s;
                proof {
                    let p1 = self.path@;
                    assert(p1 =~= p0.drop_last());
                    assert(f == p0.last());
                    lemma_view_len::<D>(self.cur);
                    lemma_view_clean::<D>(self.cur);
                    assert(self.full() =~= w0.full());
                    assert forall|k: int| 0 <= k < p1.len() implies self.spans()[k]
                        == w0.spans()[k] by {
                        assert(p1.take(k) =~= p0.take(k));
                    }
                    assert(self.spans() =~= w0.spans().drop_last());
                    assert(p0.take(p1.len() as int) =~= p1);
                    assert(w0.spans().last().0 == self.lo());
                    assert(w0.spans().last().1 == self.hi());
                    match side {
                        Side::Left => {
                            assert(self.lo() == w0.lo());
                            assert(self.mid() == w0.hi());
                        },
                        Side::Right => {
                            assert(self.mid() + 1 == w0.lo());
                            assert(self.hi() == w0.hi());
                        },
                    }
                }
                Result::Ok(side)
            },
        }
    }

    fn depth(&self) -> (d: usize) {
        self.path.len()
    }

    fn is_empty(&self) -> (r: bool) {
        proof {
            lemma_view_len::<D>(self.cur);
        }
        match &self.cur {
            BasicTree::Empty => true,
            BasicTree::Root(_) => false,
        }
    }

    fn far_left_summary(&self) -> (s: D::Summary) {
        proof {
            lemma_path_far::<D>(self.path@, self.far_left, self.far_right);
            assert(self.full().take(self.lo()) =~= prefix_of::<D>(self.path@));
        }
        self.far_left
    }

    fn far_right_summary(&self) -> (s: D::Summary) {
        proof {
            lemma_path_far::<D>(self.path@, self.far_left, self.far_right);
            assert(self.full().skip(self.hi()) =~= suffix_of::<D>(self.path@));
        }
        self.far_right
    }

    fn subtree_summary(&self) -> (s: D::Summary) {
        proof {
            assert(self.full().subrange(self.lo(), self.hi()) =~= self.cur.view_seq());
        }
        self.cur.subtree_summary()
    }

    fn node_summary(&self) -> (s: D::Summary) {
        match &self.cur {
            BasicTree::Empty => D::empty_summary(),
            BasicTree::Root(n) => {
                proof {
                    lemma_view_clean::<D>(self.cur);
                    assert(self.full()[self.mid()] == n.value);
                }
                D::summarize(n.value)
            },
        }
    }

    fn left_subtree_summary(&self) -> (r: Option<D::Summary>) {
        proof {
            lemma_view_len::<D>(self.cur);
        }
        match &self.cur {
            BasicTree::Empty => Option::None,
            BasicTree::Root(n) => {
                proof {
                    lemma_view_clean::<D>(self.cur);
                    lemma_summary_correct::<D>(n.left);
                    assert(self.full().subrange(self.lo(), self.mid()) =~= n.left.view_seq());
                }
                Option::Some(n.left.subtree_summary())
            },
        }
    }

    fn right_subtree_summary(&self) -> (r: Option<D::Summary>) {
        proof {
            lemma_view_len::<D>(self.cur);
        }
        match &self.cur {
            BasicTree::Empty => Option::None,
            BasicTree::Root(n) => {
                proof {
                    lemma_view_clean::<D>(self.cur);
                    lemma_view_len::<D>(self.cur);
                    assert(self.full().subrange(self.mid() + 1, self.hi()) =~= n.right.view_seq());
                }
                Option::Some(n.right.subtree_summary())
            },
        }
    }

    fn value(&self) -> (r: Option<D::Value>) {
        proof {
            lemma_view_len::<D>(self.cur);
        }
        match &self.cur {
            BasicTree::Empty => Option::None,
            BasicTree::Root(n) => {
                proof {
                    lemma_view_clean::<D>(self.cur);
                    assert(self.full()[self.mid()] == n.value);
                }
                Option::Some(n.value)
            },
        }
    }

    fn act_subtree(&mut self, a: D::Action) {
        let ghost w0 = *self;
        self.cur.act_subtree(a);
        self.cur.access_tree();
        proof {
            assert(w0.full().take(w0.lo()) =~= prefix_of::<D>(w0.path@));
            assert(w0.full().subrange(w0.lo(), w0.hi()) =~= w0.cur.view_seq());
            assert(w0.full().skip(w0.hi()) =~= suffix_of::<D>(w0.path@));
            assert(self.full().len() == w0.full().len()) by {
                assert(act_seq::<D>(a, w0.cur.view_seq()).len() == w0.cur.view_seq().len());
            }
            assert forall|k: int| 0 <= k < self.path@.len() implies self.spans()[k]
                == w0.spans()[k] by {}
            assert(self.spans() =~= w0.spans());
        }
    }

    fn act_node(&mut self, a: D::Action) -> (r: Option<()>) {
        let ghost w0 = *self;
        let mut t = BasicTree::Empty;
        core::mem::swap(&mut self.cur, &mut t);
        match t {
            BasicTree::Empty => {
                proof {
                    lemma_view_len::<D>(w0.cur);
                    assert(*self =~= w0);
                }
                Option::None
            },
            BasicTree::Root(mut n) => {
                proof {
                    lemma_view_clean::<D>(w0.cur);
                    lemma_view_len::<D>(w0.cur);
                }
                n.value = D::act_value(a, n.value);
                n.rebuild();
                self.cur = BasicTree::Root(n);
                proof {
                    lemma_view_clean::<D>(self.cur);
                    lemma_view_len::<D>(self.cur);
                    assert(self.full() =~= w0.full().update(
                        w0.mid(),
                        D::act_value_spec(a, w0.full()[w0.mid()]),
                    ));
                    assert forall|k: int| 0 <= k < self.path@.len() implies self.spans()[k]
                        == w0.spans()[k] by {}
                    assert(self.spans() =~= w0.spans());
                }
                Option::Some(())
            },
        }
    }

    fn act_left_subtree(&mut self, a: D::Action) -> (r: Option<()>) {
        let ghost w0 = *self;
        let mut t = BasicTree::Empty;
        core::mem::swap(&mut self.cur, &mut t);
        match t {
            BasicTree::Empty => {
                proof {
                    lemma_view_len::<D>(w0.cur);
                    assert(*self =~= w0);
                }
                Option::None
            },
            BasicTree::Root(mut n) => {
                proof {
                    lemma_view_clean::<D>(w0.cur);
                    lemma_view_len::<D>(w0.cur);
                }
                n.left.act_subtree(a);
                n.rebuild();
                self.cur = BasicTree::Root(n);
                proof {
                    let lv0 = w0.cur->Root_0.left.view_seq();
                    lemma_view_clean::<D>(self.cur);
                    lemma_view_len::<D>(self.cur);
                    assert(w0.full().take(w0.lo()) =~= prefix_of::<D>(w0.path@));
                    assert(w0.full().subrange(w0.lo(), w0.mid()) =~= lv0);
                    assert(w0.full().skip(w0.mid()) =~= seq![w0.cur->Root_0.value]
                        + w0.cur->Root_0.right.view_seq() + suffix_of::<D>(w0.path@));
                    assert(act_seq::<D>(a, lv0).len() == lv0.len());
                    assert(self.full() =~= w0.full().take(w0.lo()) + act_seq::<D>(a, lv0)
                        + w0.full().skip(w0.mid()));
                    assert forall|k: int| 0 <= k < self.path@.len() implies self.spans()[k]
                        == w0.spans()[k] by {}
                    assert(self.spans() =~= w0.spans());
                }
                Option::Some(())
            },
        }
    }

    fn act_right_subtree(&mut self, a: D::Action) -> (r: Option<()>) {
        let ghost w0 = *self;
        let mut t = BasicTree::Empty;
        core::mem::swap(&mut self.cur, &mut t);
        match t {
            BasicTree::Empty => {
                proof {
                    lemma_view_len::<D>(w0.cur);
                    assert(*self =~= w0);
                }
                Option::None
            },
            BasicTree::Root(mut n) => {
                proof {
                    lemma_view_clean::<D>(w0.cur);
                    lemma_view_len::<D>(w0.cur);
                }
                n.right.act_subtree(a);
                n.rebuild();
                self.cur = BasicTree::Root(n);
                proof {
                    let rv0 = w0.cur->Root_0.right.view_seq();
                    lemma_view_clean::<D>(self.cur);
                    lemma_view_len::<D>(self.cur);
                    assert(w0.full().take(w0.mid() + 1) =~= prefix_of::<D>(w0.path@)
                        + w0.cur->Root_0.left.view_seq() + seq![w0.cur->Root_0.value]);
                    assert(w0.full().subrange(w0.mid() + 1, w0.hi()) =~= rv0);
                    assert(w0.full().skip(w0.hi()) =~= suffix_of::<D>(w0.path@));
                    assert(act_seq::<D>(a, rv0).len() == rv0.len());
                    assert(self.full() =~= w0.full().take(w0.mid() + 1) + act_seq::<D>(a, rv0)
                        + w0.full().skip(w0.hi()));
                    assert forall|k: int| 0 <= k < self.path@.len() implies self.spans()[k]
                        == w0.spans()[k] by {}
                    assert(self.spans() =~= w0.spans());
                }
                Option::Some(())
            },
        }
    }
}

impl<D: Data> ModifiableWalker<D> for BasicWalker<D> {
    fn insert(&mut self, value: D::Value) -> (r: Option<()>) {
        let ghost w0 = *self;
        let mut t = BasicTree::Empty;
        core::mem::swap(&mut self.cur, &mut t);
        match t {
            BasicTree::Empty => {
                let node = BasicNode::new(value, BasicTree::Empty, BasicTree::Empty);
                self.cur = BasicTree::Root(Box::new(node));
                proof {
                    lemma_view_len::<D>(w0.cur);
                    lemma_view_len::<D>(self.cur);
                    assert(self.full() =~= w0.full().insert(w0.lo(), value));
                }
                Option::Some(())
            },
            BasicTree::Root(n) => {
                self.cur = BasicTree::Root(n);
                proof {
                    lemma_view_len::<D>(w0.cur);
                    assert(*self =~= w0);
                }
                Option::None
            },
        }
    }

    fn delete(&mut self) -> (r: Option<D::Value>) {
        let ghost w0 = *self;
        let mut t = BasicTree::Empty;
        core::mem::swap(&mut self.cur, &mut t);
        match t {
            BasicTree::Empty => {
                proof {
                    lemma_view_len::<D>(w0.cur);
                    assert(*self =~= w0);
                }
                Option::None
            },
            BasicTree::Root(mut n) => {
                proof {
                    lemma_view_clean::<D>(w0.cur);
                    lemma_view_len::<D>(w0.cur);
                }
                let ghost lv = n.left.view_seq();
                let ghost rv = n.right.view_seq();
                let ret = n.value;
                let mut right = BasicTree::Empty;
                core::mem::swap(&mut n.right, &mut right);
                let mut left = BasicTree::Empty;
                core::mem::swap(&mut n.left, &mut left);
                match right {
                    BasicTree::Empty => {
                        left.access_tree();
                        self.cur = left;
                        proof {
                            assert(rv =~= Seq::<D::Value>::empty());
                            assert(self.full() =~= w0.full().remove(w0.mid()));
                        }
                    },
                    BasicTree::Root(rc) => {
                        let (succ, rest) = remove_leftmost(rc);
                        let node = BasicNode::new(succ, left, rest);
                        self.cur = BasicTree::Root(Box::new(node));
                        proof {
                            assert(seq![succ] + rest.view_seq() =~= rv);
                            assert(self.cur.view_seq() =~= lv + rv);
                            assert(self.full() =~= w0.full().remove(w0.mid()));
                        }
                    },
                }
                proof {
                    assert(ret == w0.full()[w0.mid()]);
                }
                Option::Some(ret)
            },
        }
    }
}

/// Every subtree stashed along a well-formed path is well-formed.
pub proof fn lemma_path_others_inv<D: Data>(path: Seq<Frame<D>>, fl: D::Summary, fr: D::Summary)
    requires
        path_wf::<D>(path, fl, fr),
    ensures
        forall|k: int| 0 <= k < path.len() ==> (#[trigger] path[k]).other.inv(),
    decreases path.len(),
{
    if path.len() > 0 {
        let f = path.last();
        lemma_path_others_inv::<D>(path.drop_last(), f.left_s, f.right_s);
        assert forall|k: int| 0 <= k < path.len() implies (#[trigger] path[k]).other.inv() by {
            if k < path.len() - 1 {
                assert(path.drop_last()[k] == path[k]);
            }
        }
    }
}

impl<D: Data> BasicWalker<D> {
    /// Rotate the focused node's child on the given side up into the
    /// focused position, a single rotation: that child's node becomes
    /// the root of the focused subtree, so the focused index moves
    /// strictly toward that side. Fails, changing nothing, when the
    /// focus or that child is empty. The values, their order and the
    /// span are unchanged.
    pub fn rot_side(&mut self, side: Side) -> (r: Option<()>)
        requires
            old(self).wf(),
        ensures
            final(self).wf(),
            final(self).full() == old(self).full(),
            final(self).lo() == old(self).lo(),
            final(self).hi() == old(self).hi(),
            final(self).spans() == old(self).spans(),
            r is Some <==> (old(self).lo() < old(self).hi() && (match side {
                Side::Left => old(self).lo() < old(self).mid(),
                Side::Right => old(self).mid() + 1 < old(self).hi(),
            })),
            r is Some && side is Left ==> final(self).mid() < old(self).mid(),
            r is Some && side is Right ==> final(self).mid() > old(self).mid(),
    {
        let ghost w0 = *self;
        proof {
            lemma_view_len::<D>(self.cur);
        }
        let mut t = BasicTree::Empty;
        core::mem::swap(&mut self.cur, &mut t);
        match t {
            BasicTree::Empty => {
                Option::None
            },
            BasicTree::Root(mut n) => {
                proof {
                    lemma_view_clean::<D>(w0.cur);
                }
                let ghost lv = n.left.view_seq();
                let ghost rv = n.right.view_seq();
                match side {
                    Side::Left => {
                        let mut child = BasicTree::Empty;
                        core::mem::swap(&mut n.left, &mut child);
                        child.access_tree();
                        match child {
                            BasicTree::Empty => {
                                self.cur = BasicTree::Root(n);
                                proof {
                                    assert(lv =~= Seq::<D::Value>::empty());
                                    assert(w0.mid() == w0.lo());
                                    assert(self.full() =~= w0.full());
                                    assert(self.spans() =~= w0.spans());
                                }
                                Option::None
                            },
                            BasicTree::Root(mut c) => {
                                proof {
                                    lemma_view_clean::<D>(BasicTree::Root(Box::new(*c)));
                                    lemma_view_len::<D>(BasicTree::Root(Box::new(*c)));
                                }
                                let mut cr = BasicTree::Empty;
                                core::mem::swap(&mut c.right, &mut cr);
                                let mut nr = BasicTree::Empty;
                                core::mem::swap(&mut n.right, &mut nr);
                                let mut cl = BasicTree::Empty;
                                core::mem::swap(&mut c.left, &mut cl);
                                let ghost clv = cl.view_seq();
                                proof {
                                    assert(clv.len() < lv.len());
                                }
                                let inner = BasicNode::new(n.value, cr, nr);
                                let root = BasicNode::new(
                                    c.value,
                                    cl,
                                    BasicTree::Root(Box::new(inner)),
                                );
                                self.cur = BasicTree::Root(Box::new(root));
                                proof {
                                    assert(self.cur.view_seq() =~= w0.cur.view_seq());
                                    assert(self.full() =~= w0.full());
                                    assert(self.spans() =~= w0.spans());
                                    assert(self.mid() == self.lo() + clv.len());
                                    assert(w0.mid() == w0.lo() + lv.len());
                                }
                                Option::Some(())
                            },
                        }
                    },
                    Side::Right => {
                        let mut child = BasicTree::Empty;
                        core::mem::swap(&mut n.right, &mut child);
                        child.access_tree();
                        match child {
                            BasicTree::Empty => {
                                self.cur = BasicTree::Root(n);
                                proof {
                                    assert(rv =~= Seq::<D::Value>::empty());
                                    assert(w0.mid() + 1 == w0.hi());
                                    assert(self.full() =~= w0.full());
                                    assert(self.spans() =~= w0.spans());
                                }
                                Option::None
                            },
                            BasicTree::Root(mut c) => {
                                proof {
                                    lemma_view_clean::<D>(BasicTree::Root(Box::new(*c)));
                                    lemma_view_len::<D>(BasicTree::Root(Box::new(*c)));
                                }
                                let mut cl = BasicTree::Empty;
                                core::mem::swap(&mut c.left, &mut cl);
                                let mut nl = BasicTree::Empty;
                                core::mem::swap(&mut n.left, &mut nl);
                                let mut cr = BasicTree::Empty;
                                core::mem::swap(&mut c.right, &mut cr);
                                let ghost nlv = nl.view_seq();
                                let ghost clv = cl.view_seq();
                                let inner = BasicNode::new(n.value, nl, cl);
                                let root = BasicNode::new(
                                    c.value,
                                    BasicTree::Root(Box::new(inner)),
                                    cr,
                                );
                                self.cur = BasicTree::Root(Box::new(root));
                                proof {
                                    assert(self.cur.view_seq() =~= w0.cur.view_seq());
                                    assert(self.full() =~= w0.full());
                                    assert(self.spans() =~= w0.spans());
                                    assert(self.mid() == self.lo() + nlv.len() + 1 + clv.len());
                                    assert(w0.mid() == w0.lo() + lv.len());
                                    assert(nlv.len() == lv.len());
                                }
                                Option::Some(())
                            },
                        }
                    },
                }
            },
        }
    }

    /// Rotate the focused subtree up above its parent: the focused root
    /// takes the parent's place and the parent becomes its child, the
    /// values staying in order. The focus then covers the parent's old
    /// span while its node keeps its position in the sequence. Fails,
    /// changing nothing, at the root and at an empty focus.
    pub fn rot_up(&mut self) -> (r: Option<()>)
        requires
            old(self).wf(),
        ensures
            final(self).wf(),
            final(self).full() == old(self).full(),
            r is Some <==> old(self).spans().len() > 0 && old(self).lo() < old(self).hi(),
            r is None ==> *final(self) == *old(self),
            r is Some ==> final(self).spans() == old(self).spans().drop_last() && final(self).lo()
                == old(self).spans().last().0 && final(self).hi() == old(self).spans().last().1
                && final(self).lo() < final(self).hi() && final(self).mid() == old(self).mid(),
    {
        let ghost w0 = *self;
        proof {
            lemma_view_len::<D>(self.cur);
        }
        if self.path.len() == 0 {
            return Option::None;
        }
        let cur_filled = match &self.cur {
            BasicTree::Root(_) => true,
            BasicTree::Empty => false,
        };
        if !cur_filled {
            return Option::None;
        }
        proof {
            lemma_view_clean::<D>(self.cur);
        }
        let ghost p0 = self.path@;
        let f = match self.path.pop() {
            Option::Some(f) => f,
            Option::None => {
                proof {
                    assert(false);
                }
                return Option::None;
            },
        };
        let mut t = BasicTree::Empty;
        core::mem::swap(&mut self.cur, &mut t);
        let mut x = match t {
            BasicTree::Root(x) => x,
            BasicTree::Empty => {
                proof {
                    assert(false);
                }
                return Option::None;
            },
        };
        let ghost xlv = x.left.view_seq();
        let ghost xrv = x.right.view_seq();
        let mut xl = BasicTree::Empty;
        core::mem::swap(&mut x.left, &mut xl);
        let mut xr = BasicTree::Empty;
        core::mem::swap(&mut x.right, &mut xr);
        match f.side {
            Side::Left => {
                let inner = BasicNode::new(f.value, xr, f.other);
                let root = BasicNode::new(x.value, xl, BasicTree::Root(Box::new(inner)));
                self.cur = BasicTree::Root(Box::new(root));
            },
            Side::Right => {
                let inner = BasicNode::new(f.value, f.other, xl);
                let root = BasicNode::new(x.value, BasicTree::Root(Box::new(inner)), xr);
                self.cur = BasicTree::Root(Box::new(root));
            },
        }
        self.far_left = f.left_s;
        self.far_right = f.right_s;
        proof {
            let p1 = self.path@;
            assert(p1 =~= p0.drop_last());
            assert(f == p0.last());
            lemma_view_len::<D>(self.cur);
            lemma_view_clean::<D>(self.cur);
            assert(self.full() =~= w0.full());
            assert forall|k: int| 0 <= k < p1.len() implies self.spans()[k] == w0.spans()[k] by {
                assert(p1.take(k) =~= p0.take(k));
            }
            assert(self.spans() =~= w0.spans().drop_last());
            assert(p0.take(p1.len() as int) =~= p1);
            assert(w0.spans().last().0 == self.lo());
            assert(w0.spans().last().1 == self.hi());
            match f.side {
                Side::Left => {
                    assert(self.mid() == self.lo() + xlv.len());
                    assert(w0.mid() == w0.lo() + xlv.len());
                    assert(self.lo() == w0.lo());
                },
                Side::Right => {
                    assert(self.mid() == self.lo() + f.other.view_seq().len() + 1 + xlv.len());
                    assert(w0.lo() == self.lo() + f.other.view_seq().len() + 1);
                },
            }
        }
        Option::Some(())
    }

    /// Rotate the focused subtree's parent up above its grandparent: the
    /// first half of a zig-zig splay step. It applies when the two
    /// deepest path frames record the same side; the focus, its span and
    /// its far summaries are untouched, and the path gets one frame
    /// shorter. Fails, changing nothing, otherwise.
    pub fn rot_parent_up(&mut self) -> (r: Option<()>)
        requires
            old(self).wf(),
        ensures
            final(self).wf(),
            final(self).full() == old(self).full(),
            final(self).lo() == old(self).lo(),
            final(self).hi() == old(self).hi(),
            final(self).mid() == old(self).mid(),
            r is Some <==> old(self).spans().len() >= 2 && old(self).path@.last().side == old(
                self,
            ).path@[old(self).path@.len() - 2].side,
            r is None ==> *final(self) == *old(self),
            r is Some ==> final(self).spans().len() == old(self).spans().len() - 1,
    {
        let ghost w0 = *self;
        if self.path.len() < 2 {
            return Option::None;
        }
        let s1 = self.path[self.path.len() - 1].side;
        let s2 = self.path[self.path.len() - 2].side;
        let same = match (s1, s2) {
            (Side::Left, Side::Left) => true,
            (Side::Right, Side::Right) => true,
            _ => false,
        };
        if !same {
            proof {
                assert(s1 != s2);
            }
            return Option::None;
        }
        let ghost p0 = self.path@;
        let f1 = match self.path.pop() {
            Option::Some(f) => f,
            Option::None => {
                proof {
                    assert(false);
                }
                return Option::None;
            },
        };
        let f2 = match self.path.pop() {
            Option::Some(f) => f,
            Option::None => {
                proof {
                    assert(false);
                }
                return Option::None;
            },
        };
        let ghost p2 = self.path@;
        proof {
            assert(p0.drop_last() =~= p2.push(f2));
            assert(p2.push(f2).drop_last() =~= p2);
            assert(p2.push(f2).last() == f2);
            assert(f1 == p0.last());
            assert(path_wf::<D>(p0, w0.far_left, w0.far_right));
            assert(f1.other.inv());
            assert(path_wf::<D>(p0.drop_last(), f1.left_s, f1.right_s));
            assert(f2.other.inv());
            assert(path_wf::<D>(p2, f2.left_s, f2.right_s));
        }
        match f1.side {
            Side::Left => {
                let ghost o1s = f1.other.summary_spec();
                let ghost o2s = f2.other.summary_spec();
                let ghost v1 = f1.value;
                let ghost v2 = f2.value;
                let g = BasicNode::new(f2.value, f1.other, f2.other);
                proof {
                    D::law_id(v2, combine3::<D>(o1s, D::summarize_spec(v2), o2s));
                    lemma_view_clean::<D>(BasicTree::Root(Box::new(g)));
                    D::law_combine_assoc(
                        o1s,
                        D::summarize_spec(v2),
                        D::combine_spec(o2s, f2.right_s),
                    );
                    D::law_combine_assoc(
                        D::combine_spec(o1s, D::summarize_spec(v2)),
                        o2s,
                        f2.right_s,
                    );
                }
                let nf = Frame {
                    value: f1.value,
                    other: BasicTree::Root(Box::new(g)),
                    side: Side::Left,
                    left_s: f2.left_s,
                    right_s: f2.right_s,
                };
                self.path.push(nf);
                proof {
                    let p1 = self.path@;
                    assert(p1.drop_last() =~= p2);
                    assert(p1.last() == nf);
                    assert(prefix_of::<D>(p0) == prefix_of::<D>(p0.drop_last()));
                    assert(prefix_of::<D>(p0.drop_last()) == prefix_of::<D>(p2));
                    assert(prefix_of::<D>(p1) == prefix_of::<D>(p2));
                    assert(suffix_of::<D>(p0) == seq![v1] + f1.other.view_seq() + suffix_of::<
                        D,
                    >(p0.drop_last()));
                    assert(suffix_of::<D>(p0.drop_last()) == seq![v2] + f2.other.view_seq()
                        + suffix_of::<D>(p2));
                    assert(suffix_of::<D>(p1) == seq![v1] + nf.other.view_seq() + suffix_of::<D>(
                        p2,
                    ));
                    assert(nf.other.view_seq() =~= f1.other.view_seq() + seq![v2]
                        + f2.other.view_seq());
                    assert(suffix_of::<D>(p1) =~= suffix_of::<D>(p0));
                }
            },
            Side::Right => {
                let ghost o1s = f1.other.summary_spec();
                let ghost o2s = f2.other.summary_spec();
                let ghost v1 = f1.value;
                let ghost v2 = f2.value;
                let g = BasicNode::new(f2.value, f2.other, f1.other);
                proof {
                    D::law_id(v2, combine3::<D>(o2s, D::summarize_spec(v2), o1s));
                    lemma_view_clean::<D>(BasicTree::Root(Box::new(g)));
                    D::law_combine_assoc(f2.left_s, o2s, D::summarize_spec(v2));
                    D::law_combine_assoc(
                        f2.left_s,
                        D::combine_spec(o2s, D::summarize_spec(v2)),
                        o1s,
                    );
                }
                let nf = Frame {
                    value: f1.value,
                    other: BasicTree::Root(Box::new(g)),
                    side: Side::Right,
                    left_s: f2.left_s,
                    right_s: f2.right_s,
                };
                self.path.push(nf);
                proof {
                    let p1 = self.path@;
                    assert(p1.drop_last() =~= p2);
                    assert(p1.last() == nf);
                    assert(suffix_of::<D>(p0) == suffix_of::<D>(p0.drop_last()));
                    assert(suffix_of::<D>(p0.drop_last()) == suffix_of::<D>(p2));
                    assert(suffix_of::<D>(p1) == suffix_of::<D>(p2));
                    assert(prefix_of::<D>(p0) == prefix_of::<D>(p0.drop_last())
                        + f1.other.view_seq() + seq![v1]);
                    assert(prefix_of::<D>(p0.drop_last()) == prefix_of::<D>(p2)
                        + f2.other.view_seq() + seq![v2]);
                    assert(nf.other.view_seq() =~= f2.other.view_seq() + seq![v2]
                        + f1.other.view_seq());
                    assert(prefix_of::<D>(p1) =~= prefix_of::<D>(p0));
                }
            },
        }
        Option::Some(())
    }

    /// At an empty position, detach and return everything to the right
    /// of the position; the walker keeps everything to the left, at the
    /// root. Fails at a nonempty position.
    pub fn split_right(&mut self) -> (r: Option<BasicTree<D>>)
        requires
            old(self).wf(),
        ensures
            final(self).wf(),
            r is Some <==> old(self).lo() == old(self).hi(),
            r is None ==> *final(self) == *old(self),
            r is Some ==> final(self).full() == old(self).full().take(old(self).lo())
                && final(self).spans().len() == 0 && r->Some_0.inv() && r->Some_0.clean()
                && r->Some_0.view_seq() == old(self).full().skip(old(self).lo()),
    {
        let ghost w0 = *self;
        match &self.cur {
            BasicTree::Root(_) => {
                proof {
                    lemma_view_len::<D>(self.cur);
                }
                return Option::None;
            },
            BasicTree::Empty => {},
        }
        proof {
            lemma_view_len::<D>(self.cur);
        }
        let ghost p = w0.lo();
        let mut right_acc = BasicTree::Empty;
        let ghost mut cfl = self.far_left;
        let ghost mut cfr = self.far_right;
        loop
            invariant
                self.cur.inv(),
                self.cur.clean(),
                path_wf::<D>(self.path@, cfl, cfr),
                right_acc.inv(),
                right_acc.clean(),
                prefix_of::<D>(self.path@) + self.cur.view_seq() == w0.full().take(p),
                right_acc.view_seq() + suffix_of::<D>(self.path@) == w0.full().skip(p),
            ensures
                self.cur.inv(),
                self.cur.clean(),
                self.path@.len() == 0,
                right_acc.inv(),
                right_acc.clean(),
                self.cur.view_seq() == w0.full().take(p),
                right_acc.view_seq() == w0.full().skip(p),
            decreases self.path@.len(),
        {
            proof {
                lemma_path_others_inv::<D>(self.path@, cfl, cfr);
            }
            match self.path.pop() {
                Option::None => {
                    proof {
                        assert(prefix_of::<D>(self.path@) =~= Seq::<D::Value>::empty());
                        assert(suffix_of::<D>(self.path@) =~= Seq::<D::Value>::empty());
                        assert(self.cur.view_seq() =~= w0.full().take(p));
                        assert(right_acc.view_seq() =~= w0.full().skip(p));
                    }
                    break ;
                },
                Option::Some(f) => {
                    let ghost path0 = self.path@.push(f);
                    proof {
                        assert(path0.drop_last() =~= self.path@);
                        assert(path0.last() == f);
                    }
                    match f.side {
                        Side::Left => {
                            let node = BasicNode::new(f.value, right_acc, f.other);
                            right_acc = BasicTree::Root(Box::new(node));
                            proof {
                                cfl = f.left_s;
                                cfr = f.right_s;
                                assert(right_acc.view_seq() + suffix_of::<D>(self.path@)
                                    =~= w0.full().skip(p));
                            }
                        },
                        Side::Right => {
                            let mut t = BasicTree::Empty;
                            core::mem::swap(&mut self.cur, &mut t);
                            let node = BasicNode::new(f.value, f.other, t);
                            self.cur = BasicTree::Root(Box::new(node));
                            proof {
                                cfl = f.left_s;
                                cfr = f.right_s;
                                assert(prefix_of::<D>(self.path@) + self.cur.view_seq()
                                    =~= w0.full().take(p));
                            }
                        },
                    }
                },
            }
        }
        self.far_left = D::empty_summary();
        self.far_right = D::empty_summary();
        let mut out = BasicTree::Empty;
        core::mem::swap(&mut right_acc, &mut out);
        proof {
            assert(self.full() =~= w0.full().take(p));
        }
        Option::Some(out)
    }

    /// At an empty position, detach and return everything to the left
    /// of the position; the walker keeps everything to the right, at
    /// the root. Fails at a nonempty position.
    pub fn split_left(&mut self) -> (r: Option<BasicTree<D>>)
        requires
            old(self).wf(),
        ensures
            final(self).wf(),
            r is Some <==> old(self).lo() == old(self).hi(),
            r is None ==> *final(self) == *old(self),
            r is Some ==> final(self).full() == old(self).full().skip(old(self).lo())
                && final(self).spans().len() == 0 && r->Some_0.inv() && r->Some_0.view_seq() == old(
                self,
            ).full().take(old(self).lo()),
    {
        let ghost w0 = *self;
        match self.split_right() {
            Option::None => Option::None,
            Option::Some(right) => {
                let mut left = BasicTree::Empty;
                core::mem::swap(&mut self.cur, &mut left);
                self.cur = right;
                proof {
                    assert(self.full() =~= w0.full().skip(w0.lo()));
                }
                Option::Some(left)
            },
        }
    }
}

} // verus!
