//! The splay tree: a self-adjusting flavor. Its walker can splay the
//! focused subtree to the root with single and double rotations, and
//! the tree supports splitting, concatenation and therefore segment
//! reversal. Splaying rearranges the tree but never the sequence of
//! values, which is all the contracts speak of.

use vstd::prelude::*;
use crate::data::Data;
use crate::data::Keyed;
use crate::data::Reverse;
use crate::data::SizedData;
use crate::data::act_seq;
use crate::data::summarize_seq;
use crate::basic_tree::BasicTree;
use crate::locators::IndexRange;
use crate::locators::Locator;
use crate::locators::lemma_index_range_shaped;
use crate::locators::lemma_seg_bounds;
use crate::locators::seg_high;
use crate::locators::seg_low;
use crate::locators::sorted_by_key;
use crate::methods;
use crate::trees::ConcatenableTree;
use crate::trees::ModifiableWalker;
use crate::trees::Side;
use crate::trees::SomeEntry;
use crate::trees::SomeTree;
use crate::trees::SomeWalker;
use crate::trees::SplittableWalker;
use crate::walker::BasicWalker;

verus! {

/// A tree that splays: wraps a basic tree whose shape the splay
/// operations rearrange.
pub struct SplayTree<D: Data> {
    pub tree: BasicTree<D>,
}

/// A walker over a splay tree. Beyond the ordinary walker operations it
/// can splay the focus to the root; finish a walk with
/// [`SplayWalker::into_tree`] to do exactly that.
pub struct SplayWalker<D: Data> {
    pub walker: BasicWalker<D>,
}

impl<D: Data> SplayTree<D> {
    /// The empty splay tree.
    pub fn new() -> (t: Self)
        ensures
            t.inv(),
            t.view_seq() == Seq::<D::Value>::empty(),
    {
        SplayTree { tree: BasicTree::Empty }
    }

    /// A splay tree over an existing plain tree.
    pub fn from_inner(tree: BasicTree<D>) -> (t: Self)
        ensures
            t.tree == tree,
            t.inv() == tree.inv(),
            t.view_seq() == tree.view_seq(),
    {
        SplayTree { tree }
    }

    /// The plain tree underneath.
    pub fn into_inner(self) -> (t: BasicTree<D>)
        ensures
            t == self.tree,
    {
        let SplayTree { tree } = self;
        tree
    }

    /// The value at the root, with all pending actions applied; absent
    /// when the tree is empty. A successful [`SplayTree::search`] splays
    /// the node it found to the root, so this reads the value found.
    pub fn root_data(&mut self) -> (r: Option<D::Value>)
        requires
            old(self).inv(),
        ensures
            final(self).inv(),
            final(self).view_seq() == old(self).view_seq(),
            r is Some <==> old(self).view_seq().len() > 0,
            r is Some ==> 0 <= final(self).tree.left_len() < final(self).view_seq().len()
                && r->Some_0 == final(self).view_seq()[final(self).tree.left_len()],
    {
        let ghost v0 = self.tree.view_seq();
        self.tree.access_tree();
        proof {
            crate::basic_tree::lemma_view_len::<D>(self.tree);
        }
        match &self.tree {
            BasicTree::Empty => Option::None,
            BasicTree::Root(n) => {
                proof {
                    crate::basic_tree::lemma_view_clean::<D>(self.tree);
                    crate::basic_tree::lemma_view_len::<D>(n.left);
                    assert(self.tree.view_seq()[n.left.view_seq().len() as int] == n.value);
                }
                Option::Some(n.value)
            },
        }
    }

    /// Take the tree out as a walker over the plain underlying tree.
    /// The splay tree itself is left empty; put the walker's tree back
    /// when the walk is done. Walking this way skips the splaying.
    pub fn basic_walker(&mut self) -> (w: BasicWalker<D>)
        requires
            old(self).inv(),
        ensures
            w.wf(),
            w.full() == old(self).view_seq(),
            w.spans().len() == 0,
            final(self).view_seq() == Seq::<D::Value>::empty(),
            final(self).inv(),
    {
        let mut t = BasicTree::Empty;
        core::mem::swap(&mut self.tree, &mut t);
        BasicWalker::new(t)
    }

    /// Take the tree out as a splaying walker. The splay tree itself is
    /// left empty; put the walker's tree back when the walk is done.
    pub fn walker(&mut self) -> (w: SplayWalker<D>)
        requires
            old(self).inv(),
        ensures
            w.wf(),
            w.full() == old(self).view_seq(),
            w.spans().len() == 0,
            final(self).view_seq() == Seq::<D::Value>::empty(),
            final(self).inv(),
    {
        SplayWalker { walker: self.basic_walker() }
    }

    /// Search a key-sorted tree for a key; the found node is splayed to
    /// the root. Fails when the key is absent; some other node is
    /// splayed instead, and the tree is unchanged either way.
    pub fn search(&mut self, key: u64) -> (r: Result<(), ()>) where D: Keyed
        requires
            old(self).inv(),
            sorted_by_key::<D>(old(self).view_seq()),
        ensures
            final(self).inv(),
            final(self).view_seq() == old(self).view_seq(),
            r is Ok <==> exists|i: int|
                0 <= i < old(self).view_seq().len() && D::key_spec(
                    #[trigger] old(self).view_seq()[i],
                ) == key,
            r is Ok ==> 0 <= final(self).tree.left_len() < final(self).view_seq().len()
                && D::key_spec(final(self).view_seq()[final(self).tree.left_len()]) == key,
    {
        let mut w = self.walker();
        methods::search(&mut w, key);
        let found = !SomeWalker::is_empty(&w);
        proof {
            w.lemma_wf();
        }
        self.tree = w.into_tree();
        if found {
            Result::Ok(())
        } else {
            Result::Err(())
        }
    }

    /// Insert a value into a key-sorted tree, after every value whose
    /// key is not larger, and splay it to the root. Keys may repeat.
    pub fn insert(&mut self, value: D::Value) where D: Keyed
        requires
            old(self).inv(),
            sorted_by_key::<D>(old(self).view_seq()),
        ensures
            final(self).inv(),
            sorted_by_key::<D>(final(self).view_seq()),
            exists|p: int|
                0 <= p <= old(self).view_seq().len() && #[trigger] final(self).view_seq() == old(self).view_seq().insert(p, value) && (forall|i: int|
                    0 <= i < p ==> D::key_spec(#[trigger] old(self).view_seq()[i]) <= D::key_spec(
                        value,
                    )) && (forall|i: int|
                    p <= i < old(self).view_seq().len() ==> D::key_spec(
                        #[trigger] old(self).view_seq()[i],
                    ) > D::key_spec(value)),
    {
        let ghost s = self.view_seq();
        let key = D::get_key(value);
        let loc = crate::locators::ByKeyInsert { key };
        proof {
            crate::locators::lemma_by_key_insert_shaped::<D>(key, s);
            lemma_seg_bounds::<D, crate::locators::ByKeyInsert>(loc, s);
        }
        let ghost p = seg_low::<D, crate::locators::ByKeyInsert>(loc, s);
        let mut w = self.walker();
        methods::search_by_locator(&mut w, &loc);
        let _ = ModifiableWalker::insert(&mut w, value);
        w.splay();
        self.tree = w.into_inner().into_tree();
        proof {
            let s2 = s.insert(p, value);
            assert forall|i: int, j: int|
                0 <= i <= j < s2.len() implies D::key_spec(#[trigger] s2[i]) <= D::key_spec(
                #[trigger] s2[j],
            ) by {
                if i < p {
                    assert(crate::locators::decide::<D, crate::locators::ByKeyInsert>(
                        loc,
                        s,
                        i,
                    ) is GoRight);
                }
                if j > p {
                    assert(!(crate::locators::decide::<D, crate::locators::ByKeyInsert>(
                        loc,
                        s,
                        j - 1,
                    ) is GoRight));
                }
            }
            assert forall|i: int| 0 <= i < p implies D::key_spec(#[trigger] s[i]) <= D::key_spec(
                value,
            ) by {
                assert(crate::locators::decide::<D, crate::locators::ByKeyInsert>(
                    loc,
                    s,
                    i,
                ) is GoRight);
            }
            assert forall|i: int| p <= i < s.len() implies D::key_spec(#[trigger] s[i])
                > D::key_spec(value) by {
                assert(!(crate::locators::decide::<D, crate::locators::ByKeyInsert>(
                    loc,
                    s,
                    i,
                ) is GoRight));
            }
        }
    }

    /// Remove one value holding the key from a key-sorted tree and
    /// return it; the tree stays sorted. Fails, changing nothing, when
    /// the key is absent.
    pub fn delete(&mut self, key: u64) -> (r: Option<D::Value>) where D: Keyed
        requires
            old(self).inv(),
            sorted_by_key::<D>(old(self).view_seq()),
        ensures
            final(self).inv(),
            sorted_by_key::<D>(final(self).view_seq()),
            r is Some <==> exists|i: int|
                0 <= i < old(self).view_seq().len() && D::key_spec(
                    #[trigger] old(self).view_seq()[i],
                ) == key,
            r is None ==> final(self).view_seq() == old(self).view_seq(),
            r is Some ==> exists|i: int|
                0 <= i < old(self).view_seq().len() && D::key_spec(
                    #[trigger] old(self).view_seq()[i],
                ) == key && r->Some_0 == old(self).view_seq()[i] && final(self).view_seq() == old(self).view_seq().remove(i),
    {
        let ghost s = self.view_seq();
        let mut w = self.walker();
        methods::search(&mut w, key);
        let r = if SomeWalker::is_empty(&w) {
            Option::None
        } else {
            let ghost i = w.mid();
            let v = match ModifiableWalker::delete(&mut w) {
                Option::Some(v) => v,
                Option::None => {
                    proof {
                        assert(false);
                    }
                    return Option::None;
                },
            };
            proof {
                assert forall|a: int, b: int|
                    0 <= a <= b < s.remove(i).len() implies D::key_spec(
                    #[trigger] s.remove(i)[a],
                ) <= D::key_spec(#[trigger] s.remove(i)[b]) by {
                    if a < i && b < i {
                        assert(s.remove(i)[a] == s[a] && s.remove(i)[b] == s[b]);
                    } else if a < i {
                        assert(s.remove(i)[a] == s[a] && s.remove(i)[b] == s[b + 1]);
                    } else {
                        assert(s.remove(i)[a] == s[a + 1] && s.remove(i)[b] == s[b + 1]);
                    }
                }
            }
            Option::Some(v)
        };
        w.splay();
        self.tree = w.into_inner().into_tree();
        r
    }

    /// Apply an action to the values at positions `[start, end)`: split
    /// the segment out, act on it as a whole, and concatenate back.
    /// Unlike the locator-directed segment action, the action may
    /// request reversal.
    pub fn act_range(&mut self, action: D::Action, start: usize, end: usize) where D: SizedData
        requires
            old(self).inv(),
            start <= end,
            old(self).view_seq().len() <= u64::MAX,
        ensures
            final(self).inv(),
            ({
                let s = old(self).view_seq();
                let p1 = if start <= s.len() {
                    start as int
                } else {
                    s.len() as int
                };
                let p2 = if end <= s.len() {
                    end as int
                } else {
                    s.len() as int
                };
                final(self).view_seq() == s.take(p1) + act_seq::<D>(action, s.subrange(p1, p2))
                    + s.skip(p2)
            }),
    {
        let ghost s = self.view_seq();
        let ghost p1: int = if start <= s.len() {
            start as int
        } else {
            s.len() as int
        };
        let ghost p2: int = if end <= s.len() {
            end as int
        } else {
            s.len() as int
        };
        let loc1 = IndexRange { start, end: start };
        proof {
            lemma_index_range_shaped::<D>(start, start, s);
            lemma_seg_bounds::<D, IndexRange>(loc1, s);
        }
        let mut w1 = self.basic_walker();
        methods::search_by_locator(&mut w1, &loc1);
        let right1 = match BasicWalker::split_right(&mut w1) {
            Option::Some(t) => t,
            Option::None => {
                proof {
                    assert(false);
                }
                return ;
            },
        };
        let left = w1.into_tree();
        let ghost r1v = right1.view_seq();
        let k = end - start;
        let loc2 = IndexRange { start: k, end: k };
        proof {
            assert(r1v =~= s.skip(p1));
            lemma_index_range_shaped::<D>(k, k, r1v);
            lemma_seg_bounds::<D, IndexRange>(loc2, r1v);
        }
        let mut w2 = BasicWalker::new(right1);
        methods::search_by_locator(&mut w2, &loc2);
        let right2 = match BasicWalker::split_right(&mut w2) {
            Option::Some(t) => t,
            Option::None => {
                proof {
                    assert(false);
                }
                return ;
            },
        };
        let mut mid = w2.into_tree();
        proof {
            assert(mid.view_seq() =~= s.subrange(p1, p2));
            assert(right2.view_seq() =~= s.skip(p2));
        }
        mid.act_subtree(action);
        let mut joined = left;
        ConcatenableTree::concatenate_right(&mut joined, mid);
        ConcatenableTree::concatenate_right(&mut joined, right2);
        self.tree = joined;
        proof {
            assert(self.view_seq() =~= s.take(p1) + act_seq::<D>(action, s.subrange(p1, p2))
                + s.skip(p2));
        }
    }

    /// Reverse the values at positions `[start, end)`.
    pub fn reverse_range(&mut self, start: usize, end: usize) where D: Reverse + SizedData
        requires
            old(self).inv(),
            start <= end,
            old(self).view_seq().len() <= u64::MAX,
        ensures
            final(self).inv(),
            ({
                let s = old(self).view_seq();
                let p1 = if start <= s.len() {
                    start as int
                } else {
                    s.len() as int
                };
                let p2 = if end <= s.len() {
                    end as int
                } else {
                    s.len() as int
                };
                final(self).view_seq() == s.take(p1) + s.subrange(p1, p2).reverse() + s.skip(p2)
            }),
    {
        let ghost s = self.view_seq();
        let a = D::reversal_action();
        self.act_range(a, start, end);
        proof {
            let p1: int = if start <= s.len() {
                start as int
            } else {
                s.len() as int
            };
            let p2: int = if end <= s.len() {
                end as int
            } else {
                s.len() as int
            };
            let x = s.subrange(p1, p2);
            assert(x.map_values(|v: D::Value| D::act_value_spec(a, v)) =~= x);
            assert(act_seq::<D>(a, x) == x.reverse());
        }
    }
}

impl<D: Data> SplayWalker<D> {
    /// A splay walker around a plain walker.
    pub fn new(walker: BasicWalker<D>) -> (w: Self)
        ensures
            w.walker == walker,
    {
        SplayWalker { walker }
    }

    /// The focused subtree.
    pub fn inner(&self) -> (t: &BasicTree<D>)
        ensures
            t == self.walker.cur,
    {
        self.walker.inner()
    }

    /// Give up splaying and return the plain walker.
    pub fn into_inner(self) -> (w: BasicWalker<D>)
        ensures
            w == self.walker,
    {
        let SplayWalker { walker } = self;
        walker
    }

    /// One splay step: the focused subtree rises at least one level and
    /// its node keeps its place in the sequence. Near the root a single
    /// rotation (zig); elsewhere a double rotation — parent first when
    /// the focus and its parent lie on the same side (zig-zig), two
    /// rotations of the focus itself when they alternate (zig-zag). At
    /// the root it does nothing; from an empty focus it just steps out.
    pub fn splay_step(&mut self)
        requires
            old(self).wf(),
        ensures
            final(self).wf(),
            final(self).full() == old(self).full(),
            old(self).spans().len() > 0 ==> final(self).spans().len() < old(self).spans().len(),
            old(self).spans().len() == 0 ==> *final(self) == *old(self),
            old(self).spans().len() > 0 && old(self).lo() < old(self).hi() ==> final(self).lo()
                < final(self).hi() && final(self).mid() == old(self).mid(),
    {
        if self.walker.depth() == 0 {
            return ;
        }
        proof {
            self.walker.lemma_wf();
        }
        // from an empty focus, just step out of it
        if SomeWalker::is_empty(&self.walker) {
            let _ = self.walker.go_up();
            return ;
        }
        if self.walker.depth() == 1 {
            // zig: the parent is the root
            let _ = self.walker.rot_up();
            return ;
        }
        match self.walker.rot_parent_up() {
            Option::Some(()) => {
                // zig-zig: the parent has risen above the grandparent;
                // now the focus rises above the parent
                let _ = self.walker.rot_up();
            },
            Option::None => {
                // zig-zag: the sides alternate, so the focus rotates up
                // twice in turn
                let _ = self.walker.rot_up();
                let _ = self.walker.rot_up();
            },
        }
    }

    /// Splay the focused subtree to the root: afterwards the walker is
    /// at the root and, if the focus was a node, that node is the
    /// tree's root.
    pub fn splay(&mut self)
        requires
            old(self).wf(),
        ensures
            final(self).wf(),
            final(self).full() == old(self).full(),
            final(self).spans().len() == 0,
            old(self).lo() < old(self).hi() ==> final(self).lo() < final(self).hi() && final(self).mid() == old(self).mid(),
    {
        loop
            invariant
                self.wf(),
                self.full() == old(self).full(),
                old(self).lo() < old(self).hi() ==> self.lo() < self.hi() && self.mid() == old(self).mid(),
            ensures
                self.wf(),
                self.full() == old(self).full(),
                self.spans().len() == 0,
                old(self).lo() < old(self).hi() ==> self.lo() < self.hi() && self.mid() == old(self).mid(),
            decreases self.spans().len(),
        {
            if self.walker.depth() == 0 {
                break ;
            }
            self.splay_step();
        }
    }

    /// Splay to the root and return the tree. A focused node becomes
    /// the tree's root.
    pub fn into_tree(self) -> (t: BasicTree<D>)
        requires
            self.wf(),
        ensures
            t.inv(),
            t.view_seq() == self.full(),
            self.lo() < self.hi() ==> t.left_len() == self.mid(),
    {
        let mut w = self;
        w.splay();
        proof {
            w.walker.lemma_wf();
        }
        w.walker.into_tree()
    }
}

impl<D: Data> SomeWalker<D> for SplayWalker<D> {
    open spec fn full(&self) -> Seq<D::Value> {
        self.walker.full()
    }

    open spec fn lo(&self) -> int {
        self.walker.lo()
    }

    open spec fn hi(&self) -> int {
        self.walker.hi()
    }

    open spec fn mid(&self) -> int {
        self.walker.mid()
    }

    open spec fn spans(&self) -> Seq<(int, int)> {
        self.walker.spans()
    }

    open spec fn wf(&self) -> bool {
        self.walker.wf()
    }

    proof fn lemma_wf(&self) {
        self.walker.lemma_wf();
        assert(self.lo() == self.walker.lo() && self.hi() == self.walker.hi());
        assert(self.spans() == self.walker.spans());
        assert(self.full() == self.walker.full());
        assert(self.mid() == self.walker.mid());
    }

    fn go_left(&mut self) -> (r: Result<(), ()>) {
        self.walker.go_left()
    }

    fn go_right(&mut self) -> (r: Result<(), ()>) {
        self.walker.go_right()
    }

    fn go_up(&mut self) -> (r: Result<Side, ()>) {
        self.walker.go_up()
    }

    fn depth(&self) -> (d: usize) {
        self.walker.depth()
    }

    fn go_to_root(&mut self) {
        self.splay();
    }

    fn is_empty(&self) -> (r: bool) {
        SomeWalker::is_empty(&self.walker)
    }

    fn far_left_summary(&self) -> (s: D::Summary) {
        self.walker.far_left_summary()
    }

    fn far_right_summary(&self) -> (s: D::Summary) {
        self.walker.far_right_summary()
    }

    fn subtree_summary(&self) -> (s: D::Summary) {
        SomeWalker::subtree_summary(&self.walker)
    }

    fn node_summary(&self) -> (s: D::Summary) {
        self.walker.node_summary()
    }

    fn left_subtree_summary(&self) -> (r: Option<D::Summary>) {
        self.walker.left_subtree_summary()
    }

    fn right_subtree_summary(&self) -> (r: Option<D::Summary>) {
        self.walker.right_subtree_summary()
    }

    fn value(&self) -> (r: Option<D::Value>) {
        self.walker.value()
    }

    fn act_subtree(&mut self, a: D::Action) {
        SomeWalker::act_subtree(&mut self.walker, a)
    }

    fn act_node(&mut self, a: D::Action) -> (r: Option<()>) {
        SomeWalker::act_node(&mut self.walker, a)
    }

    fn act_left_subtree(&mut self, a: D::Action) -> (r: Option<()>) {
        SomeWalker::act_left_subtree(&mut self.walker, a)
    }

    fn act_right_subtree(&mut self, a: D::Action) -> (r: Option<()>) {
        SomeWalker::act_right_subtree(&mut self.walker, a)
    }
}

impl<D: Data> ModifiableWalker<D> for SplayWalker<D> {
    fn insert(&mut self, value: D::Value) -> (r: Option<()>) {
        ModifiableWalker::insert(&mut self.walker, value)
    }

    fn delete(&mut self) -> (r: Option<D::Value>) {
        ModifiableWalker::delete(&mut self.walker)
    }
}

impl<D: Data> SplittableWalker<D> for SplayWalker<D> {
    type T = SplayTree<D>;

    fn split_right(&mut self) -> (r: Option<SplayTree<D>>) {
        match BasicWalker::split_right(&mut self.walker) {
            Option::Some(t) => Option::Some(SplayTree { tree: t }),
            Option::None => Option::None,
        }
    }

    fn split_left(&mut self) -> (r: Option<SplayTree<D>>) {
        match BasicWalker::split_left(&mut self.walker) {
            Option::Some(t) => Option::Some(SplayTree { tree: t }),
            Option::None => Option::None,
        }
    }
}

impl<D: Data> Default for SplayTree<D> {
    /// The empty splay tree.
    fn default() -> (t: Self)
        ensures
            t.inv(),
            t.view_seq() == Seq::<D::Value>::empty(),
    {
        SplayTree::new()
    }
}

impl<D: Data> SomeEntry<D> for SplayTree<D> {
    open spec fn inv(&self) -> bool {
        self.tree.inv()
    }

    open spec fn view_seq(&self) -> Seq<D::Value> {
        self.tree.view_seq()
    }

    fn is_empty(&self) -> (r: bool) {
        BasicTree::is_empty(&self.tree)
    }

    fn subtree_summary(&self) -> (r: D::Summary) {
        BasicTree::subtree_summary(&self.tree)
    }

    fn act_subtree(&mut self, a: D::Action) {
        BasicTree::act_subtree(&mut self.tree, a);
    }
}

impl<D: Data> SomeTree<D> for SplayTree<D> {
    fn segment_summary<L: Locator<D>>(&mut self, locator: &L) -> (r: D::Summary) {
        SomeTree::segment_summary(&mut self.tree, locator)
    }

    fn act_segment<L: Locator<D>>(&mut self, action: D::Action, locator: &L) {
        SomeTree::act_segment(&mut self.tree, action, locator)
    }

    fn iter_locator<L: Locator<D>>(&self, locator: &L) -> (r: Vec<D::Value>) {
        methods::iter_locator(&self.tree, locator)
    }

    fn iter(&self) -> (r: Vec<D::Value>) {
        methods::to_array(&self.tree)
    }
}

impl<D: Data> ConcatenableTree<D> for SplayTree<D> {
    fn concatenate_right(&mut self, other: Self) {
        ConcatenableTree::concatenate_right(&mut self.tree, other.tree)
    }
}

} // verus!
