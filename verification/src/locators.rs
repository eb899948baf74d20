//! Locators: predicate objects that direct a walker to a contiguous
//! segment of the in-order sequence.
//!
//! At each node a locator sees the summary of everything left of the
//! node, the node's value, and the summary of everything right of it,
//! and answers [`LocResult::GoRight`], [`LocResult::Accept`] or
//! [`LocResult::GoLeft`]. On a given sequence the answers, read left to
//! right, must be a run of `GoRight`, then a run of `Accept`, then a
//! run of `GoLeft` ([`segment_shaped`]); the accepted run is the
//! locator's segment, and the generic segment algorithms are proved
//! correct for every locator with that shape.

use vstd::prelude::*;
use crate::data::Data;
use crate::data::Keyed;
use crate::data::SizedData;
use crate::data::summarize_seq;

verus! {

/// A locator's answer at one node.
#[derive(Clone, Copy, PartialEq, Eq, Structural, Debug)]
pub enum LocResult {
    Accept,
    GoRight,
    GoLeft,
}

/// A locator: directs a descent by inspecting the left context, the
/// node's value and the right context.
pub trait Locator<D: Data>: Sized {
    /// The mathematical model of the answer.
    spec fn locate_spec(&self, left: D::Summary, v: D::Value, right: D::Summary) -> LocResult;

    fn locate(&self, left: D::Summary, v: D::Value, right: D::Summary) -> (r: LocResult)
        ensures
            r == self.locate_spec(left, v, right),
    ;
}

/// The locator's answer at position `i` of the sequence `s`: what it
/// says when shown the summaries of everything before and after that
/// position.
pub open spec fn decide<D: Data, L: Locator<D>>(loc: L, s: Seq<D::Value>, i: int) -> LocResult {
    loc.locate_spec(summarize_seq::<D>(s.take(i)), s[i], summarize_seq::<D>(s.skip(i + 1)))
}

/// Answers ordered as they may appear left to right.
pub open spec fn rank(r: LocResult) -> int {
    match r {
        LocResult::GoRight => 0,
        LocResult::Accept => 1,
        LocResult::GoLeft => 2,
    }
}

/// The locator's answers on `s` form a run of `GoRight`, then a run of
/// `Accept`, then a run of `GoLeft`.
pub open spec fn segment_shaped<D: Data, L: Locator<D>>(loc: L, s: Seq<D::Value>) -> bool {
    forall|i: int, j: int|
        0 <= i <= j < s.len() ==> rank(#[trigger] decide(loc, s, i)) <= rank(
            #[trigger] decide(loc, s, j),
        )
}

pub open spec fn low_from<D: Data, L: Locator<D>>(loc: L, s: Seq<D::Value>, i: int) -> int
    decreases s.len() - i,
{
    if i < 0 || i >= s.len() {
        i
    } else if decide(loc, s, i) is GoRight {
        low_from(loc, s, i + 1)
    } else {
        i
    }
}

/// Start of the accepted segment: the number of `GoRight` answers.
pub open spec fn seg_low<D: Data, L: Locator<D>>(loc: L, s: Seq<D::Value>) -> int {
    low_from(loc, s, 0)
}

pub open spec fn high_from<D: Data, L: Locator<D>>(loc: L, s: Seq<D::Value>, i: int) -> int
    decreases s.len() - i,
{
    if i < 0 || i >= s.len() {
        i
    } else if decide(loc, s, i) is GoLeft {
        i
    } else {
        high_from(loc, s, i + 1)
    }
}

/// End of the accepted segment: the first `GoLeft` answer.
pub open spec fn seg_high<D: Data, L: Locator<D>>(loc: L, s: Seq<D::Value>) -> int {
    high_from(loc, s, 0)
}

proof fn lemma_low_from<D: Data, L: Locator<D>>(loc: L, s: Seq<D::Value>, i: int)
    requires
        0 <= i <= s.len(),
    ensures
        i <= low_from(loc, s, i) <= s.len(),
        forall|j: int| i <= j < low_from(loc, s, i) ==> #[trigger] decide(loc, s, j) is GoRight,
        low_from(loc, s, i) < s.len() ==> !(decide(loc, s, low_from(loc, s, i)) is GoRight),
    decreases s.len() - i,
{
    if i < s.len() && decide(loc, s, i) is GoRight {
        lemma_low_from(loc, s, i + 1);
    }
}

proof fn lemma_high_from<D: Data, L: Locator<D>>(loc: L, s: Seq<D::Value>, i: int)
    requires
        0 <= i <= s.len(),
    ensures
        i <= high_from(loc, s, i) <= s.len(),
        forall|j: int| i <= j < high_from(loc, s, i) ==> !(#[trigger] decide(loc, s, j) is GoLeft),
        high_from(loc, s, i) < s.len() ==> decide(loc, s, high_from(loc, s, i)) is GoLeft,
    decreases s.len() - i,
{
    if i < s.len() && !(decide(loc, s, i) is GoLeft) {
        lemma_high_from(loc, s, i + 1);
    }
}

/// On a shaped sequence the three runs are exactly delimited by
/// [`seg_low`] and [`seg_high`].
pub proof fn lemma_seg_bounds<D: Data, L: Locator<D>>(loc: L, s: Seq<D::Value>)
    requires
        segment_shaped(loc, s),
    ensures
        0 <= seg_low(loc, s) <= seg_high(loc, s) <= s.len(),
        forall|i: int|
            0 <= i < s.len() ==> ((#[trigger] decide(loc, s, i)) is GoRight <==> i < seg_low(
                loc,
                s,
            )),
        forall|i: int|
            0 <= i < s.len() ==> ((#[trigger] decide(loc, s, i)) is GoLeft <==> seg_high(loc, s)
                <= i),
        forall|i: int|
            0 <= i < s.len() ==> ((#[trigger] decide(loc, s, i)) is Accept <==> seg_low(loc, s)
                <= i < seg_high(loc, s)),
{
    let low = seg_low(loc, s);
    let high = seg_high(loc, s);
    lemma_low_from(loc, s, 0);
    lemma_high_from(loc, s, 0);
    if high < low {
        // the first `GoLeft` would stand left of a `GoRight`
        assert(decide(loc, s, high) is GoLeft);
        assert(decide(loc, s, high) is GoRight);
        assert(false);
    }
    assert forall|i: int| 0 <= i < s.len() implies ((#[trigger] decide(loc, s, i)) is GoRight <==> i
        < low) by {
        if i >= low && low < s.len() {
            assert(rank(decide(loc, s, low)) <= rank(decide(loc, s, i)));
        }
    }
    assert forall|i: int| 0 <= i < s.len() implies ((#[trigger] decide(loc, s, i)) is GoLeft <==> high
        <= i) by {
        if i >= high && high < s.len() {
            assert(rank(decide(loc, s, high)) <= rank(decide(loc, s, i)));
        }
    }
}

/// Non-decreasing keys, the binary search tree order.
pub open spec fn sorted_by_key<D: Keyed>(s: Seq<D::Value>) -> bool {
    forall|i: int, j: int|
        0 <= i <= j < s.len() ==> D::key_spec(#[trigger] s[i]) <= D::key_spec(#[trigger] s[j])
}

/// Accepts every position: the whole sequence is its segment.
pub struct All;

impl<D: Data> Locator<D> for All {
    open spec fn locate_spec(&self, left: D::Summary, v: D::Value, right: D::Summary) -> LocResult {
        LocResult::Accept
    }

    fn locate(&self, left: D::Summary, v: D::Value, right: D::Summary) -> LocResult {
        LocResult::Accept
    }
}

/// On any sequence, [`All`] is shaped and accepts everything.
pub proof fn lemma_all_shaped<D: Data>(s: Seq<D::Value>)
    ensures
        segment_shaped::<D, All>(All, s),
        seg_low::<D, All>(All, s) == 0,
        seg_high::<D, All>(All, s) == s.len(),
{
    assert forall|i: int, j: int| 0 <= i <= j < s.len() implies rank(
        #[trigger] decide::<D, All>(All, s, i),
    ) <= rank(#[trigger] decide::<D, All>(All, s, j)) by {}
    lemma_seg_bounds::<D, All>(All, s);
    if s.len() > 0 {
        assert(decide::<D, All>(All, s, 0) is Accept);
        assert(decide::<D, All>(All, s, s.len() - 1) is Accept);
    }
}

/// Accepts the positions whose key equals the given key; directs the
/// descent by comparison everywhere else.
pub struct ByKey {
    pub key: u64,
}

impl<D: Keyed> Locator<D> for ByKey {
    open spec fn locate_spec(&self, left: D::Summary, v: D::Value, right: D::Summary) -> LocResult {
        if D::key_spec(v) < self.key {
            LocResult::GoRight
        } else if D::key_spec(v) == self.key {
            LocResult::Accept
        } else {
            LocResult::GoLeft
        }
    }

    fn locate(&self, left: D::Summary, v: D::Value, right: D::Summary) -> LocResult {
        let k = D::get_key(v);
        if k < self.key {
            LocResult::GoRight
        } else if k == self.key {
            LocResult::Accept
        } else {
            LocResult::GoLeft
        }
    }
}

/// On a key-sorted sequence, [`ByKey`] is shaped.
pub proof fn lemma_by_key_shaped<D: Keyed>(key: u64, s: Seq<D::Value>)
    requires
        sorted_by_key::<D>(s),
    ensures
        segment_shaped::<D, ByKey>(ByKey { key }, s),
        forall|i: int|
            0 <= i < s.len() ==> (#[trigger] decide::<D, ByKey>(ByKey { key }, s, i)) == (
            if D::key_spec(s[i]) < key {
                LocResult::GoRight
            } else if D::key_spec(s[i]) == key {
                LocResult::Accept
            } else {
                LocResult::GoLeft
            }),
{
    let loc = ByKey { key };
    assert forall|i: int, j: int| 0 <= i <= j < s.len() implies rank(
        #[trigger] decide::<D, ByKey>(loc, s, i),
    ) <= rank(#[trigger] decide::<D, ByKey>(loc, s, j)) by {
        assert(D::key_spec(s[i]) <= D::key_spec(s[j]));
    }
}

/// Accepts nothing: directs the descent to the empty position after
/// every key less than or equal to the given key. Where a tree may
/// hold equal keys, this is where a new value with that key goes.
pub struct ByKeyInsert {
    pub key: u64,
}

impl<D: Keyed> Locator<D> for ByKeyInsert {
    open spec fn locate_spec(&self, left: D::Summary, v: D::Value, right: D::Summary) -> LocResult {
        if D::key_spec(v) <= self.key {
            LocResult::GoRight
        } else {
            LocResult::GoLeft
        }
    }

    fn locate(&self, left: D::Summary, v: D::Value, right: D::Summary) -> LocResult {
        let k = D::get_key(v);
        if k <= self.key {
            LocResult::GoRight
        } else {
            LocResult::GoLeft
        }
    }
}

/// On a key-sorted sequence, [`ByKeyInsert`] is shaped and accepts
/// nothing, so its segment is one empty position.
pub proof fn lemma_by_key_insert_shaped<D: Keyed>(key: u64, s: Seq<D::Value>)
    requires
        sorted_by_key::<D>(s),
    ensures
        segment_shaped::<D, ByKeyInsert>(ByKeyInsert { key }, s),
        seg_low::<D, ByKeyInsert>(ByKeyInsert { key }, s) == seg_high::<D, ByKeyInsert>(
            ByKeyInsert { key },
            s,
        ),
        forall|i: int|
            0 <= i < s.len() ==> ((#[trigger] decide::<D, ByKeyInsert>(
                ByKeyInsert { key },
                s,
                i,
            )) is GoRight <==> D::key_spec(s[i]) <= key),
{
    let loc = ByKeyInsert { key };
    assert forall|i: int, j: int| 0 <= i <= j < s.len() implies rank(
        #[trigger] decide::<D, ByKeyInsert>(loc, s, i),
    ) <= rank(#[trigger] decide::<D, ByKeyInsert>(loc, s, j)) by {
        assert(D::key_spec(s[i]) <= D::key_spec(s[j]));
    }
    lemma_seg_bounds::<D, ByKeyInsert>(loc, s);
    let low = seg_low::<D, ByKeyInsert>(loc, s);
    let high = seg_high::<D, ByKeyInsert>(loc, s);
    if low < high {
        assert(decide::<D, ByKeyInsert>(loc, s, low) is Accept);
        assert(false);
    }
}

/// The summary of a prefix of a sequence counts exactly its values.
pub proof fn lemma_size_prefix<D: SizedData>(q: Seq<D::Value>)
    requires
        q.len() <= u64::MAX,
    ensures
        D::size_spec(summarize_seq::<D>(q)) == q.len(),
    decreases q.len(),
{
    if q.len() == 0 {
        D::law_size_empty();
    } else {
        lemma_size_prefix::<D>(q.skip(1));
        D::law_size_one(q[0]);
        D::law_size_combine(D::summarize_spec(q[0]), summarize_seq::<D>(q.skip(1)));
    }
}

/// Accepts the positions whose index lies in `[start, end)`, read off
/// the size of the left context.
pub struct IndexRange {
    pub start: usize,
    pub end: usize,
}

impl<D: SizedData> Locator<D> for IndexRange {
    open spec fn locate_spec(&self, left: D::Summary, v: D::Value, right: D::Summary) -> LocResult {
        if D::size_spec(left) < self.start {
            LocResult::GoRight
        } else if D::size_spec(left) >= self.end {
            LocResult::GoLeft
        } else {
            LocResult::Accept
        }
    }

    fn locate(&self, left: D::Summary, v: D::Value, right: D::Summary) -> LocResult {
        let i = D::size_of(left);
        if i < self.start as u64 {
            LocResult::GoRight
        } else if i >= self.end as u64 {
            LocResult::GoLeft
        } else {
            LocResult::Accept
        }
    }
}

/// On any sequence short enough to index, [`IndexRange`] is shaped and
/// its segment is exactly the index range, clipped to the sequence.
pub proof fn lemma_index_range_shaped<D: SizedData>(start: usize, end: usize, s: Seq<D::Value>)
    requires
        s.len() <= u64::MAX,
        start <= end,
    ensures
        segment_shaped::<D, IndexRange>(IndexRange { start, end }, s),
        seg_low::<D, IndexRange>(IndexRange { start, end }, s) == (
        if start <= s.len() {
            start as int
        } else {
            s.len() as int
        }),
        seg_high::<D, IndexRange>(IndexRange { start, end }, s) == (
        if end <= s.len() {
            end as int
        } else {
            s.len() as int
        }),
{
    let loc = IndexRange { start, end };
    assert forall|i: int| 0 <= i < s.len() implies (#[trigger] decide::<D, IndexRange>(loc, s, i))
        == (if i < start {
        LocResult::GoRight
    } else if i >= end {
        LocResult::GoLeft
    } else {
        LocResult::Accept
    }) by {
        assert(s.take(i).len() == i);
        lemma_size_prefix::<D>(s.take(i));
    }
    assert forall|i: int, j: int| 0 <= i <= j < s.len() implies rank(
        #[trigger] decide::<D, IndexRange>(loc, s, i),
    ) <= rank(#[trigger] decide::<D, IndexRange>(loc, s, j)) by {}
    lemma_seg_bounds::<D, IndexRange>(loc, s);
    let low = seg_low::<D, IndexRange>(loc, s);
    let high = seg_high::<D, IndexRange>(loc, s);
    let lowx: int = if start <= s.len() {
        start as int
    } else {
        s.len() as int
    };
    let highx: int = if end <= s.len() {
        end as int
    } else {
        s.len() as int
    };
    if low < lowx {
        assert(decide::<D, IndexRange>(loc, s, low) is GoRight);
        assert(false);
    }
    if low > lowx {
        assert(lowx < s.len());
        assert(decide::<D, IndexRange>(loc, s, lowx) is GoRight);
        assert(false);
    }
    if high < highx {
        assert(decide::<D, IndexRange>(loc, s, high) is GoLeft);
        assert(false);
    }
    if high > highx {
        assert(highx < s.len());
        assert(decide::<D, IndexRange>(loc, s, highx) is GoLeft);
        assert(false);
    }
}

} // verus!
