//! The generic algorithms, written once against the walker and locator
//! contracts and reused by every tree flavor: navigation between
//! positions, search, insertion, and turning a tree into the array of
//! its values.

use vstd::prelude::*;
use crate::data::Data;
use crate::data::Keyed;
use crate::data::SizedData;
use crate::data::lemma_map_reverse;
use crate::data::lemma_summarize_concat;
use crate::data::lemma_summarize_one;
use crate::data::lemma_sum3_left;
use crate::data::summarize_seq;
use crate::data::lemma_reverse_reverse;
use crate::data::act_seq;
use crate::basic_tree::BasicTree;
use crate::locators::Locator;
use crate::locators::LocResult;
use crate::locators::All;
use crate::locators::ByKey;
use crate::locators::ByKeyInsert;
use crate::locators::IndexRange;
use crate::locators::decide;
use crate::locators::lemma_by_key_shaped;
use crate::locators::lemma_seg_bounds;
use crate::locators::seg_high;
use crate::locators::seg_low;
use crate::locators::segment_shaped;
use crate::locators::sorted_by_key;
use crate::trees::ModifiableWalker;
use crate::trees::Side;
use crate::trees::SomeWalker;

verus! {

/// From a nonempty position, go to the empty position immediately
/// after the focused node. Fails exactly at an empty position.
pub fn next_empty<D: Data, W: SomeWalker<D>>(walker: &mut W) -> (r: Result<(), ()>)
    requires
        old(walker).wf(),
    ensures
        final(walker).wf(),
        final(walker).full() == old(walker).full(),
        r is Ok <==> old(walker).lo() < old(walker).hi(),
        r is Err ==> *final(walker) == *old(walker),
        r is Ok ==> final(walker).lo() == old(walker).mid() + 1 && final(walker).hi() == final(walker).lo(),
{
    let ghost t = old(walker).mid() + 1;
    match walker.go_right() {
        Result::Err(()) => Result::Err(()),
        Result::Ok(()) => {
            loop
                invariant
                    walker.wf(),
                    walker.full() == old(walker).full(),
                    walker.lo() == t,
                ensures
                    walker.wf(),
                    walker.full() == old(walker).full(),
                    walker.lo() == t,
                    walker.lo() == walker.hi(),
                decreases walker.hi() - walker.lo(),
            {
                proof {
                    walker.lemma_wf();
                }
                if walker.is_empty() {
                    break ;
                }
                let _ = walker.go_left();
            }
            Result::Ok(())
        },
    }
}

/// From a nonempty position, go to the empty position immediately
/// before the focused node. Fails exactly at an empty position.
pub fn previous_empty<D: Data, W: SomeWalker<D>>(walker: &mut W) -> (r: Result<(), ()>)
    requires
        old(walker).wf(),
    ensures
        final(walker).wf(),
        final(walker).full() == old(walker).full(),
        r is Ok <==> old(walker).lo() < old(walker).hi(),
        r is Err ==> *final(walker) == *old(walker),
        r is Ok ==> final(walker).hi() == old(walker).mid() && final(walker).lo() == final(walker).hi(),
{
    let ghost t = old(walker).mid();
    match walker.go_left() {
        Result::Err(()) => Result::Err(()),
        Result::Ok(()) => {
            loop
                invariant
                    walker.wf(),
                    walker.full() == old(walker).full(),
                    walker.hi() == t,
                ensures
                    walker.wf(),
                    walker.full() == old(walker).full(),
                    walker.hi() == t,
                    walker.lo() == walker.hi(),
                decreases walker.hi() - walker.lo(),
            {
                proof {
                    walker.lemma_wf();
                }
                if walker.is_empty() {
                    break ;
                }
                let _ = walker.go_right();
            }
            Result::Ok(())
        },
    }
}

/// The index just after the focused node, or the focused empty
/// position itself: where the next value in order stands.
pub open spec fn succ_target<D: Data, W: SomeWalker<D>>(w: W) -> int {
    if w.lo() < w.hi() {
        w.mid() + 1
    } else {
        w.lo()
    }
}

/// The index just before the focused node or empty position: where the
/// previous value in order stands.
pub open spec fn pred_target<D: Data, W: SomeWalker<D>>(w: W) -> int {
    (if w.lo() < w.hi() {
        w.mid()
    } else {
        w.lo()
    }) - 1
}

/// Go to the next value in order: from a node, to its in-order
/// successor; from an empty position, to the node whose value stands at
/// that position. If there is none, ascends to the root and fails.
pub fn next_filled<D: Data, W: SomeWalker<D>>(walker: &mut W) -> (r: Result<(), ()>)
    requires
        old(walker).wf(),
    ensures
        final(walker).wf(),
        final(walker).full() == old(walker).full(),
        r is Ok <==> succ_target(*old(walker)) < old(walker).full().len(),
        r is Ok ==> final(walker).lo() < final(walker).hi() && final(walker).mid() == succ_target(
            *old(walker),
        ),
        r is Err ==> final(walker).spans().len() == 0,
{
    let ghost t = if old(walker).lo() < old(walker).hi() {
        old(walker).mid() + 1
    } else {
        old(walker).lo()
    };
    proof {
        walker.lemma_wf();
    }
    if !walker.is_empty() {
        let _ = next_empty(walker);
    }
    loop
        invariant
            walker.wf(),
            walker.full() == old(walker).full(),
            walker.hi() == t,
            t == succ_target::<D, W>(*old(walker)),
            t <= old(walker).full().len(),
        decreases walker.spans().len(),
    {
        proof {
            walker.lemma_wf();
        }
        match walker.go_up() {
            Result::Ok(Side::Left) => {
                proof {
                    walker.lemma_wf();
                }
                return Result::Ok(());
            },
            Result::Ok(Side::Right) => {},
            Result::Err(()) => {
                return Result::Err(());
            },
        }
    }
}

/// Go to the previous value in order: from a node, to its in-order
/// predecessor; from an empty position, to the node whose value stands
/// just before it. If there is none, ascends to the root and fails.
pub fn previous_filled<D: Data, W: SomeWalker<D>>(walker: &mut W) -> (r: Result<(), ()>)
    requires
        old(walker).wf(),
    ensures
        final(walker).wf(),
        final(walker).full() == old(walker).full(),
        r is Ok <==> pred_target(*old(walker)) >= 0,
        r is Ok ==> final(walker).lo() < final(walker).hi() && final(walker).mid() == pred_target(
            *old(walker),
        ),
        r is Err ==> final(walker).spans().len() == 0,
{
    let ghost t = (if old(walker).lo() < old(walker).hi() {
        old(walker).mid()
    } else {
        old(walker).lo()
    }) - 1;
    proof {
        walker.lemma_wf();
        assert(t == pred_target::<D, W>(*old(walker)));
    }
    if !walker.is_empty() {
        let _ = previous_empty(walker);
    }
    loop
        invariant
            walker.wf(),
            walker.full() == old(walker).full(),
            walker.lo() == t + 1,
            t == pred_target::<D, W>(*old(walker)),
        decreases walker.spans().len(),
    {
        proof {
            walker.lemma_wf();
        }
        match walker.go_up() {
            Result::Ok(Side::Right) => {
                proof {
                    walker.lemma_wf();
                    assert(walker.lo() < walker.hi());
                    assert(walker.mid() == t);
                    assert(walker.mid() >= walker.lo() >= 0);
                    assert(t >= 0);
                }
                return Result::Ok(());
            },
            Result::Ok(Side::Left) => {},
            Result::Err(()) => {
                proof {
                    assert(walker.spans().len() == 0);
                    assert(walker.lo() == 0);
                    assert(t == -1);
                }
                return Result::Err(());
            },
        }
    }
}

/// Descend from the root as the locator directs: stop at the first
/// accepted node, or at the empty position the locator led to when it
/// accepts nothing.
pub fn search_by_locator<D: Data, W: SomeWalker<D>, L: Locator<D>>(walker: &mut W, locator: &L)
    requires
        old(walker).wf(),
        old(walker).spans().len() == 0,
        segment_shaped(*locator, old(walker).full()),
    ensures
        final(walker).wf(),
        final(walker).full() == old(walker).full(),
        final(walker).lo() <= seg_low(*locator, old(walker).full()),
        seg_high(*locator, old(walker).full()) <= final(walker).hi(),
        ({
            let s = old(walker).full();
            let low = seg_low(*locator, s);
            let high = seg_high(*locator, s);
            (low < high ==> final(walker).lo() < final(walker).hi() && low <= final(walker).mid()
                < high) && (low == high ==> final(walker).lo() == final(walker).hi() && final(walker).lo() == low)
        }),
{
    let ghost s = old(walker).full();
    let ghost low = seg_low(*locator, s);
    let ghost high = seg_high(*locator, s);
    proof {
        lemma_seg_bounds(*locator, s);
        walker.lemma_wf();
    }
    loop
        invariant
            walker.wf(),
            walker.full() == s,
            segment_shaped(*locator, s),
            walker.lo() <= low,
            high <= walker.hi(),
            low == seg_low(*locator, s),
            high == seg_high(*locator, s),
            0 <= low <= high <= s.len(),
        ensures
            walker.wf(),
            walker.full() == s,
            walker.lo() <= low,
            high <= walker.hi(),
            (walker.lo() < walker.hi() && low <= walker.mid() < high) || (walker.lo()
                == walker.hi() && walker.lo() == low && low == high),
        decreases walker.hi() - walker.lo(),
    {
        proof {
            walker.lemma_wf();
            lemma_seg_bounds(*locator, s);
        }
        if walker.is_empty() {
            break ;
        }
        let left = walker.left_summary();
        let v = match walker.value() {
            Option::Some(v) => v,
            Option::None => {
                proof {
                    assert(false);
                }
                return ;
            },
        };
        let right = walker.right_summary();
        let res = locator.locate(left, v, right);
        proof {
            assert(res == decide(*locator, s, walker.mid()));
        }
        match res {
            LocResult::Accept => {
                break ;
            },
            LocResult::GoRight => {
                let _ = walker.go_right();
            },
            LocResult::GoLeft => {
                let _ = walker.go_left();
            },
        }
    }
}

/// Insert the value at the empty position the locator leads to. Fails,
/// changing nothing, exactly when the locator accepts some node.
pub fn insert_by_locator<D: Data, W: ModifiableWalker<D>, L: Locator<D>>(
    walker: &mut W,
    locator: &L,
    value: D::Value,
) -> (r: Result<(), ()>)
    requires
        old(walker).wf(),
        old(walker).spans().len() == 0,
        segment_shaped(*locator, old(walker).full()),
    ensures
        final(walker).wf(),
        r is Ok <==> seg_low(*locator, old(walker).full()) == seg_high(
            *locator,
            old(walker).full(),
        ),
        r is Ok ==> final(walker).full() == old(walker).full().insert(
            seg_low(*locator, old(walker).full()),
            value,
        ),
        r is Err ==> final(walker).full() == old(walker).full(),
{
    proof {
        lemma_seg_bounds(*locator, old(walker).full());
    }
    search_by_locator(walker, locator);
    if walker.is_empty() {
        let _ = walker.insert(value);
        Result::Ok(())
    } else {
        Result::Err(())
    }
}

/// Insert a value into a key-sorted tree, keeping it sorted. Fails,
/// changing nothing, exactly when the key is already present.
pub fn insert_by_key<D: Keyed, W: ModifiableWalker<D>>(walker: &mut W, value: D::Value) -> (r:
    Result<(), ()>)
    requires
        old(walker).wf(),
        old(walker).spans().len() == 0,
        sorted_by_key::<D>(old(walker).full()),
    ensures
        final(walker).wf(),
        r is Ok <==> (forall|i: int|
            0 <= i < old(walker).full().len() ==> D::key_spec(#[trigger] old(walker).full()[i])
                != D::key_spec(value)),
        r is Err ==> final(walker).full() == old(walker).full(),
        r is Ok ==> exists|p: int|
            0 <= p <= old(walker).full().len() && #[trigger] final(walker).full() == old(walker).full().insert(p, value) && sorted_by_key::<D>(final(walker).full()),
{
    let ghost s = old(walker).full();
    let key = D::get_key(value);
    let loc = ByKey { key };
    proof {
        lemma_by_key_shaped::<D>(key, s);
        lemma_seg_bounds::<D, ByKey>(loc, s);
    }
    let ghost low = seg_low::<D, ByKey>(loc, s);
    let ghost high = seg_high::<D, ByKey>(loc, s);
    let r = insert_by_locator(walker, &loc, value);
    proof {
        if low == high {
            // no position holds this key
            assert forall|i: int| 0 <= i < s.len() implies D::key_spec(#[trigger] s[i])
                != key by {
                assert(decide::<D, ByKey>(loc, s, i) !is Accept);
            }
            // the insertion position separates smaller and larger keys
            let s2 = s.insert(low, value);
            assert forall|i: int, j: int|
                0 <= i <= j < s2.len() implies D::key_spec(#[trigger] s2[i]) <= D::key_spec(
                #[trigger] s2[j],
            ) by {
                if i < low {
                    assert(decide::<D, ByKey>(loc, s, i) is GoRight);
                }
                if j > low {
                    assert(decide::<D, ByKey>(loc, s, j - 1) is GoLeft);
                }
            }
            assert(sorted_by_key::<D>(s2));
        } else {
            assert(decide::<D, ByKey>(loc, s, low) is Accept);
            assert(D::key_spec(s[low]) == key);
        }
    }
    r
}

/// Position the walker on some node holding the key of a key-sorted
/// tree, or on the empty position where that key would go when the key
/// is absent.
pub fn search<D: Keyed, W: SomeWalker<D>>(walker: &mut W, key: u64)
    requires
        old(walker).wf(),
        old(walker).spans().len() == 0,
        sorted_by_key::<D>(old(walker).full()),
    ensures
        final(walker).wf(),
        final(walker).full() == old(walker).full(),
        final(walker).lo() < final(walker).hi() ==> D::key_spec(
            final(walker).full()[final(walker).mid()],
        ) == key,
        final(walker).lo() < final(walker).hi() <==> exists|i: int|
            0 <= i < old(walker).full().len() && D::key_spec(#[trigger] old(walker).full()[i])
                == key,
{
    let ghost s = old(walker).full();
    let loc = ByKey { key };
    proof {
        lemma_by_key_shaped::<D>(key, s);
        lemma_seg_bounds::<D, ByKey>(loc, s);
    }
    search_by_locator(walker, &loc);
    proof {
        let low = seg_low::<D, ByKey>(loc, s);
        let high = seg_high::<D, ByKey>(loc, s);
        if walker.lo() < walker.hi() {
            assert(decide::<D, ByKey>(loc, s, walker.mid()) is Accept);
        } else {
            assert forall|i: int| 0 <= i < s.len() implies D::key_spec(#[trigger] s[i]) != key by {
                assert(decide::<D, ByKey>(loc, s, i) !is Accept);
            }
        }
    }
}

/// Every value acted on by the same action, positions kept.
pub open spec fn mapped<D: Data>(a: D::Action, s: Seq<D::Value>) -> Seq<D::Value> {
    s.map_values(|v: D::Value| D::act_value_spec(a, v))
}

/// What a subtree contributes to the array when an action `a` is owed
/// to it from above and `rev` says whether the surroundings reverse it.
pub open spec fn contribution<D: Data>(a: D::Action, rev: bool, s: Seq<D::Value>) -> Seq<
    D::Value,
> {
    if rev {
        mapped::<D>(a, s).reverse()
    } else {
        mapped::<D>(a, s)
    }
}

fn collect_acc<D: Data>(t: &BasicTree<D>, a: D::Action, rev: bool, out: &mut Vec<D::Value>)
    ensures
        final(out)@ == old(out)@ + contribution::<D>(a, rev, t.view_seq()),
    decreases *t,
{
    match t {
        BasicTree::Empty => {
            proof {
                assert(contribution::<D>(a, rev, t.view_seq()) =~= Seq::<D::Value>::empty());
                assert(out@ =~= out@ + Seq::<D::Value>::empty());
            }
        },
        BasicTree::Root(n) => {
            let a2 = D::compose(a, n.action);
            let flag = rev != D::to_reverse(n.action);
            let ghost lv = n.left.view_seq();
            let ghost rv = n.right.view_seq();
            let ghost raw = lv + seq![n.value] + rv;
            proof {
                let fa = |v: D::Value| D::act_value_spec(a, v);
                let fn_ = |v: D::Value| D::act_value_spec(n.action, v);
                let fa2 = |v: D::Value| D::act_value_spec(a2, v);
                assert forall|i: int| 0 <= i < raw.len() implies raw.map_values(fn_).map_values(
                    fa,
                )[i] == raw.map_values(fa2)[i] by {
                    D::law_act_compose(a, n.action, raw[i], D::empty_spec());
                }
                assert(raw.map_values(fn_).map_values(fa) =~= raw.map_values(fa2));
                if D::to_reverse_spec(n.action) {
                    lemma_map_reverse::<D>(fa, raw.map_values(fn_));
                }
                if rev && D::to_reverse_spec(n.action) {
                    lemma_reverse_reverse(mapped::<D>(a2, raw));
                }
                // the contribution of this subtree, flattened
                assert(contribution::<D>(a, rev, t.view_seq()) == contribution::<D>(
                    a2,
                    flag,
                    raw,
                ));
                assert(mapped::<D>(a2, raw) =~= mapped::<D>(a2, lv) + seq![
                    D::act_value_spec(a2, n.value),
                ] + mapped::<D>(a2, rv));
                if flag {
                    assert(mapped::<D>(a2, raw).reverse() =~= mapped::<D>(a2, rv).reverse() + seq![
                        D::act_value_spec(a2, n.value),
                    ] + mapped::<D>(a2, lv).reverse());
                }
            }
            if flag {
                collect_acc(&n.right, a2, true, out);
                out.push(D::act_value(a2, n.value));
                collect_acc(&n.left, a2, true, out);
                proof {
                    assert(out@ =~= old(out)@ + contribution::<D>(a, rev, t.view_seq()));
                }
            } else {
                collect_acc(&n.left, a2, false, out);
                out.push(D::act_value(a2, n.value));
                collect_acc(&n.right, a2, false, out);
                proof {
                    assert(out@ =~= old(out)@ + contribution::<D>(a, rev, t.view_seq()));
                }
            }
        },
    }
}

/// The array of all values of the tree, in order, pending actions
/// applied. The tree itself is not touched.
pub fn to_array<D: Data>(t: &BasicTree<D>) -> (r: Vec<D::Value>)
    ensures
        r@ == t.view_seq(),
{
    let mut out: Vec<D::Value> = Vec::new();
    collect_acc(t, D::id_action(), false, &mut out);
    proof {
        let fid = |v: D::Value| D::act_value_spec(D::id_spec(), v);
        assert forall|i: int| 0 <= i < t.view_seq().len() implies t.view_seq().map_values(fid)[i]
            == t.view_seq()[i] by {
            D::law_id(t.view_seq()[i], D::empty_spec());
        }
        assert(t.view_seq().map_values(fid) =~= t.view_seq());
        assert(out@ =~= t.view_seq());
    }
    out
}

/// After one descent, the recorded spans are the old ones plus the old
/// position: every prefix of the record is kept.
proof fn lemma_spans_prefix_kept<D: Data, W: SomeWalker<D>>(wb: W, wa: W, d0: int)
    requires
        0 <= d0,
        wa.spans() == wb.spans().push((wb.lo(), wb.hi())),
    ensures
        wb.spans().len() >= d0 ==> wa.spans().take(d0) == wb.spans().take(d0),
        wb.spans().len() > d0 ==> wa.spans()[d0] == wb.spans()[d0],
        wb.spans().len() == d0 ==> wa.spans()[d0] == (wb.lo(), wb.hi()),
{
    if wb.spans().len() >= d0 {
        assert(wa.spans().take(d0) =~= wb.spans().take(d0));
    }
}

/// Sum up the values of the suffix of the locator's segment that lies
/// in the subtree in focus: every accepted node folds its own summary
/// and its right subtree's, then the descent continues left.
fn segment_summary_on_suffix<D: Data, W: SomeWalker<D>, L: Locator<D>>(
    walker: &mut W,
    locator: &L,
) -> (r: D::Summary)
    requires
        old(walker).wf(),
        segment_shaped(*locator, old(walker).full()),
        old(walker).lo() <= seg_low(*locator, old(walker).full()),
        seg_low(*locator, old(walker).full()) <= old(walker).hi(),
        old(walker).hi() <= seg_high(*locator, old(walker).full()),
    ensures
        final(walker).wf(),
        final(walker).full() == old(walker).full(),
        r == summarize_seq::<D>(
            old(walker).full().subrange(seg_low(*locator, old(walker).full()), old(walker).hi()),
        ),
        final(walker).spans().len() >= old(walker).spans().len(),
        final(walker).spans().take(old(walker).spans().len() as int) == old(walker).spans(),
        final(walker).spans().len() > old(walker).spans().len() ==> final(walker).spans()[old(
            walker,
        ).spans().len() as int] == (old(walker).lo(), old(walker).hi()),
        final(walker).spans().len() == old(walker).spans().len() ==> final(walker).lo() == old(
            walker,
        ).lo() && final(walker).hi() == old(walker).hi(),
{
    let ghost s = old(walker).full();
    let ghost low = seg_low(*locator, s);
    let ghost high = seg_high(*locator, s);
    let ghost hh = old(walker).hi();
    let ghost d0 = old(walker).spans().len() as int;
    let ghost spans0 = old(walker).spans();
    let mut res = D::empty_summary();
    proof {
        lemma_seg_bounds(*locator, s);
        walker.lemma_wf();
        assert(s.subrange(hh, hh) =~= Seq::<D::Value>::empty());
    }
    loop
        invariant
            walker.wf(),
            walker.full() == s,
            segment_shaped(*locator, s),
            low == seg_low(*locator, s),
            high == seg_high(*locator, s),
            0 <= low <= high <= s.len(),
            walker.lo() <= low <= walker.hi() <= hh,
            hh <= high,
            res == summarize_seq::<D>(s.subrange(walker.hi(), hh)),
            0 <= d0,
            walker.spans().len() >= d0,
            walker.spans().take(d0) == spans0,
            walker.spans().len() > d0 ==> walker.spans()[d0] == (old(walker).lo(), hh),
            walker.spans().len() == d0 ==> walker.lo() == old(walker).lo() && walker.hi() == hh,
        ensures
            walker.wf(),
            walker.full() == s,
            walker.lo() == walker.hi(),
            walker.hi() == low,
            res == summarize_seq::<D>(s.subrange(low, hh)),
            walker.spans().len() >= d0,
            walker.spans().take(d0) == spans0,
            walker.spans().len() > d0 ==> walker.spans()[d0] == (old(walker).lo(), hh),
            walker.spans().len() == d0 ==> walker.lo() == old(walker).lo() && walker.hi() == hh,
        decreases walker.hi() - walker.lo(),
    {
        proof {
            walker.lemma_wf();
            lemma_seg_bounds(*locator, s);
        }
        if walker.is_empty() {
            break ;
        }
        let left = walker.left_summary();
        let v = match walker.value() {
            Option::Some(v) => v,
            Option::None => {
                proof {
                    assert(false);
                }
                return res;
            },
        };
        let right = walker.right_summary();
        let dir = locator.locate(left, v, right);
        proof {
            assert(dir == decide(*locator, s, walker.mid()));
        }
        match dir {
            LocResult::Accept => {
                let ns = walker.node_summary();
                let rs = match walker.right_subtree_summary() {
                    Option::Some(x) => x,
                    Option::None => {
                        proof {
                            assert(false);
                        }
                        return res;
                    },
                };
                proof {
                    let m = walker.mid();
                    let e = walker.hi();
                    lemma_sum3_left::<D>(s[m], s.subrange(m + 1, e), s.subrange(e, hh));
                    assert(s.subrange(m, hh) =~= seq![s[m]] + s.subrange(m + 1, e) + s.subrange(
                        e,
                        hh,
                    ));
                }
                res = D::combine(ns, D::combine(rs, res));
                let ghost wb = *walker;
                let _ = walker.go_left();
                proof {
                    lemma_spans_prefix_kept::<D, W>(wb, *walker, d0);
                }
            },
            LocResult::GoRight => {
                let ghost wb = *walker;
                let _ = walker.go_right();
                proof {
                    lemma_spans_prefix_kept::<D, W>(wb, *walker, d0);
                }
            },
            LocResult::GoLeft => {
                proof {
                    assert(false);
                }
            },
        }
    }
    res
}

/// Sum up the prefix of the locator's segment that lies in the subtree
/// in focus: every accepted node folds its left subtree's summary and
/// its own, then the descent continues right.
fn segment_summary_on_prefix<D: Data, W: SomeWalker<D>, L: Locator<D>>(
    walker: &mut W,
    locator: &L,
) -> (r: D::Summary)
    requires
        old(walker).wf(),
        segment_shaped(*locator, old(walker).full()),
        seg_low(*locator, old(walker).full()) <= old(walker).lo(),
        old(walker).lo() <= seg_high(*locator, old(walker).full()),
        seg_high(*locator, old(walker).full()) <= old(walker).hi(),
    ensures
        final(walker).wf(),
        final(walker).full() == old(walker).full(),
        r == summarize_seq::<D>(
            old(walker).full().subrange(old(walker).lo(), seg_high(*locator, old(walker).full())),
        ),
{
    let ghost s = old(walker).full();
    let ghost low = seg_low(*locator, s);
    let ghost high = seg_high(*locator, s);
    let ghost ll = old(walker).lo();
    let mut res = D::empty_summary();
    proof {
        lemma_seg_bounds(*locator, s);
        walker.lemma_wf();
        assert(s.subrange(ll, ll) =~= Seq::<D::Value>::empty());
    }
    loop
        invariant
            walker.wf(),
            walker.full() == s,
            segment_shaped(*locator, s),
            low == seg_low(*locator, s),
            high == seg_high(*locator, s),
            0 <= low <= high <= s.len(),
            low <= ll <= walker.lo() <= high <= walker.hi(),
            res == summarize_seq::<D>(s.subrange(ll, walker.lo())),
        ensures
            walker.wf(),
            walker.full() == s,
            walker.lo() == high,
            res == summarize_seq::<D>(s.subrange(ll, high)),
        decreases walker.hi() - walker.lo(),
    {
        proof {
            walker.lemma_wf();
            lemma_seg_bounds(*locator, s);
        }
        if walker.is_empty() {
            break ;
        }
        let left = walker.left_summary();
        let v = match walker.value() {
            Option::Some(v) => v,
            Option::None => {
                proof {
                    assert(false);
                }
                return res;
            },
        };
        let right = walker.right_summary();
        let dir = locator.locate(left, v, right);
        proof {
            assert(dir == decide(*locator, s, walker.mid()));
        }
        match dir {
            LocResult::Accept => {
                let ls = match walker.left_subtree_summary() {
                    Option::Some(x) => x,
                    Option::None => {
                        proof {
                            assert(false);
                        }
                        return res;
                    },
                };
                let ns = walker.node_summary();
                proof {
                    let m = walker.mid();
                    let b = walker.lo();
                    lemma_summarize_concat::<D>(s.subrange(ll, b) + s.subrange(b, m), seq![s[m]]);
                    lemma_summarize_concat::<D>(s.subrange(ll, b), s.subrange(b, m));
                    lemma_summarize_one::<D>(s[m]);
                    assert(s.subrange(ll, m + 1) =~= (s.subrange(ll, b) + s.subrange(b, m)) + seq![
                        s[m],
                    ]);
                }
                res = D::combine(D::combine(res, ls), ns);
                let _ = walker.go_right();
            },
            LocResult::GoLeft => {
                let _ = walker.go_left();
            },
            LocResult::GoRight => {
                proof {
                    assert(false);
                }
            },
        }
    }
    res
}

/// The summary of the locator's whole segment: descend to the first
/// accepted node, sum its left spine suffix and right spine prefix, and
/// combine the three parts. The empty summary when the segment is
/// empty.
pub fn segment_summary<D: Data, W: SomeWalker<D>, L: Locator<D>>(walker: &mut W, locator: &L) -> (r:
    D::Summary)
    requires
        old(walker).wf(),
        old(walker).spans().len() == 0,
        segment_shaped(*locator, old(walker).full()),
    ensures
        final(walker).wf(),
        final(walker).full() == old(walker).full(),
        r == summarize_seq::<D>(
            old(walker).full().subrange(
                seg_low(*locator, old(walker).full()),
                seg_high(*locator, old(walker).full()),
            ),
        ),
{
    let ghost s = old(walker).full();
    let ghost low = seg_low(*locator, s);
    let ghost high = seg_high(*locator, s);
    proof {
        lemma_seg_bounds(*locator, s);
    }
    search_by_locator(walker, locator);
    if walker.is_empty() {
        proof {
            assert(s.subrange(low, high) =~= Seq::<D::Value>::empty());
        }
        return D::empty_summary();
    }
    proof {
        walker.lemma_wf();
    }
    let ghost m = walker.mid();
    let ghost lo_s = walker.lo();
    let ghost hi_s = walker.hi();
    let ghost spans0 = walker.spans();
    let node_sum = walker.node_summary();
    let d = walker.depth();
    let _ = walker.go_left();
    let ghost spans1 = walker.spans();
    let first_half = segment_summary_on_suffix(walker, locator);
    proof {
        assert(spans1 == spans0.push((lo_s, hi_s)));
        assert(walker.spans().take(d + 1) == spans1);
        assert forall|k: int| 0 <= k < d implies walker.spans()[k] == spans0[k] by {
            assert(walker.spans().take(d + 1)[k] == walker.spans()[k]);
            assert(spans1[k] == spans0[k]);
        }
        assert(walker.spans().take(d as int) =~= spans0);
        if walker.spans().len() > d {
            assert(walker.spans().take(d + 1)[d as int] == walker.spans()[d as int]);
            assert(walker.spans()[d as int] == (lo_s, hi_s));
        }
    }
    // climb back to the split node
    loop
        invariant
            walker.wf(),
            walker.full() == s,
            walker.spans().len() >= d,
            walker.spans().take(d as int) == spans0,
            walker.spans().len() > d ==> walker.spans()[d as int] == (lo_s, hi_s),
            walker.spans().len() == d ==> walker.lo() == lo_s && walker.hi() == hi_s
                && walker.mid() == m,
            walker.spans().len() > d + 1 ==> walker.spans()[d + 1] == (lo_s, m),
            walker.spans().len() == d + 1 ==> walker.lo() == lo_s && walker.hi() == m,
            lo_s <= m < hi_s <= s.len(),
        ensures
            walker.wf(),
            walker.full() == s,
            walker.spans().len() == d,
            walker.spans() == spans0,
            walker.lo() == lo_s,
            walker.hi() == hi_s,
            walker.mid() == m,
        decreases walker.spans().len(),
    {
        let dd = walker.depth();
        if dd == d {
            proof {
                assert(walker.spans() =~= spans0);
            }
            break ;
        }
        proof {
            walker.lemma_wf();
        }
        let ghost wb = *walker;
        let up = walker.go_up();
        proof {
            assert(up is Ok);
            assert forall|k: int| 0 <= k < walker.spans().len() implies walker.spans()[k]
                == wb.spans()[k] by {
                assert(wb.spans().drop_last()[k] == wb.spans()[k]);
            }
            assert forall|k: int| 0 <= k < d implies walker.spans()[k] == spans0[k] by {
                assert(wb.spans().take(d as int)[k] == wb.spans()[k]);
            }
            assert(walker.spans().take(d as int) =~= spans0);
            if walker.spans().len() == d {
                assert(wb.spans().len() == d + 1);
                assert(wb.lo() == lo_s && wb.hi() == m);
                assert(wb.spans().last() == wb.spans()[d as int]);
                assert(walker.lo() == lo_s && walker.hi() == hi_s);
                assert(walker.spans() =~= spans0);
                if up == Result::<Side, ()>::Ok(Side::Right) {
                    walker.lemma_wf();
                    assert(false);
                }
                assert(up->Ok_0 is Left || up->Ok_0 is Right);
                assert(up == Result::<Side, ()>::Ok(Side::Left));
                assert(walker.mid() == m);
            } else {
                assert(walker.spans().len() >= d + 1);
                if walker.spans().len() == d + 1 {
                    assert(wb.spans().last() == wb.spans()[d + 1]);
                    assert(walker.lo() == lo_s && walker.hi() == m);
                }
            }
        }
    }
    let _ = walker.go_right();
    let second_half = segment_summary_on_prefix(walker, locator);
    proof {
        lemma_summarize_concat::<D>(s.subrange(low, m) + seq![s[m]], s.subrange(m + 1, high));
        lemma_summarize_concat::<D>(s.subrange(low, m), seq![s[m]]);
        lemma_summarize_one::<D>(s[m]);
        assert(s.subrange(low, high) =~= (s.subrange(low, m) + seq![s[m]]) + s.subrange(
            m + 1,
            high,
        ));
    }
    D::combine(D::combine(first_half, node_sum), second_half)
}

/// A hybrid of a sequence and its acted form: positions in `[e, hh)`
/// acted on, the rest untouched.
pub open spec fn hybrid<D: Data>(a: D::Action, s0: Seq<D::Value>, e: int, hh: int) -> Seq<
    D::Value,
> {
    s0.take(e) + mapped::<D>(a, s0.subrange(e, hh)) + s0.skip(hh)
}

proof fn lemma_hybrid_index<D: Data>(a: D::Action, s0: Seq<D::Value>, e: int, hh: int)
    requires
        0 <= e <= hh <= s0.len(),
    ensures
        hybrid::<D>(a, s0, e, hh).len() == s0.len(),
        forall|j: int|
            0 <= j < s0.len() && !(e <= j < hh) ==> #[trigger] hybrid::<D>(a, s0, e, hh)[j]
                == s0[j],
        forall|j: int|
            e <= j < hh ==> #[trigger] hybrid::<D>(a, s0, e, hh)[j] == D::act_value_spec(a, s0[j]),
{
}

/// The locator's answers do not change when this action is applied to
/// any of the positions of the sequence: for every variant of `s` in
/// which each value is either untouched or acted on, the answer at any
/// untouched position is the answer on `s`. The index-range and by-key
/// locators satisfy this for every action; it is what lets a segment
/// action push values down while the descent is still reading them.
pub open spec fn act_stable<D: Data, L: Locator<D>>(loc: L, a: D::Action, s: Seq<D::Value>) -> bool {
    forall|i: int, s2: Seq<D::Value>|
        #![trigger decide(loc, s2, i)]
        0 <= i < s.len() && s2.len() == s.len() && s2[i] == s[i] && (forall|j: int|
            0 <= j < s.len() ==> s2[j] == s[j] || s2[j] == D::act_value_spec(a, #[trigger] s[j]))
            ==> decide(loc, s2, i) == decide(loc, s, i)
}

/// [`All`] never reads anything, so its answers are stable under any
/// action.
pub proof fn lemma_all_act_stable<D: Data>(a: D::Action, s: Seq<D::Value>)
    ensures
        act_stable::<D, All>(All, a, s),
{
    assert forall|i: int, s2: Seq<D::Value>|
        0 <= i < s.len() && s2.len() == s.len() && s2[i] == s[i] && (forall|j: int|
            0 <= j < s.len() ==> s2[j] == s[j] || s2[j] == D::act_value_spec(a, #[trigger] s[j]))
            implies #[trigger] decide::<D, All>(All, s2, i) == decide::<D, All>(All, s, i) by {}
}

/// [`ByKey`] reads only the value at the position it answers for, so
/// its answers are stable under any action.
pub proof fn lemma_by_key_act_stable<D: Keyed>(key: u64, a: D::Action, s: Seq<D::Value>)
    ensures
        act_stable::<D, ByKey>(ByKey { key }, a, s),
{
    let loc = ByKey { key };
    assert forall|i: int, s2: Seq<D::Value>|
        0 <= i < s.len() && s2.len() == s.len() && s2[i] == s[i] && (forall|j: int|
            0 <= j < s.len() ==> s2[j] == s[j] || s2[j] == D::act_value_spec(a, #[trigger] s[j]))
            implies #[trigger] decide::<D, ByKey>(loc, s2, i) == decide::<D, ByKey>(
        loc,
        s,
        i,
    ) by {}
}

/// [`ByKeyInsert`] reads only the value at the position it answers for,
/// so its answers are stable under any action.
pub proof fn lemma_by_key_insert_act_stable<D: Keyed>(key: u64, a: D::Action, s: Seq<D::Value>)
    ensures
        act_stable::<D, ByKeyInsert>(ByKeyInsert { key }, a, s),
{
    let loc = ByKeyInsert { key };
    assert forall|i: int, s2: Seq<D::Value>|
        0 <= i < s.len() && s2.len() == s.len() && s2[i] == s[i] && (forall|j: int|
            0 <= j < s.len() ==> s2[j] == s[j] || s2[j] == D::act_value_spec(a, #[trigger] s[j]))
            implies #[trigger] decide::<D, ByKeyInsert>(loc, s2, i) == decide::<D, ByKeyInsert>(
        loc,
        s,
        i,
    ) by {}
}

/// [`IndexRange`] reads only how many values stand to the left, which
/// no action changes, so its answers are stable under any action.
pub proof fn lemma_index_range_act_stable<D: SizedData>(
    start: usize,
    end: usize,
    a: D::Action,
    s: Seq<D::Value>,
)
    requires
        s.len() <= u64::MAX,
    ensures
        act_stable::<D, IndexRange>(IndexRange { start, end }, a, s),
{
    let loc = IndexRange { start, end };
    assert forall|i: int, s2: Seq<D::Value>|
        0 <= i < s.len() && s2.len() == s.len() && s2[i] == s[i] && (forall|j: int|
            0 <= j < s.len() ==> s2[j] == s[j] || s2[j] == D::act_value_spec(a, #[trigger] s[j]))
            implies #[trigger] decide::<D, IndexRange>(loc, s2, i) == decide::<D, IndexRange>(
        loc,
        s,
        i,
    ) by {
        crate::locators::lemma_size_prefix::<D>(s.take(i));
        crate::locators::lemma_size_prefix::<D>(s2.take(i));
    }
}

/// Act on the suffix of the locator's segment that lies in the subtree
/// in focus: every accepted node acts on its own value and its right
/// subtree, then the descent continues left.
#[verifier::rlimit(60)]
fn act_on_suffix<D: Data, W: SomeWalker<D>, L: Locator<D>>(
    walker: &mut W,
    action: D::Action,
    locator: &L,
    Ghost(s0): Ghost<Seq<D::Value>>,
    Ghost(hh): Ghost<int>,
)
    requires
        old(walker).wf(),
        !D::to_reverse_spec(action),
        segment_shaped(*locator, s0),
        act_stable(*locator, action, s0),
        old(walker).lo() <= seg_low(*locator, s0),
        seg_low(*locator, s0) <= old(walker).hi(),
        old(walker).hi() <= hh <= seg_high(*locator, s0),
        hh <= s0.len(),
        old(walker).full() == hybrid::<D>(action, s0, old(walker).hi(), hh),
    ensures
        final(walker).wf(),
        final(walker).full() == hybrid::<D>(action, s0, seg_low(*locator, s0), hh),
        final(walker).spans().len() >= old(walker).spans().len(),
        final(walker).spans().take(old(walker).spans().len() as int) == old(walker).spans(),
        final(walker).spans().len() > old(walker).spans().len() ==> final(walker).spans()[old(
            walker,
        ).spans().len() as int] == (old(walker).lo(), old(walker).hi()),
        final(walker).spans().len() == old(walker).spans().len() ==> final(walker).lo() == old(
            walker,
        ).lo() && final(walker).hi() == old(walker).hi(),
{
    let ghost low = seg_low(*locator, s0);
    let ghost high = seg_high(*locator, s0);
    let ghost d0 = old(walker).spans().len() as int;
    let ghost spans0 = old(walker).spans();
    proof {
        lemma_seg_bounds(*locator, s0);
        walker.lemma_wf();
        lemma_hybrid_index::<D>(action, s0, old(walker).hi(), hh);
        assert(walker.spans().take(d0) =~= spans0);
        assert(walker.spans().len() == d0);
        assert(walker.lo() == old(walker).lo() && walker.hi() == old(walker).hi());
    }
    loop
        invariant
            walker.wf(),
            !D::to_reverse_spec(action),
            segment_shaped(*locator, s0),
            act_stable(*locator, action, s0),
            low == seg_low(*locator, s0),
            high == seg_high(*locator, s0),
            0 <= low <= high <= s0.len(),
            walker.lo() <= low <= walker.hi() <= hh,
            hh <= high,
            hh <= s0.len(),
            walker.full() == hybrid::<D>(action, s0, walker.hi(), hh),
            0 <= d0,
            walker.spans().len() >= d0,
            walker.spans().take(d0) == spans0,
            walker.spans().len() > d0 ==> walker.spans()[d0] == (old(walker).lo(), old(walker).hi()),
            walker.spans().len() == d0 ==> walker.lo() == old(walker).lo() && walker.hi() == old(walker).hi(),
            walker.spans().len() == d0 ==> walker.hi() == hh || walker.hi() == old(walker).hi(),
        ensures
            walker.wf(),
            walker.lo() == walker.hi(),
            walker.hi() == low,
            walker.full() == hybrid::<D>(action, s0, low, hh),
            walker.spans().len() >= d0,
            walker.spans().take(d0) == spans0,
            walker.spans().len() > d0 ==> walker.spans()[d0] == (old(walker).lo(), old(walker).hi()),
            walker.spans().len() == d0 ==> walker.lo() == old(walker).lo() && walker.hi() == old(walker).hi(),
        decreases walker.hi() - walker.lo(),
    {
        proof {
            walker.lemma_wf();
            lemma_seg_bounds(*locator, s0);
            lemma_hybrid_index::<D>(action, s0, walker.hi(), hh);
        }
        if walker.is_empty() {
            break ;
        }
        let left = walker.left_summary();
        let v = match walker.value() {
            Option::Some(v) => v,
            Option::None => {
                proof {
                    assert(false);
                }
                return ;
            },
        };
        let right = walker.right_summary();
        let dir = locator.locate(left, v, right);
        proof {
            let s1 = walker.full();
            let m = walker.mid();
            assert(dir == decide(*locator, s1, m));
            assert(s1.take(m) =~= s1.take(m));
            assert(s1[m] == s0[m]);
            assert(dir == decide(*locator, s0, m));
        }
        match dir {
            LocResult::Accept => {
                let ghost m = walker.mid();
                let ghost e = walker.hi();
                let _ = walker.act_node(action);
                let _ = walker.act_right_subtree(action);
                proof {
                    lemma_hybrid_index::<D>(action, s0, e, hh);
                    assert(act_seq::<D>(
                        action,
                        hybrid::<D>(action, s0, e, hh).update(
                            m,
                            D::act_value_spec(action, s0[m]),
                        ).subrange(m + 1, e),
                    ) =~= mapped::<D>(action, s0.subrange(m + 1, e)));
                    assert(walker.full() =~= hybrid::<D>(action, s0, m, hh));
                }
                let ghost wb = *walker;
                let _ = walker.go_left();
                proof {
                    lemma_spans_prefix_kept::<D, W>(wb, *walker, d0);
                }
            },
            LocResult::GoRight => {
                let ghost wb = *walker;
                let _ = walker.go_right();
                proof {
                    lemma_spans_prefix_kept::<D, W>(wb, *walker, d0);
                }
            },
            LocResult::GoLeft => {
                proof {
                    assert(false);
                }
            },
        }
    }
}

/// Act on the prefix of the locator's segment that lies in the subtree
/// in focus: every accepted node acts on its left subtree and its own
/// value, then the descent continues right.
#[verifier::rlimit(60)]
fn act_on_prefix<D: Data, W: SomeWalker<D>, L: Locator<D>>(
    walker: &mut W,
    action: D::Action,
    locator: &L,
    Ghost(s0): Ghost<Seq<D::Value>>,
    Ghost(ll): Ghost<int>,
)
    requires
        old(walker).wf(),
        !D::to_reverse_spec(action),
        segment_shaped(*locator, s0),
        act_stable(*locator, action, s0),
        seg_low(*locator, s0) <= ll <= old(walker).lo(),
        old(walker).lo() <= seg_high(*locator, s0),
        seg_high(*locator, s0) <= old(walker).hi(),
        old(walker).hi() <= s0.len(),
        0 <= ll,
        old(walker).full() == hybrid::<D>(action, s0, ll, old(walker).lo()),
    ensures
        final(walker).wf(),
        final(walker).full() == hybrid::<D>(action, s0, ll, seg_high(*locator, s0)),
{
    let ghost low = seg_low(*locator, s0);
    let ghost high = seg_high(*locator, s0);
    proof {
        lemma_seg_bounds(*locator, s0);
        walker.lemma_wf();
        lemma_hybrid_index::<D>(action, s0, ll, old(walker).lo());
    }
    loop
        invariant
            walker.wf(),
            !D::to_reverse_spec(action),
            segment_shaped(*locator, s0),
            act_stable(*locator, action, s0),
            low == seg_low(*locator, s0),
            high == seg_high(*locator, s0),
            0 <= low <= high <= s0.len(),
            low <= ll <= walker.lo(),
            0 <= ll,
            walker.lo() <= high <= walker.hi() <= s0.len(),
            walker.full() == hybrid::<D>(action, s0, ll, walker.lo()),
        ensures
            walker.wf(),
            walker.lo() == walker.hi(),
            walker.lo() == high,
            walker.full() == hybrid::<D>(action, s0, ll, high),
        decreases walker.hi() - walker.lo(),
    {
        proof {
            walker.lemma_wf();
            lemma_seg_bounds(*locator, s0);
            lemma_hybrid_index::<D>(action, s0, ll, walker.lo());
        }
        if walker.is_empty() {
            break ;
        }
        let left = walker.left_summary();
        let v = match walker.value() {
            Option::Some(v) => v,
            Option::None => {
                proof {
                    assert(false);
                }
                return ;
            },
        };
        let right = walker.right_summary();
        let dir = locator.locate(left, v, right);
        proof {
            let s1 = walker.full();
            let m = walker.mid();
            assert(dir == decide(*locator, s1, m));
            assert(s1[m] == s0[m]);
            assert(dir == decide(*locator, s0, m));
        }
        match dir {
            LocResult::Accept => {
                let ghost m = walker.mid();
                let ghost b = walker.lo();
                let _ = walker.act_node(action);
                let _ = walker.act_left_subtree(action);
                proof {
                    lemma_hybrid_index::<D>(action, s0, ll, b);
                    assert(act_seq::<D>(
                        action,
                        hybrid::<D>(action, s0, ll, b).update(
                            m,
                            D::act_value_spec(action, s0[m]),
                        ).subrange(b, m),
                    ) =~= mapped::<D>(action, s0.subrange(b, m)));
                    assert(walker.full() =~= hybrid::<D>(action, s0, ll, m + 1));
                }
                let _ = walker.go_right();
            },
            LocResult::GoLeft => {
                let _ = walker.go_left();
            },
            LocResult::GoRight => {
                proof {
                    assert(false);
                }
            },
        }
    }
}

/// Apply an action to the locator's whole segment: descend to the first
/// accepted node, act on it, then act along the left spine's suffix and
/// the right spine's prefix. The action must not request reversal;
/// reversing a segment needs a flavor that can split and concatenate.
pub fn act_segment<D: Data, W: SomeWalker<D>, L: Locator<D>>(
    walker: &mut W,
    action: D::Action,
    locator: &L,
)
    requires
        old(walker).wf(),
        old(walker).spans().len() == 0,
        segment_shaped(*locator, old(walker).full()),
        act_stable(*locator, action, old(walker).full()),
        !D::to_reverse_spec(action),
    ensures
        final(walker).wf(),
        final(walker).full() == hybrid::<D>(
            action,
            old(walker).full(),
            seg_low(*locator, old(walker).full()),
            seg_high(*locator, old(walker).full()),
        ),
{
    let ghost s = old(walker).full();
    let ghost low = seg_low(*locator, s);
    let ghost high = seg_high(*locator, s);
    proof {
        lemma_seg_bounds(*locator, s);
    }
    search_by_locator(walker, locator);
    if walker.is_empty() {
        proof {
            assert(mapped::<D>(action, s.subrange(low, high)) =~= Seq::<D::Value>::empty());
            assert(hybrid::<D>(action, s, low, high) =~= s);
        }
        return ;
    }
    proof {
        walker.lemma_wf();
    }
    let ghost m = walker.mid();
    let ghost lo_s = walker.lo();
    let ghost hi_s = walker.hi();
    let ghost spans0 = walker.spans();
    let d = walker.depth();
    let _ = walker.act_node(action);
    proof {
        lemma_hybrid_index::<D>(action, s, m, m + 1);
        assert(walker.full() =~= hybrid::<D>(action, s, m, m + 1));
    }
    let _ = walker.go_left();
    let ghost spans1 = walker.spans();
    act_on_suffix(walker, action, locator, Ghost(s), Ghost(m + 1));
    let ghost ff = hybrid::<D>(action, s, low, m + 1);
    proof {
        lemma_hybrid_index::<D>(action, s, low, m + 1);
        assert(spans1 == spans0.push((lo_s, hi_s)));
        assert(walker.spans().take(d + 1) == spans1);
        assert forall|k: int| 0 <= k < d implies walker.spans()[k] == spans0[k] by {
            assert(walker.spans().take(d + 1)[k] == walker.spans()[k]);
            assert(spans1[k] == spans0[k]);
        }
        assert(walker.spans().take(d as int) =~= spans0);
        if walker.spans().len() > d {
            assert(walker.spans().take(d + 1)[d as int] == walker.spans()[d as int]);
            assert(walker.spans()[d as int] == (lo_s, hi_s));
        }
    }
    // climb back to the split node
    loop
        invariant
            walker.wf(),
            walker.full() == ff,
            walker.spans().len() >= d,
            walker.spans().take(d as int) == spans0,
            walker.spans().len() > d ==> walker.spans()[d as int] == (lo_s, hi_s),
            walker.spans().len() == d ==> walker.lo() == lo_s && walker.hi() == hi_s
                && walker.mid() == m,
            walker.spans().len() > d + 1 ==> walker.spans()[d + 1] == (lo_s, m),
            walker.spans().len() == d + 1 ==> walker.lo() == lo_s && walker.hi() == m,
            lo_s <= m < hi_s <= ff.len(),
        ensures
            walker.wf(),
            walker.full() == ff,
            walker.spans().len() == d,
            walker.spans() == spans0,
            walker.lo() == lo_s,
            walker.hi() == hi_s,
            walker.mid() == m,
        decreases walker.spans().len(),
    {
        let dd = walker.depth();
        if dd == d {
            proof {
                assert(walker.spans() =~= spans0);
            }
            break ;
        }
        proof {
            walker.lemma_wf();
        }
        let ghost wb = *walker;
        let up = walker.go_up();
        proof {
            assert(up is Ok);
            assert forall|k: int| 0 <= k < walker.spans().len() implies walker.spans()[k]
                == wb.spans()[k] by {
                assert(wb.spans().drop_last()[k] == wb.spans()[k]);
            }
            assert forall|k: int| 0 <= k < d implies walker.spans()[k] == spans0[k] by {
                assert(wb.spans().take(d as int)[k] == wb.spans()[k]);
            }
            assert(walker.spans().take(d as int) =~= spans0);
            if walker.spans().len() == d {
                assert(wb.spans().len() == d + 1);
                assert(wb.lo() == lo_s && wb.hi() == m);
                assert(wb.spans().last() == wb.spans()[d as int]);
                assert(walker.lo() == lo_s && walker.hi() == hi_s);
                assert(walker.spans() =~= spans0);
                if up == Result::<Side, ()>::Ok(Side::Right) {
                    walker.lemma_wf();
                    assert(false);
                }
                assert(up->Ok_0 is Left || up->Ok_0 is Right);
                assert(up == Result::<Side, ()>::Ok(Side::Left));
                assert(walker.mid() == m);
            } else {
                assert(walker.spans().len() >= d + 1);
                if walker.spans().len() == d + 1 {
                    assert(wb.spans().last() == wb.spans()[d + 1]);
                    assert(walker.lo() == lo_s && walker.hi() == m);
                }
            }
        }
    }
    let _ = walker.go_right();
    act_on_prefix(walker, action, locator, Ghost(s), Ghost(low));
}

/// The values of the locator's segment, in order, read off by one pass
/// over the whole tree with running context summaries. The tree is not
/// touched.
pub fn iter_locator<D: Data, L: Locator<D>>(t: &BasicTree<D>, locator: &L) -> (r: Vec<D::Value>)
    requires
        t.inv(),
        segment_shaped(*locator, t.view_seq()),
    ensures
        r@ == t.view_seq().subrange(
            seg_low(*locator, t.view_seq()),
            seg_high(*locator, t.view_seq()),
        ),
{
    let ghost s = t.view_seq();
    let ghost low = seg_low(*locator, s);
    let ghost high = seg_high(*locator, s);
    proof {
        lemma_seg_bounds(*locator, s);
    }
    let vals = to_array(t);
    let n = vals.len();
    // summaries of every suffix, deepest first: tails[j] describes the
    // last j values
    let mut tails: Vec<D::Summary> = Vec::new();
    tails.push(D::empty_summary());
    proof {
        assert(s.skip(n as int) =~= Seq::<D::Value>::empty());
    }
    let mut m: usize = n;
    while m > 0
        invariant
            vals@ == s,
            n == s.len(),
            0 <= m <= n,
            tails@.len() == n - m + 1,
            forall|k: int| 0 <= k <= n - m ==> tails@[k] == summarize_seq::<D>(s.skip(n - k)),
        decreases m,
    {
        let prev = tails[n - m];
        let x = D::combine(D::summarize(vals[m - 1]), prev);
        proof {
            let i = m - 1;
            assert(s.skip(i as int)[0] == s[i as int]);
            assert(s.skip(i as int).skip(1) =~= s.skip(i + 1));
        }
        tails.push(x);
        m -= 1;
    }
    let mut left = D::empty_summary();
    let mut out: Vec<D::Value> = Vec::new();
    proof {
        assert(s.take(0) =~= Seq::<D::Value>::empty());
        assert(s.subrange(low, low) =~= Seq::<D::Value>::empty());
    }
    let mut i: usize = 0;
    while i < n
        invariant
            vals@ == s,
            n == s.len(),
            0 <= i <= n,
            tails@.len() == n + 1,
            forall|k: int| 0 <= k <= n ==> tails@[k] == summarize_seq::<D>(s.skip(n - k)),
            left == summarize_seq::<D>(s.take(i as int)),
            segment_shaped(*locator, s),
            low == seg_low(*locator, s),
            high == seg_high(*locator, s),
            0 <= low <= high <= n,
            out@ == s.subrange(
                low,
                if i <= low {
                    low
                } else if i <= high {
                    i as int
                } else {
                    high
                },
            ),
        decreases n - i,
    {
        proof {
            lemma_seg_bounds(*locator, s);
        }
        let right = tails[n - 1 - i];
        proof {
            assert(tails@[n - 1 - i] == summarize_seq::<D>(s.skip(i + 1)));
        }
        let dir = locator.locate(left, vals[i], right);
        proof {
            assert(dir == decide(*locator, s, i as int));
        }
        match dir {
            LocResult::Accept => {
                out.push(vals[i]);
                proof {
                    assert(low <= i < high);
                    assert(out@ =~= s.subrange(low, i + 1));
                }
            },
            LocResult::GoRight => {
                proof {
                    assert((i as int) < low);
                }
            },
            LocResult::GoLeft => {
                proof {
                    assert(high <= i as int);
                    assert(out@ =~= s.subrange(low, high));
                }
            },
        }
        proof {
            assert(s.take(i + 1) =~= s.take(i as int) + seq![s[i as int]]);
            lemma_summarize_concat::<D>(s.take(i as int), seq![s[i as int]]);
            lemma_summarize_one::<D>(s[i as int]);
        }
        left = D::combine(left, D::summarize(vals[i]));
        i += 1;
    }
    proof {
        assert(out@ =~= s.subrange(low, high));
    }
    out
}

fn build_range<D: Data>(values: &Vec<D::Value>, lo: usize, hi: usize) -> (t: BasicTree<D>)
    requires
        lo <= hi <= values@.len(),
    ensures
        t.inv(),
        t.view_seq() == values@.subrange(lo as int, hi as int),
    decreases hi - lo,
{
    if lo == hi {
        proof {
            assert(values@.subrange(lo as int, hi as int) =~= Seq::<D::Value>::empty());
        }
        BasicTree::Empty
    } else {
        let mid = lo + (hi - lo) / 2;
        let left = build_range(values, lo, mid);
        let right = build_range(values, mid + 1, hi);
        let node = crate::basic_tree::BasicNode::new(values[mid], left, right);
        proof {
            assert(values@.subrange(lo as int, hi as int) =~= values@.subrange(
                lo as int,
                mid as int,
            ) + seq![values@[mid as int]] + values@.subrange(mid + 1, hi as int));
        }
        BasicTree::Root(Box::new(node))
    }
}

/// A balanced tree holding the given values in the given order.
pub fn build<D: Data>(values: &Vec<D::Value>) -> (t: BasicTree<D>)
    ensures
        t.inv(),
        t.view_seq() == values@,
{
    let t = build_range(values, 0, values.len());
    proof {
        assert(values@.subrange(0, values@.len() as int) =~= values@);
    }
    t
}

} // verus!
