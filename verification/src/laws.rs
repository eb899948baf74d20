//! The laws the library promises across operations, stated over the
//! same sequences and spec functions the operations' contracts use.
//!
//! Summary correctness of a single tree is
//! [`crate::basic_tree::lemma_summary_correct`]; segment-summary
//! exactness is the postcondition of
//! [`crate::methods::segment_summary`]. The laws here connect several
//! operations with one another.

use vstd::prelude::*;
use crate::data::Data;
use crate::data::act_seq;
use crate::data::lemma_summarize_map;
use crate::data::summarize_seq;
use crate::methods::hybrid;
use crate::methods::mapped;

verus! {

/// Acting on a segment and then summarizing that segment yields the
/// action applied to the segment's old summary — equivalently, the
/// summary of the list with the segment's values acted on. This
/// connects the postcondition of an action on positions `[l, r)` (a
/// segment action, or an action on a split-out range) with a following
/// segment summary over the same positions.
pub proof fn lemma_act_segment_then_summary<D: Data>(a: D::Action, s: Seq<D::Value>, l: int, r: int)
    requires
        0 <= l <= r <= s.len(),
    ensures
        summarize_seq::<D>(hybrid::<D>(a, s, l, r).subrange(l, r)) == D::act_summary_spec(
            a,
            summarize_seq::<D>(s.subrange(l, r)),
        ),
        summarize_seq::<D>(hybrid::<D>(a, s, l, r).subrange(l, r)) == summarize_seq::<D>(
            mapped::<D>(a, s.subrange(l, r)),
        ),
{
    assert(hybrid::<D>(a, s, l, r).subrange(l, r) =~= mapped::<D>(a, s.subrange(l, r)));
    lemma_summarize_map::<D>(a, s.subrange(l, r));
}

/// Reversing the same segment twice restores the original sequence.
/// This connects two applications of the reverse-range postcondition.
pub proof fn lemma_reverse_range_twice<V>(s: Seq<V>, l: int, r: int)
    requires
        0 <= l <= r <= s.len(),
    ensures
        ({
            let once = s.take(l) + s.subrange(l, r).reverse() + s.skip(r);
            once.take(l) + once.subrange(l, r).reverse() + once.skip(r) == s
        }),
{
    let once = s.take(l) + s.subrange(l, r).reverse() + s.skip(r);
    assert(once.subrange(l, r) =~= s.subrange(l, r).reverse());
    assert(s.subrange(l, r).reverse().reverse() =~= s.subrange(l, r));
    assert(once.take(l) + once.subrange(l, r).reverse() + once.skip(r) =~= s);
}

/// A reversing action that changes no values turns a segment's values
/// into the reversed segment: what a reverse-range does to the split
/// out segment.
pub proof fn lemma_reversal_action_reverses<D: Data>(a: D::Action, s: Seq<D::Value>)
    requires
        D::to_reverse_spec(a),
        forall|v: D::Value| D::act_value_spec(a, v) == v,
    ensures
        act_seq::<D>(a, s) == s.reverse(),
{
    assert(s.map_values(|v: D::Value| D::act_value_spec(a, v)) =~= s);
}

/// Deleting the value just inserted restores the old sequence: the
/// insert postcondition (a value placed at position `i`) followed by
/// the delete postcondition (the value at position `i` removed) is the
/// identity.
pub proof fn lemma_insert_delete_roundtrip<V>(s: Seq<V>, i: int, v: V)
    requires
        0 <= i <= s.len(),
    ensures
        s.insert(i, v).remove(i) == s,
{
    assert(s.insert(i, v).remove(i) =~= s);
}

/// Concatenating what a split produced gives back the original
/// sequence: the split postconditions (the first `k` values and the
/// rest) followed by the concatenate postcondition (one sequence after
/// the other) is the identity.
pub proof fn lemma_split_concat_roundtrip<V>(s: Seq<V>, k: int)
    requires
        0 <= k <= s.len(),
    ensures
        s.take(k) + s.skip(k) == s,
{
    assert(s.take(k) + s.skip(k) =~= s);
}

} // verus!
