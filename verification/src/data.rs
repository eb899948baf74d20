//! The algebraic data interface: a monoid of summaries together with a
//! monoid of actions acting on summaries and values.
//!
//! The instantiating user supplies the value, summary and action types
//! and the operations on them; the laws below are proof obligations
//! that every instantiation discharges, and everything the trees prove
//! rests on them.

use vstd::prelude::*;

verus! {

/// The data interface that every tree is parameterized over.
///
/// `Summary` is a monoid under [`Data::combine`] with identity
/// [`Data::empty_summary`]. `Action` is a monoid under
/// [`Data::compose`] with identity [`Data::id_action`], acting on
/// summaries through [`Data::act_summary`] and on values through
/// [`Data::act_value`]. An action may in addition request that the
/// segment it is applied to be reversed ([`Data::to_reverse`]); any
/// instantiation with a reversing action must have a commutative
/// summary monoid, so that reversal leaves summaries unchanged.
pub trait Data: Sized {
    type Value: Copy;
    type Summary: Copy;
    type Action: Copy;

    // ----- the mathematical model of the operations -----

    /// Summary of a single value.
    spec fn summarize_spec(v: Self::Value) -> Self::Summary;

    /// The identity of the summary monoid: the summary of no values.
    spec fn empty_spec() -> Self::Summary;

    /// The summary of two adjacent segments, left then right.
    spec fn combine_spec(s1: Self::Summary, s2: Self::Summary) -> Self::Summary;

    /// The identity of the action monoid.
    spec fn id_spec() -> Self::Action;

    /// Composition of actions: `compose_spec(a, b)` applies `b` first,
    /// then `a`.
    spec fn compose_spec(a: Self::Action, b: Self::Action) -> Self::Action;

    /// The action applied to a whole segment's summary.
    spec fn act_summary_spec(a: Self::Action, s: Self::Summary) -> Self::Summary;

    /// The action applied to a single value.
    spec fn act_value_spec(a: Self::Action, v: Self::Value) -> Self::Value;

    /// Whether the action requests that its segment be reversed.
    spec fn to_reverse_spec(a: Self::Action) -> bool;

    // ----- the executable operations, pinned to the model -----

    fn summarize(v: Self::Value) -> (r: Self::Summary)
        ensures
            r == Self::summarize_spec(v),
    ;

    fn empty_summary() -> (r: Self::Summary)
        ensures
            r == Self::empty_spec(),
    ;

    fn combine(s1: Self::Summary, s2: Self::Summary) -> (r: Self::Summary)
        ensures
            r == Self::combine_spec(s1, s2),
    ;

    fn id_action() -> (r: Self::Action)
        ensures
            r == Self::id_spec(),
    ;

    fn compose(a: Self::Action, b: Self::Action) -> (r: Self::Action)
        ensures
            r == Self::compose_spec(a, b),
    ;

    fn act_summary(a: Self::Action, s: Self::Summary) -> (r: Self::Summary)
        ensures
            r == Self::act_summary_spec(a, s),
    ;

    fn act_value(a: Self::Action, v: Self::Value) -> (r: Self::Value)
        ensures
            r == Self::act_value_spec(a, v),
    ;

    fn to_reverse(a: Self::Action) -> (r: bool)
        ensures
            r == Self::to_reverse_spec(a),
    ;

    // ----- the laws -----

    /// The summary monoid is associative.
    proof fn law_combine_assoc(s1: Self::Summary, s2: Self::Summary, s3: Self::Summary)
        ensures
            Self::combine_spec(Self::combine_spec(s1, s2), s3)
                == Self::combine_spec(s1, Self::combine_spec(s2, s3)),
    ;

    /// The empty summary is the identity of the summary monoid.
    proof fn law_combine_empty(s: Self::Summary)
        ensures
            Self::combine_spec(Self::empty_spec(), s) == s,
            Self::combine_spec(s, Self::empty_spec()) == s,
    ;

    /// The identity action changes nothing and requests no reversal.
    proof fn law_id(v: Self::Value, s: Self::Summary)
        ensures
            Self::act_value_spec(Self::id_spec(), v) == v,
            Self::act_summary_spec(Self::id_spec(), s) == s,
            !Self::to_reverse_spec(Self::id_spec()),
    ;

    /// The identity action is the identity of the action monoid.
    proof fn law_compose_id(a: Self::Action)
        ensures
            Self::compose_spec(Self::id_spec(), a) == a,
            Self::compose_spec(a, Self::id_spec()) == a,
    ;

    /// Acting with a composition equals acting twice, and the reversal
    /// requests of the two actions cancel out pairwise.
    proof fn law_act_compose(a: Self::Action, b: Self::Action, v: Self::Value, s: Self::Summary)
        ensures
            Self::act_value_spec(Self::compose_spec(a, b), v)
                == Self::act_value_spec(a, Self::act_value_spec(b, v)),
            Self::act_summary_spec(Self::compose_spec(a, b), s)
                == Self::act_summary_spec(a, Self::act_summary_spec(b, s)),
            Self::to_reverse_spec(Self::compose_spec(a, b))
                == (Self::to_reverse_spec(a) != Self::to_reverse_spec(b)),
    ;

    /// Acting on a summary is a monoid homomorphism.
    proof fn law_act_combine(a: Self::Action, s1: Self::Summary, s2: Self::Summary)
        ensures
            Self::act_summary_spec(a, Self::combine_spec(s1, s2))
                == Self::combine_spec(Self::act_summary_spec(a, s1), Self::act_summary_spec(a, s2)),
    ;

    /// Acting on the empty summary yields the empty summary.
    proof fn law_act_empty(a: Self::Action)
        ensures
            Self::act_summary_spec(a, Self::empty_spec()) == Self::empty_spec(),
    ;

    /// Acting on a summary equals summarizing the acted-on value.
    proof fn law_act_summarize(a: Self::Action, v: Self::Value)
        ensures
            Self::summarize_spec(Self::act_value_spec(a, v))
                == Self::act_summary_spec(a, Self::summarize_spec(v)),
    ;

    /// Any instantiation that can request reversal has a commutative
    /// summary monoid, so reversing a segment leaves its summary as it
    /// was.
    proof fn law_reverse_commutes(a: Self::Action, s1: Self::Summary, s2: Self::Summary)
        requires
            Self::to_reverse_spec(a),
        ensures
            Self::combine_spec(s1, s2) == Self::combine_spec(s2, s1),
    ;
}

/// Marker trait for data whose trees may have segments reversed.
/// Implement it to obtain an action that requests reversal and does
/// nothing else.
pub trait Reverse: Data {
    /// The pure reversal action: it reverses and leaves every value and
    /// summary unchanged.
    fn reversal_action() -> (a: Self::Action)
        ensures
            Self::to_reverse_spec(a),
            forall|v: Self::Value| Self::act_value_spec(a, v) == v,
            forall|s: Self::Summary| Self::act_summary_spec(a, s) == s,
    ;
}

/// Data whose values carry a search key; binary search tree order is
/// non-decreasing by key.
pub trait Keyed: Data {
    /// The key of a value.
    spec fn key_spec(v: Self::Value) -> u64;

    fn get_key(v: Self::Value) -> (k: u64)
        ensures
            k == Self::key_spec(v),
    ;
}

/// Data whose summaries count the number of summarized values, so that
/// segments can be located by index.
pub trait SizedData: Data {
    /// How many values the summary describes.
    spec fn size_spec(s: Self::Summary) -> u64;

    fn size_of(s: Self::Summary) -> (n: u64)
        ensures
            n == Self::size_spec(s),
    ;

    /// The empty summary describes no values.
    proof fn law_size_empty()
        ensures
            Self::size_spec(Self::empty_spec()) == 0,
    ;

    /// A single value's summary describes one value.
    proof fn law_size_one(v: Self::Value)
        ensures
            Self::size_spec(Self::summarize_spec(v)) == 1,
    ;

    /// Sizes add when summaries combine, modulo the machine word.
    proof fn law_size_combine(s1: Self::Summary, s2: Self::Summary)
        ensures
            Self::size_spec(Self::combine_spec(s1, s2))
                == vstd::wrapping::u64_specs::wrapping_add(Self::size_spec(s1), Self::size_spec(s2)),
    ;

    /// Actions do not change how many values a summary describes.
    proof fn law_size_act(a: Self::Action, s: Self::Summary)
        ensures
            Self::size_spec(Self::act_summary_spec(a, s)) == Self::size_spec(s),
    ;
}

/// The summary of a whole sequence of values: the monoid fold of the
/// summaries of its elements.
pub open spec fn summarize_seq<D: Data>(s: Seq<D::Value>) -> D::Summary
    decreases s.len(),
{
    if s.len() == 0 {
        D::empty_spec()
    } else {
        D::combine_spec(D::summarize_spec(s[0]), summarize_seq::<D>(s.skip(1)))
    }
}

/// An action applied to a whole sequence: every value is acted on, and
/// the sequence is reversed if the action requests it.
pub open spec fn act_seq<D: Data>(a: D::Action, s: Seq<D::Value>) -> Seq<D::Value> {
    let mapped = s.map_values(|v: D::Value| D::act_value_spec(a, v));
    if D::to_reverse_spec(a) {
        mapped.reverse()
    } else {
        mapped
    }
}

/// Summarizing distributes over concatenation.
pub proof fn lemma_summarize_concat<D: Data>(s1: Seq<D::Value>, s2: Seq<D::Value>)
    ensures
        summarize_seq::<D>(s1 + s2) == D::combine_spec(summarize_seq::<D>(s1), summarize_seq::<D>(s2)),
    decreases s1.len(),
{
    if s1.len() == 0 {
        assert(s1 + s2 =~= s2);
        D::law_combine_empty(summarize_seq::<D>(s2));
    } else {
        assert((s1 + s2).skip(1) =~= s1.skip(1) + s2);
        lemma_summarize_concat::<D>(s1.skip(1), s2);
        D::law_combine_assoc(
            D::summarize_spec(s1[0]),
            summarize_seq::<D>(s1.skip(1)),
            summarize_seq::<D>(s2),
        );
    }
}

/// The summary of a one-value sequence is that value's summary.
pub proof fn lemma_summarize_one<D: Data>(v: D::Value)
    ensures
        summarize_seq::<D>(seq![v]) == D::summarize_spec(v),
{
    assert(seq![v].skip(1) =~= Seq::<D::Value>::empty());
    assert(seq![v][0] == v);
    assert(summarize_seq::<D>(seq![v]) == D::combine_spec(
        D::summarize_spec(v),
        summarize_seq::<D>(Seq::<D::Value>::empty()),
    ));
    D::law_combine_empty(D::summarize_spec(v));
}

/// The summary of a value followed by two segments, in the nesting the
/// walker computes it.
pub proof fn lemma_sum3_left<D: Data>(v: D::Value, x: Seq<D::Value>, y: Seq<D::Value>)
    ensures
        summarize_seq::<D>(seq![v] + x + y) == D::combine_spec(
            D::summarize_spec(v),
            D::combine_spec(summarize_seq::<D>(x), summarize_seq::<D>(y)),
        ),
{
    assert(seq![v] + x + y =~= seq![v] + (x + y));
    lemma_summarize_concat::<D>(seq![v], x + y);
    lemma_summarize_concat::<D>(x, y);
    lemma_summarize_one::<D>(v);
}

/// The summary of two segments followed by a value, in the nesting the
/// walker computes it.
pub proof fn lemma_sum3_right<D: Data>(x: Seq<D::Value>, y: Seq<D::Value>, v: D::Value)
    ensures
        summarize_seq::<D>(x + y + seq![v]) == D::combine_spec(
            D::combine_spec(summarize_seq::<D>(x), summarize_seq::<D>(y)),
            D::summarize_spec(v),
        ),
{
    lemma_summarize_concat::<D>(x + y, seq![v]);
    lemma_summarize_concat::<D>(x, y);
    lemma_summarize_one::<D>(v);
}

/// Acting on a sequence's summary equals summarizing the acted-on
/// sequence.
pub proof fn lemma_summarize_map<D: Data>(a: D::Action, s: Seq<D::Value>)
    ensures
        summarize_seq::<D>(s.map_values(|v: D::Value| D::act_value_spec(a, v)))
            == D::act_summary_spec(a, summarize_seq::<D>(s)),
    decreases s.len(),
{
    let f = |v: D::Value| D::act_value_spec(a, v);
    if s.len() == 0 {
        assert(s.map_values(f) =~= Seq::<D::Value>::empty());
        D::law_act_empty(a);
    } else {
        assert(s.map_values(f).skip(1) =~= s.skip(1).map_values(f));
        lemma_summarize_map::<D>(a, s.skip(1));
        D::law_act_summarize(a, s[0]);
        D::law_act_combine(a, D::summarize_spec(s[0]), summarize_seq::<D>(s.skip(1)));
        assert(s.map_values(f)[0] == f(s[0]));
    }
}

/// When the summary monoid is commutative on account of a reversing
/// action, a sequence and its reverse have the same summary.
pub proof fn lemma_summarize_reverse<D: Data>(a: D::Action, s: Seq<D::Value>)
    requires
        D::to_reverse_spec(a),
    ensures
        summarize_seq::<D>(s.reverse()) == summarize_seq::<D>(s),
    decreases s.len(),
{
    if s.len() == 0 {
        assert(s.reverse() =~= s);
    } else {
        assert(s.reverse() =~= s.skip(1).reverse() + seq![s[0]]);
        lemma_summarize_concat::<D>(s.skip(1).reverse(), seq![s[0]]);
        lemma_summarize_reverse::<D>(a, s.skip(1));
        lemma_summarize_one::<D>(s[0]);
        D::law_reverse_commutes(a, summarize_seq::<D>(s.skip(1)), D::summarize_spec(s[0]));
    }
}

/// The summary of an acted-on sequence, reversal included.
pub proof fn lemma_summarize_act_seq<D: Data>(a: D::Action, s: Seq<D::Value>)
    ensures
        summarize_seq::<D>(act_seq::<D>(a, s)) == D::act_summary_spec(a, summarize_seq::<D>(s)),
{
    lemma_summarize_map::<D>(a, s);
    if D::to_reverse_spec(a) {
        lemma_summarize_reverse::<D>(a, s.map_values(|v: D::Value| D::act_value_spec(a, v)));
    }
}

/// The identity action leaves a sequence as it was.
pub proof fn lemma_act_seq_id<D: Data>(s: Seq<D::Value>)
    ensures
        act_seq::<D>(D::id_spec(), s) == s,
{
    assert forall|i: int| 0 <= i < s.len() implies s.map_values(
        |v: D::Value| D::act_value_spec(D::id_spec(), v),
    )[i] == s[i] by {
        D::law_id(s[i], D::empty_spec());
    }
    D::law_id(arbitrary(), D::empty_spec());
    assert(s.map_values(|v: D::Value| D::act_value_spec(D::id_spec(), v)) =~= s);
}

/// Acting with a composition equals acting twice, on whole sequences.
pub proof fn lemma_act_seq_compose<D: Data>(a: D::Action, b: D::Action, s: Seq<D::Value>)
    ensures
        act_seq::<D>(D::compose_spec(a, b), s) == act_seq::<D>(a, act_seq::<D>(b, s)),
{
    let fa = |v: D::Value| D::act_value_spec(a, v);
    let fb = |v: D::Value| D::act_value_spec(b, v);
    let fab = |v: D::Value| D::act_value_spec(D::compose_spec(a, b), v);
    assert forall|i: int| 0 <= i < s.len() implies s.map_values(fab)[i] == s.map_values(fb).map_values(
        fa,
    )[i] by {
        D::law_act_compose(a, b, s[i], D::empty_spec());
    }
    assert(s.map_values(fab) =~= s.map_values(fb).map_values(fa));
    D::law_act_compose(a, b, arbitrary(), D::empty_spec());
    let m = s.map_values(fab);
    let ra = D::to_reverse_spec(a);
    let rb = D::to_reverse_spec(b);
    if rb {
        lemma_map_reverse::<D>(fa, s.map_values(fb));
        if ra {
            lemma_reverse_reverse(m);
        }
    }
}

/// Mapping commutes with reversal.
pub proof fn lemma_map_reverse<D: Data>(f: spec_fn(D::Value) -> D::Value, s: Seq<D::Value>)
    ensures
        s.reverse().map_values(f) == s.map_values(f).reverse(),
{
    assert(s.reverse().map_values(f) =~= s.map_values(f).reverse());
}

/// Reversing twice yields the original sequence.
pub proof fn lemma_reverse_reverse<V>(s: Seq<V>)
    ensures
        s.reverse().reverse() == s,
{
    assert(s.reverse().reverse() =~= s);
}

} // verus!
