//! Example instantiations of the data interface on numeric values.
//!
//! [`StdNum`] delivers size, sum, minimum and maximum of a segment and
//! has no nontrivial actions. [`RevAddNum`] delivers size and sum and
//! supports adding a constant to a segment as well as reversing a
//! segment; its arithmetic wraps around the machine word, which is what
//! makes its monoid and action laws hold for every input.

use vstd::prelude::*;
use vstd::arithmetic::div_mod::lemma_add_mod_noop;
use vstd::arithmetic::div_mod::lemma_mul_mod_noop_left;
use vstd::arithmetic::div_mod::lemma_mul_mod_noop_right;
use vstd::arithmetic::div_mod::lemma_mod_sub_multiples_vanish;
use vstd::arithmetic::div_mod::lemma_small_mod;
use vstd::arithmetic::mul::lemma_mul_is_distributive_add_other_way;
use vstd::arithmetic::mul::lemma_mul_is_commutative;
use crate::data::Data;
use crate::data::Keyed;
use crate::data::Reverse;
use crate::data::SizedData;

verus! {

/// Addition on `u64` wrapping around the machine word.
pub open spec fn wadd(x: u64, y: u64) -> u64 {
    vstd::wrapping::u64_specs::wrapping_add(x, y)
}

/// Multiplication on `u64` wrapping around the machine word.
pub open spec fn wmul(x: u64, y: u64) -> u64 {
    vstd::wrapping::u64_specs::wrapping_mul(x, y)
}

/// One more than `u64::MAX`: the modulus of the wrapping arithmetic.
pub open spec fn wbase() -> int {
    0x1_0000_0000_0000_0000
}

pub proof fn lemma_wadd_mod(x: u64, y: u64)
    ensures
        wadd(x, y) as int == (x + y) % wbase(),
{
    if x + y > u64::MAX {
        lemma_mod_sub_multiples_vanish(x + y, wbase());
        lemma_small_mod((x + y - wbase()) as nat, wbase() as nat);
    } else {
        lemma_small_mod((x + y) as nat, wbase() as nat);
    }
}

pub proof fn lemma_wmul_mod(x: u64, y: u64)
    ensures
        wmul(x, y) as int == (x * y) % wbase(),
{
    assert(x as nat * y as nat == (x * y) as nat);
}

pub proof fn lemma_wadd_comm(x: u64, y: u64)
    ensures
        wadd(x, y) == wadd(y, x),
{
}

pub proof fn lemma_wadd_zero(x: u64)
    ensures
        wadd(x, 0) == x,
        wadd(0, x) == x,
{
}

pub proof fn lemma_wadd_assoc(x: u64, y: u64, z: u64)
    ensures
        wadd(wadd(x, y), z) == wadd(x, wadd(y, z)),
{
    lemma_wadd_mod(x, y);
    lemma_wadd_mod(y, z);
    lemma_wadd_mod(wadd(x, y), z);
    lemma_wadd_mod(x, wadd(y, z));
    lemma_add_mod_noop(x + y, z as int, wbase());
    lemma_add_mod_noop(x as int, y + z, wbase());
    lemma_small_mod(x as nat, wbase() as nat);
    lemma_small_mod(z as nat, wbase() as nat);
}

pub proof fn lemma_wmul_zero(y: u64)
    ensures
        wmul(0, y) == 0,
{
}

pub proof fn lemma_wmul_one(x: u64)
    ensures
        wmul(x, 1) == x,
{
    lemma_small_mod(x as nat, wbase() as nat);
}

/// Wrapping multiplication distributes over wrapping addition.
pub proof fn lemma_wmul_distributes(x: u64, y1: u64, y2: u64)
    ensures
        wmul(x, wadd(y1, y2)) == wadd(wmul(x, y1), wmul(x, y2)),
{
    lemma_wadd_mod(y1, y2);
    lemma_wmul_mod(x, wadd(y1, y2));
    lemma_wmul_mod(x, y1);
    lemma_wmul_mod(x, y2);
    lemma_wadd_mod(wmul(x, y1), wmul(x, y2));
    lemma_mul_mod_noop_right(x as int, y1 + y2, wbase());
    lemma_mul_is_distributive_add_other_way(x as int, y1 as int, y2 as int);
    assert(x * (y1 + y2) == y1 * x + y2 * x) by {
        lemma_mul_is_commutative(x as int, y1 as int);
        lemma_mul_is_commutative(x as int, y2 as int);
    }
    lemma_mul_is_commutative(x as int, y1 as int);
    lemma_mul_is_commutative(x as int, y2 as int);
    lemma_add_mod_noop(x * y1, x * y2, wbase());
}

/// Wrapping multiplication by a wrapped sum of two amounts.
pub proof fn lemma_wmul_wadd_left(x1: u64, x2: u64, y: u64)
    ensures
        wmul(wadd(x1, x2), y) == wadd(wmul(x1, y), wmul(x2, y)),
{
    lemma_wadd_mod(x1, x2);
    lemma_wmul_mod(wadd(x1, x2), y);
    lemma_wmul_mod(x1, y);
    lemma_wmul_mod(x2, y);
    lemma_wadd_mod(wmul(x1, y), wmul(x2, y));
    lemma_mul_mod_noop_left(x1 + x2, y as int, wbase());
    lemma_mul_is_distributive_add_other_way(y as int, x1 as int, x2 as int);
    lemma_mul_is_commutative(x1 as int, y as int);
    lemma_mul_is_commutative(x2 as int, y as int);
    lemma_mul_is_commutative((x1 + x2) as int, y as int);
    lemma_add_mod_noop(x1 * y, x2 * y, wbase());
}

/// The minimum of two optional values, treating absence as neutral.
pub open spec fn omin(a: Option<u64>, b: Option<u64>) -> Option<u64> {
    match (a, b) {
        (Option::None, other) => other,
        (other, Option::None) => other,
        (Option::Some(x), Option::Some(y)) => if x <= y {
            Option::Some(x)
        } else {
            Option::Some(y)
        },
    }
}

/// The maximum of two optional values, treating absence as neutral.
pub open spec fn omax(a: Option<u64>, b: Option<u64>) -> Option<u64> {
    match (a, b) {
        (Option::None, other) => other,
        (other, Option::None) => other,
        (Option::Some(x), Option::Some(y)) => if x >= y {
            Option::Some(x)
        } else {
            Option::Some(y)
        },
    }
}

fn omin_exec(a: Option<u64>, b: Option<u64>) -> (r: Option<u64>)
    ensures
        r == omin(a, b),
{
    match (a, b) {
        (Option::None, other) => other,
        (other, Option::None) => other,
        (Option::Some(x), Option::Some(y)) => if x <= y {
            Option::Some(x)
        } else {
            Option::Some(y)
        },
    }
}

fn omax_exec(a: Option<u64>, b: Option<u64>) -> (r: Option<u64>)
    ensures
        r == omax(a, b),
{
    match (a, b) {
        (Option::None, other) => other,
        (other, Option::None) => other,
        (Option::Some(x), Option::Some(y)) => if x >= y {
            Option::Some(x)
        } else {
            Option::Some(y)
        },
    }
}

/// Size, wrapping sum, minimum and maximum of a segment of numbers.
#[derive(Clone, Copy)]
pub struct NumSummary {
    pub size: u64,
    pub sum: u64,
    pub min: Option<u64>,
    pub max: Option<u64>,
}

/// The trivial action: it changes nothing.
#[derive(Clone, Copy)]
pub struct NoAction;

/// Numeric data with size, sum, minimum and maximum summaries and no
/// nontrivial actions. Its key is the value itself, so trees over it
/// can be searched by value.
pub struct StdNum;

impl Data for StdNum {
    type Value = u64;

    type Summary = NumSummary;

    type Action = NoAction;

    open spec fn summarize_spec(v: u64) -> NumSummary {
        NumSummary { size: 1, sum: v, min: Option::Some(v), max: Option::Some(v) }
    }

    open spec fn empty_spec() -> NumSummary {
        NumSummary { size: 0, sum: 0, min: Option::None, max: Option::None }
    }

    open spec fn combine_spec(s1: NumSummary, s2: NumSummary) -> NumSummary {
        NumSummary {
            size: wadd(s1.size, s2.size),
            sum: wadd(s1.sum, s2.sum),
            min: omin(s1.min, s2.min),
            max: omax(s1.max, s2.max),
        }
    }

    open spec fn id_spec() -> NoAction {
        NoAction
    }

    open spec fn compose_spec(a: NoAction, b: NoAction) -> NoAction {
        NoAction
    }

    open spec fn act_summary_spec(a: NoAction, s: NumSummary) -> NumSummary {
        s
    }

    open spec fn act_value_spec(a: NoAction, v: u64) -> u64 {
        v
    }

    open spec fn to_reverse_spec(a: NoAction) -> bool {
        false
    }

    fn summarize(v: u64) -> NumSummary {
        NumSummary { size: 1, sum: v, min: Option::Some(v), max: Option::Some(v) }
    }

    fn empty_summary() -> NumSummary {
        NumSummary { size: 0, sum: 0, min: Option::None, max: Option::None }
    }

    fn combine(s1: NumSummary, s2: NumSummary) -> NumSummary {
        NumSummary {
            size: s1.size.wrapping_add(s2.size),
            sum: s1.sum.wrapping_add(s2.sum),
            min: omin_exec(s1.min, s2.min),
            max: omax_exec(s1.max, s2.max),
        }
    }

    fn id_action() -> NoAction {
        NoAction
    }

    fn compose(a: NoAction, b: NoAction) -> NoAction {
        NoAction
    }

    fn act_summary(a: NoAction, s: NumSummary) -> NumSummary {
        s
    }

    fn act_value(a: NoAction, v: u64) -> u64 {
        v
    }

    fn to_reverse(a: NoAction) -> bool {
        false
    }

    proof fn law_combine_assoc(s1: NumSummary, s2: NumSummary, s3: NumSummary) {
        lemma_wadd_assoc(s1.size, s2.size, s3.size);
        lemma_wadd_assoc(s1.sum, s2.sum, s3.sum);
    }

    proof fn law_combine_empty(s: NumSummary) {
    }

    proof fn law_id(v: u64, s: NumSummary) {
    }

    proof fn law_compose_id(a: NoAction) {
    }

    proof fn law_act_compose(a: NoAction, b: NoAction, v: u64, s: NumSummary) {
    }

    proof fn law_act_combine(a: NoAction, s1: NumSummary, s2: NumSummary) {
    }

    proof fn law_act_empty(a: NoAction) {
    }

    proof fn law_act_summarize(a: NoAction, v: u64) {
    }

    proof fn law_reverse_commutes(a: NoAction, s1: NumSummary, s2: NumSummary) {
    }
}

impl Keyed for StdNum {
    open spec fn key_spec(v: u64) -> u64 {
        v
    }

    fn get_key(v: u64) -> u64 {
        v
    }
}

impl SizedData for StdNum {
    open spec fn size_spec(s: NumSummary) -> u64 {
        s.size
    }

    fn size_of(s: NumSummary) -> u64 {
        s.size
    }

    proof fn law_size_empty() {
    }

    proof fn law_size_one(v: u64) {
    }

    proof fn law_size_combine(s1: NumSummary, s2: NumSummary) {
    }

    proof fn law_size_act(a: NoAction, s: NumSummary) {
    }
}

/// Size and wrapping sum of a segment of numbers.
#[derive(Clone, Copy)]
pub struct AddSummary {
    pub size: u64,
    pub sum: u64,
}

/// An action that adds a constant to every value of a segment and may
/// in addition request that the segment be reversed.
#[derive(Clone, Copy)]
pub struct AddRev {
    pub add: u64,
    pub rev: bool,
}

/// Numeric data with size and sum summaries, supporting addition of a
/// constant to a segment and reversal of a segment. All arithmetic
/// wraps around the machine word.
pub struct RevAddNum;

impl RevAddNum {
    /// The action that adds `x` to every value of the segment it is
    /// applied to.
    pub fn add_action(x: u64) -> (a: AddRev)
        ensures
            a == (AddRev { add: x, rev: false }),
    {
        AddRev { add: x, rev: false }
    }
}

impl Data for RevAddNum {
    type Value = u64;

    type Summary = AddSummary;

    type Action = AddRev;

    open spec fn summarize_spec(v: u64) -> AddSummary {
        AddSummary { size: 1, sum: v }
    }

    open spec fn empty_spec() -> AddSummary {
        AddSummary { size: 0, sum: 0 }
    }

    open spec fn combine_spec(s1: AddSummary, s2: AddSummary) -> AddSummary {
        AddSummary { size: wadd(s1.size, s2.size), sum: wadd(s1.sum, s2.sum) }
    }

    open spec fn id_spec() -> AddRev {
        AddRev { add: 0, rev: false }
    }

    open spec fn compose_spec(a: AddRev, b: AddRev) -> AddRev {
        AddRev { add: wadd(a.add, b.add), rev: a.rev != b.rev }
    }

    open spec fn act_summary_spec(a: AddRev, s: AddSummary) -> AddSummary {
        AddSummary { size: s.size, sum: wadd(s.sum, wmul(a.add, s.size)) }
    }

    open spec fn act_value_spec(a: AddRev, v: u64) -> u64 {
        wadd(v, a.add)
    }

    open spec fn to_reverse_spec(a: AddRev) -> bool {
        a.rev
    }

    fn summarize(v: u64) -> AddSummary {
        AddSummary { size: 1, sum: v }
    }

    fn empty_summary() -> AddSummary {
        AddSummary { size: 0, sum: 0 }
    }

    fn combine(s1: AddSummary, s2: AddSummary) -> AddSummary {
        AddSummary { size: s1.size.wrapping_add(s2.size), sum: s1.sum.wrapping_add(s2.sum) }
    }

    fn id_action() -> AddRev {
        AddRev { add: 0, rev: false }
    }

    fn compose(a: AddRev, b: AddRev) -> AddRev {
        AddRev { add: a.add.wrapping_add(b.add), rev: a.rev != b.rev }
    }

    fn act_summary(a: AddRev, s: AddSummary) -> AddSummary {
        AddSummary { size: s.size, sum: s.sum.wrapping_add(a.add.wrapping_mul(s.size)) }
    }

    fn act_value(a: AddRev, v: u64) -> u64 {
        v.wrapping_add(a.add)
    }

    fn to_reverse(a: AddRev) -> bool {
        a.rev
    }

    proof fn law_combine_assoc(s1: AddSummary, s2: AddSummary, s3: AddSummary) {
        lemma_wadd_assoc(s1.size, s2.size, s3.size);
        lemma_wadd_assoc(s1.sum, s2.sum, s3.sum);
    }

    proof fn law_combine_empty(s: AddSummary) {
    }

    proof fn law_id(v: u64, s: AddSummary) {
        lemma_wmul_zero(s.size);
    }

    proof fn law_compose_id(a: AddRev) {
    }

    proof fn law_act_compose(a: AddRev, b: AddRev, v: u64, s: AddSummary) {
        lemma_wadd_assoc(v, b.add, a.add);
        lemma_wadd_comm(b.add, a.add);
        lemma_wmul_wadd_left(a.add, b.add, s.size);
        lemma_wadd_assoc(s.sum, wmul(b.add, s.size), wmul(a.add, s.size));
        lemma_wadd_comm(wmul(b.add, s.size), wmul(a.add, s.size));
        lemma_wadd_assoc(s.sum, wmul(a.add, s.size), wmul(b.add, s.size));
    }

    proof fn law_act_combine(a: AddRev, s1: AddSummary, s2: AddSummary) {
        let x = a.add;
        lemma_wmul_distributes(x, s1.size, s2.size);
        // (s1 + s2) + (x*z1 + x*z2) == (s1 + x*z1) + (s2 + x*z2), all wrapping
        lemma_wadd_assoc(wadd(s1.sum, s2.sum), wmul(x, s1.size), wmul(x, s2.size));
        lemma_wadd_assoc(s1.sum, s2.sum, wmul(x, s1.size));
        lemma_wadd_comm(s2.sum, wmul(x, s1.size));
        lemma_wadd_assoc(s1.sum, wmul(x, s1.size), s2.sum);
        lemma_wadd_assoc(wadd(s1.sum, wmul(x, s1.size)), s2.sum, wmul(x, s2.size));
        assert(wmul(x, s1.size) == wmul(s1.size, x) && wmul(x, s2.size) == wmul(s2.size, x)) by {
            lemma_mul_is_commutative(x as int, s1.size as int);
            lemma_mul_is_commutative(x as int, s2.size as int);
        }
    }

    proof fn law_act_empty(a: AddRev) {
        lemma_wmul_mod(a.add, 0);
    }

    proof fn law_act_summarize(a: AddRev, v: u64) {
        lemma_wmul_one(a.add);
    }

    proof fn law_reverse_commutes(a: AddRev, s1: AddSummary, s2: AddSummary) {
        lemma_wadd_comm(s1.size, s2.size);
        lemma_wadd_comm(s1.sum, s2.sum);
    }
}

impl Reverse for RevAddNum {
    fn reversal_action() -> (a: AddRev)
        ensures
            Self::to_reverse_spec(a),
            forall|v: u64| Self::act_value_spec(a, v) == v,
            forall|s: AddSummary| Self::act_summary_spec(a, s) == s,
    {
        proof {
            assert forall|s: AddSummary| Self::act_summary_spec(
                AddRev { add: 0, rev: true },
                s,
            ) == s by {
                lemma_wmul_zero(s.size);
            }
        }
        AddRev { add: 0, rev: true }
    }
}

impl Keyed for RevAddNum {
    open spec fn key_spec(v: u64) -> u64 {
        v
    }

    fn get_key(v: u64) -> u64 {
        v
    }
}

impl SizedData for RevAddNum {
    open spec fn size_spec(s: AddSummary) -> u64 {
        s.size
    }

    fn size_of(s: AddSummary) -> u64 {
        s.size
    }

    proof fn law_size_empty() {
    }

    proof fn law_size_one(v: u64) {
    }

    proof fn law_size_combine(s1: AddSummary, s2: AddSummary) {
    }

    proof fn law_size_act(a: AddRev, s: AddSummary) {
    }
}

} // verus!
