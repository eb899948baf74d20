use orchard::data::{Data, Reverse, SizedData};
use orchard::example_data::{AddRev, AddSummary, NoAction, NumSummary, RevAddNum, StdNum};

#[test]
fn std_num_summaries_combine() {
    let a = <StdNum as Data>::summarize(4);
    let b = <StdNum as Data>::summarize(9);
    let c = <StdNum as Data>::combine(a, b);
    assert_eq!(c.size, 2);
    assert_eq!(c.sum, 13);
    assert_eq!(c.min, Some(4));
    assert_eq!(c.max, Some(9));
    let e = <StdNum as Data>::empty_summary();
    let d = <StdNum as Data>::combine(c, e);
    assert_eq!(d.size, 2);
    assert_eq!(d.sum, 13);
    assert_eq!(d.min, Some(4));
    assert_eq!(d.max, Some(9));
}

#[test]
fn std_num_combine_is_associative_on_samples() {
    let xs = [
        <StdNum as Data>::summarize(7),
        <StdNum as Data>::empty_summary(),
        <StdNum as Data>::summarize(0),
        NumSummary { size: u64::MAX, sum: u64::MAX, min: Some(1), max: Some(u64::MAX) },
    ];
    for a in xs.iter() {
        for b in xs.iter() {
            for c in xs.iter() {
                let l = <StdNum as Data>::combine(<StdNum as Data>::combine(*a, *b), *c);
                let r = <StdNum as Data>::combine(*a, <StdNum as Data>::combine(*b, *c));
                assert_eq!(l.size, r.size);
                assert_eq!(l.sum, r.sum);
                assert_eq!(l.min, r.min);
                assert_eq!(l.max, r.max);
            }
        }
    }
}

#[test]
fn std_num_action_is_trivial() {
    let s = <StdNum as Data>::summarize(3);
    let s2 = <StdNum as Data>::act_summary(NoAction, s);
    assert_eq!(s2.sum, 3);
    assert_eq!(<StdNum as Data>::act_value(NoAction, 3), 3);
    assert!(!<StdNum as Data>::to_reverse(NoAction));
}

#[test]
fn rev_add_num_acts_homomorphically() {
    let s1 = <RevAddNum as Data>::summarize(2);
    let s2 = <RevAddNum as Data>::summarize(5);
    let both = <RevAddNum as Data>::combine(s1, s2);
    let a = AddRev { add: 10, rev: false };
    let acted_whole = <RevAddNum as Data>::act_summary(a, both);
    let acted_parts = <RevAddNum as Data>::combine(
        <RevAddNum as Data>::act_summary(a, s1),
        <RevAddNum as Data>::act_summary(a, s2),
    );
    assert_eq!(acted_whole.size, acted_parts.size);
    assert_eq!(acted_whole.sum, acted_parts.sum);
    assert_eq!(acted_whole.sum, 2 + 5 + 10 + 10);
}

#[test]
fn rev_add_num_composition_wraps() {
    let a = AddRev { add: u64::MAX, rev: true };
    let b = AddRev { add: 2, rev: true };
    let ab = <RevAddNum as Data>::compose(a, b);
    assert_eq!(ab.add, 1);
    assert!(!ab.rev);
    assert_eq!(<RevAddNum as Data>::act_value(ab, 7), 8);
    let id = <RevAddNum as Data>::id_action();
    assert_eq!(<RevAddNum as Data>::act_value(id, 7), 7);
    assert!(!<RevAddNum as Data>::to_reverse(id));
}

#[test]
fn rev_add_num_acting_on_summaries_wraps() {
    let s = AddSummary { size: 2, sum: 10 };
    let a = AddRev { add: u64::MAX, rev: false };
    let acted = <RevAddNum as Data>::act_summary(a, s);
    // 10 + 2 * (2^64 - 1) wraps to 8
    assert_eq!(acted.sum, 8);
    assert_eq!(acted.size, 2);
}

#[test]
fn reversal_action_is_pure() {
    let a = <RevAddNum as Reverse>::reversal_action();
    assert!(<RevAddNum as Data>::to_reverse(a));
    assert_eq!(<RevAddNum as Data>::act_value(a, 42), 42);
    let s = AddSummary { size: 3, sum: 9 };
    let s2 = <RevAddNum as Data>::act_summary(a, s);
    assert_eq!(s2.size, 3);
    assert_eq!(s2.sum, 9);
}

#[test]
fn sizes_count_values() {
    assert_eq!(<StdNum as SizedData>::size_of(<StdNum as Data>::empty_summary()), 0);
    assert_eq!(<StdNum as SizedData>::size_of(<StdNum as Data>::summarize(11)), 1);
    assert_eq!(<RevAddNum as SizedData>::size_of(<RevAddNum as Data>::summarize(11)), 1);
}
