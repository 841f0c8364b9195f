use dscale::combiner::Combiner;

#[test]
fn quorum_collector_hands_out_on_the_third_value() {
    let mut combiner: Combiner<char> = Combiner::new(3);
    assert!(combiner.combine('A').is_none());
    assert!(combiner.combine('B').is_none());
    {
        let all = combiner.combine('C');
        assert_eq!(all, Some(&['A', 'B', 'C'][..]));
    }
    assert!(combiner.combine('D').is_none());
    assert!(combiner.combine('E').is_none());
}

#[test]
fn threshold_of_one_completes_at_once() {
    let mut combiner: Combiner<u32> = Combiner::new(1);
    assert_eq!(combiner.combine(7), Some(&[7u32][..]));
    assert!(combiner.combine(8).is_none());
}

#[test]
fn unit_values_count_votes() {
    let mut combiner: Combiner<()> = Combiner::new(2);
    assert!(combiner.combine(()).is_none());
    assert_eq!(combiner.combine(()).map(|all| all.len()), Some(2));
    assert!(combiner.combine(()).is_none());
}
