use credit_portfolio_model::chunks::{chunks_from_draws, num_chunks, plan_chunks, stream_id};
use rand::{Rng, SeedableRng};

#[test]
fn chunk_count_rounds_up() {
    assert_eq!(num_chunks(10, 3), 4);
    assert_eq!(num_chunks(9, 3), 3);
    assert_eq!(num_chunks(0, 5), 0);
    assert_eq!(num_chunks(1, 10_000), 1);
    assert_eq!(num_chunks(usize::MAX, 2), usize::MAX / 2 + 1);
}

#[test]
fn stream_id_is_shifted_and_odd() {
    assert_eq!(stream_id(0), 1);
    assert_eq!(stream_id(5), 11);
    assert_eq!(stream_id(u128::MAX), u128::MAX - 1 | 1);
    assert_eq!(stream_id(1u128 << 127), 1);
}

#[test]
fn chunks_cover_trials_in_order() {
    let plan = plan_chunks(10, 3, 7);
    let bounds: Vec<(usize, usize)> = plan.iter().map(|c| (c.start, c.end)).collect();
    assert_eq!(bounds, vec![(0, 3), (3, 6), (6, 9), (9, 10)]);
    assert!(plan.iter().all(|c| c.stream % 2 == 1));
}

#[test]
fn no_trials_no_chunks() {
    assert!(plan_chunks(0, 4, 1).is_empty());
}

#[test]
fn same_seed_same_streams() {
    let a: Vec<u128> = plan_chunks(100, 7, 42).iter().map(|c| c.stream).collect();
    let b: Vec<u128> = plan_chunks(100, 7, 42).iter().map(|c| c.stream).collect();
    assert_eq!(a, b);
    let c: Vec<u128> = plan_chunks(100, 7, 43).iter().map(|c| c.stream).collect();
    assert_ne!(a, c);
}

#[test]
fn streams_do_not_depend_on_trial_count() {
    // chunk k always gets the k-th draw of the base generator
    let short: Vec<u128> = plan_chunks(20, 5, 3).iter().map(|c| c.stream).collect();
    let long: Vec<u128> = plan_chunks(50, 5, 3).iter().map(|c| c.stream).collect();
    assert_eq!(short[..], long[..short.len()]);
}

#[test]
fn streams_come_from_the_seeded_generator() {
    let mut base = rand_pcg::Pcg64::seed_from_u64(0);
    let expected: Vec<u128> = (0..3).map(|_| (base.gen::<u128>() << 1) | 1).collect();
    let got: Vec<u128> = plan_chunks(25, 10, 0).iter().map(|c| c.stream).collect();
    assert_eq!(got, expected);
}

#[test]
fn chunks_take_streams_from_draws() {
    let chunks = chunks_from_draws(7, 4, &[3, 10]);
    assert_eq!(chunks.len(), 2);
    assert_eq!((chunks[0].start, chunks[0].end, chunks[0].stream), (0, 4, 7));
    assert_eq!((chunks[1].start, chunks[1].end, chunks[1].stream), (4, 7, 21));
}
