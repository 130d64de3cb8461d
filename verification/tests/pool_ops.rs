use simple_parallel::{JobHandle, Pool, PoolError};

fn collect_map(pool: &mut Pool, v: Vec<u64>) -> Vec<u64> {
    let mut m = pool.map(v, |x: u64| Some(x + 10)).unwrap();
    let mut out = Vec::new();
    while let Some(x) = m.next().unwrap() {
        out.push(x);
    }
    out
}

#[test]
fn map_adds_ten_in_order() {
    let mut pool = Pool::new(4).unwrap();
    let v: Vec<u64> = (0..8).collect();
    let out = collect_map(&mut pool, v);
    assert_eq!(out, vec![10, 11, 12, 13, 14, 15, 16, 17]);
}

#[test]
fn map_all_worker_counts_and_sizes() {
    for workers in [1usize, 2, 4, 8] {
        for n in [0u64, 1, 7, 100] {
            let mut pool = Pool::new(workers).unwrap();
            let v: Vec<u64> = (0..n).collect();
            let expect: Vec<u64> = (10..n + 10).collect();
            assert_eq!(collect_map(&mut pool, v), expect);
        }
    }
}

#[test]
fn map_is_deterministic_across_repeats() {
    let mut pool = Pool::new(4).unwrap();
    let v: Vec<u64> = (0..50).collect();
    let first = collect_map(&mut pool, v.clone());
    for _ in 0..5 {
        assert_eq!(collect_map(&mut pool, v.clone()), first);
    }
}

#[test]
fn for_sets_every_element() {
    let mut pool = Pool::new(4).unwrap();
    let mut v = vec![0i64; 8];
    pool.for_(&mut v, |_e: i64| Some(3)).unwrap();
    assert_eq!(v, vec![3; 8]);
}

#[test]
fn for_applies_exactly_once_per_element() {
    let mut pool = Pool::new(3).unwrap();
    let mut v: Vec<u32> = (1..=17).collect();
    pool.for_(&mut v, |x: u32| Some(x * 2)).unwrap();
    let expect: Vec<u32> = (1..=17).map(|x| x * 2).collect();
    assert_eq!(v, expect);
}

#[test]
fn unordered_map_yields_exactly_the_indexed_results() {
    let mut pool = Pool::new(4).unwrap();
    let v: Vec<u64> = vec![5, 1, 9, 2, 8, 0];
    let mut m = pool.unordered_map(v.clone(), |x: u64| Some(x * x)).unwrap();
    let mut got: Vec<(usize, u64)> = Vec::new();
    while let Some(pair) = m.next().unwrap() {
        got.push(pair);
    }
    got.sort();
    let expect: Vec<(usize, u64)> = v.iter().enumerate().map(|(i, x)| (i, x * x)).collect();
    assert_eq!(got, expect);
}

#[test]
fn empty_input_empty_output_for_all_operations() {
    let mut pool = Pool::new(2).unwrap();

    let mut v: Vec<u8> = Vec::new();
    pool.for_(&mut v, |x: u8| Some(x)).unwrap();
    assert!(v.is_empty());

    let mut um = pool.unordered_map(Vec::<u8>::new(), |x: u8| Some(x)).unwrap();
    assert_eq!(um.next(), Ok(None));

    let mut m = pool.map(Vec::<u8>::new(), |x: u8| Some(x)).unwrap();
    assert_eq!(m.next(), Ok(None));
}

#[test]
fn single_worker_is_still_correct() {
    let mut pool = Pool::new(1).unwrap();
    let v: Vec<u64> = (0..20).collect();
    let expect: Vec<u64> = (10..30).collect();
    assert_eq!(collect_map(&mut pool, v), expect);
}

#[test]
fn zero_workers_is_a_configuration_error() {
    assert_eq!(Pool::new(0).err(), Some(PoolError::Configuration));
}

#[test]
fn map_failure_is_reported_at_the_failed_position() {
    let mut pool = Pool::new(4).unwrap();
    let v: Vec<u64> = (0..6).collect();
    let mut m = pool
        .map(v, |x: u64| if x == 3 { None } else { Some(x + 10) })
        .unwrap();
    assert_eq!(m.next(), Ok(Some(10)));
    assert_eq!(m.next(), Ok(Some(11)));
    assert_eq!(m.next(), Ok(Some(12)));
    assert_eq!(m.next(), Err(PoolError::ElementFailure));
}

#[test]
fn for_failure_keeps_the_processed_prefix() {
    let mut pool = Pool::new(4).unwrap();
    let mut v: Vec<u64> = vec![1, 2, 3, 4];
    let r = pool.for_(&mut v, |x: u64| if x == 3 { None } else { Some(x * 10) });
    assert_eq!(r, Err(PoolError::ElementFailure));
    assert_eq!(v, vec![10, 20]);
}

#[test]
fn failed_pool_is_poisoned_for_further_batches() {
    let mut pool = Pool::new(2).unwrap();
    let mut v: Vec<u64> = vec![7];
    let r = pool.for_(&mut v, |_x: u64| None::<u64>);
    assert_eq!(r, Err(PoolError::ElementFailure));

    let mut w: Vec<u64> = vec![1, 2];
    assert_eq!(pool.for_(&mut w, |x: u64| Some(x)), Err(PoolError::Poisoned));
    assert_eq!(w, vec![1, 2]);
    assert!(pool.map(vec![1u64], |x: u64| Some(x)).is_err());
    assert!(pool.unordered_map(vec![1u64], |x: u64| Some(x)).is_err());
}

#[test]
fn unordered_map_failure_surfaces_on_the_sentinel_packet() {
    let mut pool = Pool::new(4).unwrap();
    let v: Vec<u64> = (0..5).collect();
    let mut m = pool
        .unordered_map(v, |x: u64| if x == 2 { None } else { Some(x) })
        .unwrap();
    let mut saw_failure = false;
    loop {
        match m.next() {
            Ok(Some(_)) => {},
            Ok(None) => break,
            Err(e) => {
                assert_eq!(e, PoolError::ElementFailure);
                saw_failure = true;
                break;
            },
        }
    }
    assert!(saw_failure);
}

#[test]
fn exhausted_streams_stay_finished() {
    let mut pool = Pool::new(2).unwrap();
    let mut m = pool.map(vec![1u64], |x: u64| Some(x)).unwrap();
    assert_eq!(m.next(), Ok(Some(1)));
    assert_eq!(m.next(), Ok(None));
    assert_eq!(m.next(), Ok(None));
}

#[test]
fn job_handle_reports_the_outcome() {
    assert_eq!(JobHandle::new(false).wait(), Ok(()));
    assert_eq!(JobHandle::new(true).wait(), Err(PoolError::ElementFailure));
}

#[test]
fn thousand_pools_created_and_released() {
    for _ in 0..1000 {
        let mut pool = Pool::new(4).unwrap();
        let v: Vec<u64> = (0..4).collect();
        let out = collect_map(&mut pool, v);
        assert_eq!(out, vec![10, 11, 12, 13]);
    }
}
