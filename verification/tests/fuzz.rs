use std::time::{Duration, Instant};

use zhensegg::fuzz::corpus::{budget_of, goes_on, round_goes_on, run_bounded, Fuzzer};
use zhensegg::fuzz::flood::{
    flood_bytes, flood_frame, flood_of_draw, flood_threads, random_flood, Flood,
};
use zhensegg::fuzz::generate::{
    hostile_seeds, op_of_draw, overlay_locator, push_frame, rand_op, seed_corpus,
};
use zhensegg::fuzz::mutate::{apply, length_of_draw, mutate, Mutation};
use zhensegg::fuzz::signature::{consider, mutate_and_run, sig_of, SigSet};
use zhensegg::protocol::{encode_fetch, encode_publish, encode_subscribe, Op, Parser};

#[test]
fn parser_fuzz_smoke_no_crash() {
    let seeds = seed_corpus();
    let deadline = Instant::now() + Duration::from_secs(1);
    let mut remaining = 120_000u64;
    while remaining > 0 && Instant::now() < deadline {
        let budget = 2000.min(remaining);
        let stats = run_bounded(seeds.clone(), budget);
        assert!(stats.iterations <= budget && 2 * stats.iterations >= budget);
        assert!(stats.corpus >= 60 && stats.unique_sigs > 1);
        remaining -= budget;
    }
}

#[test]
fn runs_keep_what_they_find() {
    let mut a = Vec::new();
    encode_publish(&mut a, b"abc", b"de");
    let mut b = Vec::new();
    encode_subscribe(&mut b, b"abc");
    let stats = run_bounded(vec![a.clone(), b, a], 500);
    assert!(stats.unique_sigs >= 2);
    assert!(stats.corpus >= 3);
    let found = stats.unique_sigs as u64 - 2;
    assert!(stats.iterations + found >= 500);
    assert!(stats.corpus as u64 <= 3 + found);
}

#[test]
fn runs_end_by_time_or_by_budget() {
    assert!(goes_on(1, 999, 1) && !goes_on(1, 1000, 1) && !goes_on(1, 0, 0));
    assert!(goes_on(0, u64::MAX, 1));
    assert!(goes_on(u64::MAX, u64::MAX, 1));
    assert!(round_goes_on(255, 0, 0, 1) && !round_goes_on(256, 0, 0, 1));
    assert_eq!(budget_of(0, None), None);
    assert_eq!(budget_of(3, None), Some(u64::MAX));
    assert_eq!(budget_of(0, Some(7)), Some(7));
    assert_eq!(budget_of(0, Some(u64::MAX)), None);
    assert_eq!(budget_of(1, Some(u64::MAX)), Some(u64::MAX));
}

#[test]
fn seeds_are_valid_streams_and_hostile_frames() {
    let seeds = seed_corpus();
    assert_eq!(seeds.len(), 60);
    for s in &seeds[..48] {
        let mut p = Parser::new(1024);
        p.feed(s);
        let mut n = 0;
        p.drain(|_| n += 1);
        assert!((1..=8).contains(&n));
        assert_eq!(p.buffered(), 0);
    }
    assert_eq!(seeds[48..].to_vec(), hostile_seeds());
    for s in hostile_seeds() {
        assert!(sig_of(&s).is_empty());
    }
}

#[test]
fn random_frames_vary() {
    let mut a = Vec::new();
    let mut b = Vec::new();
    for _ in 0..20 {
        push_frame(&mut a);
        push_frame(&mut b);
    }
    assert_ne!(a, b);
    assert_eq!(sig_of(&a).len(), 20);
    let first = rand_op();
    assert!((0..1000).any(|_| rand_op() != first));
}

#[test]
fn draws_choose_operations() {
    assert_eq!(op_of_draw(true, 9, 0), Op::Error);
    assert_eq!(op_of_draw(true, 77, 0), Op::Ping);
    let all: Vec<Op> = (0..8).map(|i| op_of_draw(false, 0, i)).collect();
    assert_eq!(
        all,
        vec![Op::Publish, Op::Subscribe, Op::Fetch, Op::Ping, Op::Ack, Op::Notify, Op::Data, Op::Auth]
    );
    let p = overlay_locator(&vec![255; 14], 1, 2);
    assert_eq!(p, vec![0, 0, 0, 0, 0, 0, 0, 1, 0, 0, 0, 2, 255, 255]);
}

#[test]
fn mutations_do_what_they_say() {
    let run = |m: Mutation| {
        let mut v = vec![1, 2, 3, 4, 5];
        apply(&mut v, m);
        v
    };
    assert_eq!(run(Mutation::Nothing), vec![1, 2, 3, 4, 5]);
    assert_eq!(run(Mutation::Flip { at: 1, bit: 7 }), vec![1, 130, 3, 4, 5]);
    assert_eq!(run(Mutation::Insert { at: 5, byte: 9 }), vec![1, 2, 3, 4, 5, 9]);
    assert_eq!(run(Mutation::Remove { at: 0 }), vec![2, 3, 4, 5]);
    assert_eq!(run(Mutation::SetLength { at: 1, value: 0x0a0b0c0d }), vec![1, 10, 11, 12, 13]);
    assert_eq!(
        run(Mutation::Repeat { from: 3, n: 2, at: 1, times: 2 }),
        vec![1, 4, 5, 4, 5, 2, 3, 4, 5]
    );
}

#[test]
fn random_mutations_change_something() {
    let start = vec![0u8; 40];
    let mut changed = 0;
    for _ in 0..200 {
        let mut v = start.clone();
        mutate(&mut v);
        if v != start {
            changed += 1;
        }
    }
    assert!(changed > 100);
    let mut empty = Vec::new();
    for _ in 0..50 {
        mutate(&mut empty);
    }
}

#[test]
fn signatures_name_the_frames() {
    let mut s = Vec::new();
    encode_publish(&mut s, b"abc", b"de");
    encode_subscribe(&mut s, b"x");
    s.extend_from_slice(&[0, 0]);
    assert_eq!(sig_of(&s), vec![(1, 3, 2), (2, 1, 0)]);
    let mut seen = SigSet::new();
    let mut budget = 1;
    assert_eq!(consider(s.clone(), &mut seen, &mut budget), s);
    assert_eq!(budget, 0);
    assert_eq!(consider(s.clone(), &mut seen, &mut budget), Vec::<u8>::new());
    assert_eq!(budget, 0);
    assert_eq!(seen.len(), 1);
    let mut budget = 10;
    mutate_and_run(&s, &mut seen, &mut budget);
    assert_eq!(budget, 9);
}

#[test]
fn kept_inputs_join_the_corpus() {
    let mut f = Fuzzer::new(vec![vec![1], vec![2]], vec![vec![3]], 5);
    assert_eq!(f.corpus_len(), 3);
    assert_eq!(f.round_input(), vec![1]);
    assert_eq!(f.settle(vec![]), None);
    assert_eq!((f.budget(), f.iterations()), (4, 1));
    assert_eq!(f.round_input(), vec![2]);
    let mut s = Vec::new();
    encode_publish(&mut s, b"t", b"p");
    assert_eq!(f.settle(s.clone()), Some((0, s.clone())));
    assert_eq!((f.budget(), f.iterations(), f.corpus_len()), (2, 2, 4));
    assert_eq!(f.settle(s.clone()), Some((1, s)));
    assert_eq!(f.budget(), 0);
    for _ in 0..9000 {
        f.settle(vec![1]);
    }
    assert!(f.corpus_len() <= 8192 && f.corpus_len() > 7600);
}

#[test]
fn floods_are_made_of_frames_and_noise() {
    let publish = flood_frame(flood_of_draw(34, 12, 3, 0, 0));
    let mut expected = Vec::new();
    encode_publish(&mut expected, b"topic12", b"xxx");
    assert_eq!(publish, expected);
    let mut expected = Vec::new();
    encode_subscribe(&mut expected, b"topic7.sub");
    assert_eq!(flood_frame(flood_of_draw(35, 7, 0, 0, 0)), expected);
    let mut expected = Vec::new();
    encode_fetch(&mut expected, b"topic0", 99, 5);
    assert_eq!(flood_frame(flood_of_draw(61, 7, 5, 0, 99)), expected);
    assert_eq!(flood_frame(flood_of_draw(62, 0, 3, 8, 0)), vec![8, 8, 8]);
    assert_eq!(flood_frame(Flood::Phantom { claimed: 258, byte: 1 }), vec![0, 0, 1, 2, 1, 1, 1, 1]);
    assert_eq!(flood_frame(flood_of_draw(99, 0, 0, 5, 8)), vec![0, 0, 0, 8, 5, 5]);
    for _ in 0..500 {
        assert!(flood_frame(random_flood()).len() < 128);
    }
    assert_eq!(flood_bytes(0), 100_000);
    assert_eq!(flood_bytes(3), 600_000);
    assert_eq!(flood_bytes(u64::MAX), usize::MAX);
    assert_eq!((flood_threads(0), flood_threads(5)), (1, 5));
}

#[test]
fn lengths_follow_their_draws() {
    assert_eq!(length_of_draw(0, 7), 0);
    assert_eq!(length_of_draw(1, 7), 1);
    assert_eq!(length_of_draw(2, 99), 99);
    assert_eq!(length_of_draw(3, 16_777_215), 16_777_215);
    assert_eq!(length_of_draw(4, 7), u32::MAX);
}
