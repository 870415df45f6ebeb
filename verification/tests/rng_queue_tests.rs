use falcon::piece::Mino;
use falcon::queue::{Bag, Queue};
use falcon::draw::scaled_draw;
use falcon::rng::RNG;

/// The shuffle as the engine's float formula computes it.
fn float_shuffle(seed: u64, mut items: Vec<u32>) -> (Vec<u32>, u64) {
    let mut s = seed;
    for i in (1..items.len()).rev() {
        s = (16807 * s) % 2147483647;
        let f = (s - 1) as f64 / 2147483646u64 as f64;
        let r = (f * (i + 1) as f64) as usize;
        items.swap(i, r);
    }
    (items, s)
}

#[test]
fn rng_seed_zero_becomes_max_float() {
    let r = RNG::new(0);
    assert_eq!(r.seed, 2147483646);
    assert_eq!(r.index, 0);
    let r2 = RNG::new(2147483647 * 3);
    assert_eq!(r2.seed, 2147483646);
    let r3 = RNG::new(2147483648);
    assert_eq!(r3.seed, 1);
}

#[test]
fn rng_minimal_standard_sequence() {
    let mut r = RNG::new(1);
    assert_eq!(r.next(), 16807);
    assert_eq!(r.next(), 282475249);
    assert_eq!(r.next(), 1622650073);
    assert_eq!(r.next(), 984943658);
    assert_eq!(r.index, 4);
    let mut z = RNG::new(0);
    assert_eq!(z.next(), 2147466840);
}

#[test]
fn rng_set_seed_keeps_index() {
    let mut r = RNG::new(5);
    r.next();
    r.set_seed(4294967294);
    assert_eq!(r.seed, 2147483646);
    assert_eq!(r.index, 1);
    r.set_seed(10);
    assert_eq!(r.seed, 10);
}

#[test]
fn rng_shuffle_matches_float_formula() {
    for seed in [1u64, 2, 3, 12345, 987654321, 2147483646, 424242, 7, 99999, 2000000000] {
        for n in (0..40u32).chain([64, 100, 257, 300]) {
            let items: Vec<u32> = (0..n).collect();
            let (expected, s) = float_shuffle(RNG::new(seed).seed, items.clone());
            let mut r = RNG::new(seed);
            let got = r.shuffle(items.clone());
            assert_eq!(got, expected, "seed {} n {}", seed, n);
            if n > 1 {
                assert_eq!(r.seed, s);
                assert_eq!(r.index, (n - 1) as usize);
            }
            let mut sorted = got.clone();
            sorted.sort();
            assert_eq!(sorted, items);
        }
    }
}

#[test]
fn scaled_draw_rounds_as_a_double_does() {
    // At position 21 of 22 the draw 1464193396 lands on 14: the exact
    // quotient would give 15, the doubles round it down.
    assert_eq!(scaled_draw(1464193396, 21), 14);
    let mut s: u64 = 1;
    let lengths: [usize; 12] = [1, 2, 6, 21, 22, 99, 1000, 65535, 1 << 31, 1 << 40, (1 << 53) + 1, usize::MAX];
    for _ in 0..20000 {
        s = (16807 * s) % 2147483647;
        for &i in lengths.iter() {
            let f = (s - 1) as f64 / 2147483646u64 as f64;
            let want = (f * (i as u128 + 1) as f64) as usize;
            assert_eq!(scaled_draw(s, i), want, "draw {} position {}", s, i);
        }
    }
    assert_eq!(scaled_draw(1, 1000), 0);
    assert_eq!(scaled_draw(2147483646, 6), 6);
}

#[test]
fn rng_shuffle_of_short_lists_draws_nothing() {
    let mut r = RNG::new(77);
    assert_eq!(r.shuffle(Vec::<u8>::new()), Vec::<u8>::new());
    assert_eq!(r.shuffle(vec![9u8]), vec![9u8]);
    assert_eq!(r.index, 0);
    assert_eq!(r.seed, 77);
}

fn code(m: Mino) -> u8 {
    match m {
        Mino::Z => 0,
        Mino::L => 1,
        Mino::O => 2,
        Mino::S => 3,
        Mino::I => 4,
        Mino::J => 5,
        Mino::T => 6,
    }
}

#[test]
fn bag_cycle_lists_each_mino_once() {
    let c = Bag::Bag7.get_cycle();
    assert_eq!(c, vec![Mino::Z, Mino::L, Mino::O, Mino::S, Mino::I, Mino::J, Mino::T]);
}

#[test]
fn queue_fills_with_shuffled_bags() {
    let q = Queue::new(Bag::Bag7, 12345, 32, Vec::new());
    assert_eq!(q.queue.len(), 35);
    assert_eq!(q.rng.index, 30);
    let items: Vec<Mino> = q.queue.iter().copied().collect();
    for bag in items.chunks(7) {
        let mut codes: Vec<u8> = bag.iter().map(|m| code(*m)).collect();
        codes.sort();
        assert_eq!(codes, vec![0, 1, 2, 3, 4, 5, 6]);
    }
    // the first bag is the float-formula shuffle of the cycle
    let (first, _) = float_shuffle(RNG::new(12345).seed, (0..7).collect());
    let cycle = Bag::Bag7.get_cycle();
    let expected: Vec<Mino> = first.iter().map(|i| cycle[*i as usize]).collect();
    assert_eq!(&items[0..7], &expected[..]);
}

#[test]
fn queue_keeps_initial_pieces_in_front() {
    let q = Queue::new(Bag::Bag7, 1, 32, vec![Mino::T, Mino::I]);
    assert_eq!(q.queue[0], Mino::T);
    assert_eq!(q.queue[1], Mino::I);
    assert_eq!(q.queue.len(), 37);
}

#[test]
fn queue_shift_takes_front_and_refills() {
    let mut q = Queue::new(Bag::Bag7, 99, 32, Vec::new());
    let front = q.queue[0];
    let second = q.queue[1];
    for _ in 0..3 {
        q.shift();
    }
    assert_eq!(q.queue.len(), 32);
    let mut q2 = Queue::new(Bag::Bag7, 99, 32, Vec::new());
    assert_eq!(q2.shift(), front);
    assert_eq!(q2.shift(), second);
    q2.shift();
    q2.shift();
    assert_eq!(q2.queue.len(), 38);
}

#[test]
fn queue_front_32() {
    let q = Queue::new(Bag::Bag7, 3, 32, Vec::new());
    let f = q.get_front_32();
    for i in 0..32 {
        assert_eq!(f[i], q.queue[i]);
    }
}

#[test]
fn every_bag_holds_each_mino_once() {
    for seed in [0u64, 1, 99, 4242, 2147483646, 18446744073709551615] {
        let mut q = Queue::new(Bag::Bag7, seed, 32, Vec::new());
        for _ in 0..5 {
            let mut seen = [0u8; 7];
            for _ in 0..7 {
                seen[code(q.shift()) as usize] += 1;
            }
            assert_eq!(seen, [1u8; 7], "seed {}", seed);
        }
    }
}

#[test]
fn reseeding_never_reaches_zero() {
    let mut r = RNG::new(0);
    for v in [0u64, 2147483647, 4294967294, 2147483646, 1, 18446744073709551615] {
        r.set_seed(v);
        assert!(r.seed > 0 && r.seed < 2147483647);
        for _ in 0..1000 {
            let s = r.next();
            assert!(s > 0 && s < 2147483647);
        }
    }
}
