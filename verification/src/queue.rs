use vstd::prelude::*;
use std::collections::VecDeque;
use crate::piece::Mino;
use crate::rng::{RNG, lcg_iter, seed_from, seed_ok, shuffle_from, lemma_shuffle_from_len};

verus! {

/// The randomizer that fills the queue.
#[derive(Clone, Copy, Debug)]
pub enum Bag {
    /// Each group of seven pieces is one of each mino, shuffled.
    Bag7,
}

/// The seven minos in the order a fresh bag lists them.
pub open spec fn bag7_cycle() -> Seq<Mino> {
    seq![Mino::Z, Mino::L, Mino::O, Mino::S, Mino::I, Mino::J, Mino::T]
}

impl Bag {
    pub open spec fn cycle(&self) -> Seq<Mino> {
        match self {
            Bag::Bag7 => bag7_cycle(),
        }
    }

    /// The pieces of one bag before shuffling.
    pub fn get_cycle(&self) -> (r: Vec<Mino>)
        ensures
            r@ == self.cycle(),
    {
        match self {
            Bag::Bag7 => {
                let r = vec![Mino::Z, Mino::L, Mino::O, Mino::S, Mino::I, Mino::J, Mino::T];
                assert(r@ =~= bag7_cycle());
                r
            },
        }
    }
}

/// The bag that the generator `rng` shuffles next.
#[verifier::opaque]
pub open spec fn next_bag(rng: RNG) -> Seq<Mino> {
    shuffle_from(bag7_cycle(), rng.seed, 6)
}

pub proof fn lemma_next_bag_len(rng: RNG)
    ensures
        next_bag(rng).len() == 7,
{
    reveal(next_bag);
    lemma_shuffle_from_len(bag7_cycle(), rng.seed, 6);
}

/// The generator after one bag has been shuffled with it.
pub open spec fn after_bag(rng: RNG) -> RNG {
    RNG { seed: lcg_iter(rng.seed, 6), index: (rng.index + 6) as usize }
}

/// The queue `q` topped up with shuffled bags until it holds `min_size`
/// pieces, and the generator afterwards.
pub open spec fn refill(q: Seq<Mino>, rng: RNG, min_size: int) -> (Seq<Mino>, RNG)
    decreases if min_size > q.len() { min_size - q.len() } else { 0 },
{
    if q.len() >= min_size {
        (q, rng)
    } else {
        proof {
            lemma_next_bag_len(rng);
        }
        refill(q + next_bag(rng), after_bag(rng), min_size)
    }
}

/// The upcoming pieces, kept at least `min_size` long.
#[derive(Clone)]
pub struct Queue {
    pub bag: Bag,
    pub rng: RNG,
    pub min_size: usize,
    pub queue: VecDeque<Mino>,
}

impl Queue {
    /// The generator can draw the bags that keep the queue filled.
    pub open spec fn can_refill(&self) -> bool {
        &&& seed_ok(self.rng.seed)
        &&& self.rng.index + self.min_size + 7 <= usize::MAX
    }

    fn top_up(&mut self)
        requires
            old(self).queue@.len() < old(self).min_size ==> old(self).can_refill(),
        ensures
            (final(self).queue@, final(self).rng) == refill(old(self).queue@, old(self).rng, old(self).min_size as int),
            final(self).queue@.len() >= final(self).min_size,
            old(self).queue@.len() < old(self).min_size ==> seed_ok(final(self).rng.seed),
            final(self).bag == old(self).bag,
            final(self).min_size == old(self).min_size,
            final(self).rng.index <= old(self).rng.index + (if old(self).queue@.len() < old(self).min_size {
                old(self).min_size - old(self).queue@.len() + 6
            } else {
                0
            }),
    {
        if self.queue.len() >= self.min_size {
            return;
        }
        let ghost target = refill(self.queue@, self.rng, self.min_size as int);
        while self.queue.len() < self.min_size
            invariant
                seed_ok(self.rng.seed),
                self.queue@.len() < self.min_size ==> self.rng.index + self.min_size - self.queue@.len() + 7 <= usize::MAX,
                self.rng.index - old(self).rng.index <= self.queue@.len() - old(self).queue@.len(),
                self.queue@.len() >= old(self).queue@.len(),
                old(self).queue@.len() < old(self).min_size || self.queue@.len() == old(self).queue@.len(),
                self.queue@.len() <= (if old(self).queue@.len() < old(self).min_size { old(self).min_size + 6 } else { old(self).queue@.len() as int }),
                refill(self.queue@, self.rng, self.min_size as int) == target,
                self.bag == old(self).bag,
                self.min_size == old(self).min_size,
            decreases if self.min_size > self.queue@.len() { self.min_size - self.queue@.len() } else { 0 },
        {
            let cycle = self.bag.get_cycle();
            let ghost pre = self.queue@;
            let ghost rng0 = self.rng;
            let shuffled = self.rng.shuffle(cycle);
            let mut i: usize = 0;
            while i < shuffled.len()
                invariant
                    i <= shuffled.len(),
                    shuffled.len() == 7,
                    self.queue@ == pre + shuffled@.take(i as int),
                    self.rng == after_bag(rng0),
                    self.bag == old(self).bag,
                    self.min_size == old(self).min_size,
                decreases shuffled.len() - i,
            {
                self.queue.push_back(shuffled[i]);
                assert(self.queue@ =~= pre + shuffled@.take(i + 1));
                i += 1;
            }
            assert(shuffled@.take(7) =~= shuffled@);
            proof {
                reveal(next_bag);
                assert(shuffled@ == next_bag(rng0));
                lemma_next_bag_len(rng0);
            }
        }
    }

    /// A queue with `initial` at the front, topped up with bags shuffled by a
    /// generator seeded with `seed` until it holds `min_size` pieces.
    pub fn new(bag: Bag, seed: u64, min_size: usize, initial: Vec<Mino>) -> (q: Queue)
        requires
            min_size >= 32,
            min_size + 7 <= usize::MAX,
        ensures
            (q.queue@, q.rng) == refill(initial@, RNG { seed: seed_from(seed), index: 0 }, min_size as int),
            q.queue@.len() >= min_size,
            q.min_size == min_size,
            seed_ok(q.rng.seed),
            q.rng.index <= min_size + 6,
            q.bag == bag,
    {
        let rng = RNG::new(seed);
        let mut queue: VecDeque<Mino> = VecDeque::with_capacity(min_size + 7);
        let mut i: usize = 0;
        while i < initial.len()
            invariant
                i <= initial.len(),
                queue@ == initial@.take(i as int),
            decreases initial.len() - i,
        {
            queue.push_back(initial[i]);
            assert(queue@ =~= initial@.take(i + 1));
            i += 1;
        }
        assert(initial@.take(initial.len() as int) =~= initial@);
        let mut q = Queue { bag, rng, min_size, queue };
        q.top_up();
        q
    }

    /// Takes the front piece and tops the queue up again (drawing from the
    /// generator only when the queue fell below its minimum size).
    pub fn shift(&mut self) -> (m: Mino)
        requires
            old(self).queue@.len() > 0,
            old(self).queue@.len() - 1 < old(self).min_size ==> old(self).can_refill(),
        ensures
            m == old(self).queue@[0],
            (final(self).queue@, final(self).rng) == refill(
                old(self).queue@.drop_first(),
                old(self).rng,
                old(self).min_size as int,
            ),
            final(self).queue@.len() >= final(self).min_size,
            final(self).min_size == old(self).min_size,
            final(self).bag == old(self).bag,
            old(self).queue@.len() - 1 < old(self).min_size ==> seed_ok(final(self).rng.seed),
            old(self).queue@.len() - 1 >= old(self).min_size ==> final(self).rng == old(self).rng,
            final(self).rng.index <= old(self).rng.index + old(self).min_size + 6,
    {
        let res = self.queue.pop_front().unwrap();
        assert(self.queue@ =~= old(self).queue@.drop_first());
        self.top_up();
        res
    }

    /// The first 32 pieces, padded with I pieces if the queue is shorter.
    pub fn get_front_32(&self) -> (r: [Mino; 32])
        ensures
            forall|i: int| 0 <= i < 32 ==> #[trigger] r[i] == if i < self.queue@.len() { self.queue@[i] } else { Mino::I },
    {
        let mut res = [Mino::I; 32];
        let mut i: usize = 0;
        while i < 32
            invariant
                i <= 32,
                forall|j: int| 0 <= j < i ==> #[trigger] res[j] == if j < self.queue@.len() { self.queue@[j] } else { Mino::I },
            decreases 32 - i,
        {
            res[i] = if i < self.queue.len() { self.queue[i] } else { Mino::I };
            i += 1;
        }
        res
    }
}

} // verus!
