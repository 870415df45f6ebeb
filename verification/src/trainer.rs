use vstd::prelude::*;

verus! {

/// Where the garbage goes after both players of a training match placed a
/// piece: the one who sent less receives the difference.
#[derive(Debug, Clone, Copy, PartialEq, Eq, Structural)]
pub enum Exchange {
    /// The first player receives this many rows.
    ToFirst(u8),
    /// The second player receives this many rows.
    ToSecond(u8),
    /// Both sent the same; nobody receives anything.
    Even,
}

/// Settles the attacks `send1` and `send2` of one round of a training
/// match; the difference is cut to a byte.
pub fn exchange(send1: u16, send2: u16) -> (r: Exchange)
    ensures
        send1 > send2 ==> r == Exchange::ToSecond((send1 - send2) as u8),
        send2 > send1 ==> r == Exchange::ToFirst((send2 - send1) as u8),
        send1 == send2 ==> r == Exchange::Even,
{
    if send1 > send2 {
        Exchange::ToSecond(#[verifier::truncate] ((send1 - send2) as u8))
    } else if send2 > send1 {
        Exchange::ToFirst(#[verifier::truncate] ((send2 - send1) as u8))
    } else {
        Exchange::Even
    }
}

/// The pairs `(i, j)` with `i` from `from` up and `i < j < n`, row by row.
pub open spec fn pairs_from(n: int, from: int) -> Seq<(usize, usize)>
    decreases n - from,
{
    if from >= n {
        Seq::empty()
    } else {
        Seq::new((n - from - 1) as nat, |k: int| (from as usize, (from + 1 + k) as usize)) + pairs_from(n, from + 1)
    }
}

/// Every pairing of `n` players, each pair once, the lower index first, in
/// order of the first index and then the second.
pub fn match_pairs(n: usize) -> (r: Vec<(usize, usize)>)
    ensures
        r@ == pairs_from(n as int, 0),
{
    let mut r: Vec<(usize, usize)> = Vec::new();
    let mut i: usize = 0;
    while i < n
        invariant
            i <= n,
            r@ + pairs_from(n as int, i as int) == pairs_from(n as int, 0),
        decreases n - i,
    {
        let ghost before = r@;
        let mut j: usize = i + 1;
        while j < n
            invariant
                i < n,
                i + 1 <= j <= n,
                r@ == before + Seq::new((j - i - 1) as nat, |k: int| (i, (i + 1 + k) as usize)),
            decreases n - j,
        {
            r.push((i, j));
            proof {
                assert(r@ =~= before + Seq::new((j + 1 - i - 1) as nat, |k: int| (i, (i + 1 + k) as usize)));
            }
            j += 1;
        }
        proof {
            let row = Seq::new((n - i - 1) as nat, |k: int| (i, (i + 1 + k) as usize));
            assert(pairs_from(n as int, i as int) == row + pairs_from(n as int, i + 1));
            assert(r@ == before + row);
            assert(before + pairs_from(n as int, i as int) =~= r@ + pairs_from(n as int, i + 1));
        }
        i += 1;
    }
    proof {
        assert(pairs_from(n as int, n as int) =~= Seq::<(usize, usize)>::empty());
        assert(r@ + Seq::<(usize, usize)>::empty() =~= r@);
    }
    r
}

/// Whether `r` ranks players by performance, best first, players that
/// performed the same in the order of their indices.
pub open spec fn ranks(perf: Seq<u32>, r: Seq<usize>) -> bool {
    &&& r.len() == perf.len()
    &&& forall|k: int| 0 <= k < r.len() ==> (#[trigger] r[k]) < perf.len()
    &&& forall|k: int, l: int| 0 <= k < l < r.len() ==> r[k] != r[l]
    &&& forall|k: int, l: int|
        0 <= k < l < r.len() ==> perf[#[trigger] r[k] as int] > perf[#[trigger] r[l] as int] || (perf[r[k] as int]
            == perf[r[l] as int] && r[k] < r[l])
}

/// Ranks the players by performance (`perf[i]` for player `i`), best first
/// and, among equals, in index order (a stable sort).
pub fn ranking(perf: &Vec<u32>) -> (r: Vec<usize>)
    ensures
        ranks(perf@, r@),
{
    let n = perf.len();
    let mut r: Vec<usize> = Vec::new();
    let mut i: usize = 0;
    while i < n
        invariant
            i <= n,
            n == perf.len(),
            r.len() == i,
            forall|k: int| 0 <= k < r.len() ==> (#[trigger] r@[k]) < i,
            forall|k: int, l: int| 0 <= k < l < r.len() ==> r@[k] != r@[l],
            forall|k: int, l: int|
                0 <= k < l < r.len() ==> perf@[#[trigger] r@[k] as int] > perf@[#[trigger] r@[l] as int] || (
                perf@[r@[k] as int] == perf@[r@[l] as int] && r@[k] < r@[l]),
        decreases n - i,
    {
        // Player i goes after every player that performed at least as well.
        let mut pos: usize = 0;
        while pos < r.len() && perf[r[pos]] >= perf[i]
            invariant
                pos <= r.len(),
                n == perf.len(),
                i < n,
                forall|k: int| 0 <= k < r.len() ==> (#[trigger] r@[k]) < i,
                forall|k: int| 0 <= k < pos ==> perf@[#[trigger] r@[k] as int] >= perf@[i as int],
            decreases r.len() - pos,
        {
            pos += 1;
        }
        proof {
            // Past `pos`, everyone performed worse than player i.
            assert forall|k: int| pos <= k < r.len() implies perf@[#[trigger] r@[k] as int] < perf@[i as int] by {
                if pos < r.len() {
                    assert(perf@[r@[pos as int] as int] < perf@[i as int]);
                    if k > pos {
                        assert(perf@[r@[pos as int] as int] > perf@[r@[k] as int] || perf@[r@[pos as int] as int]
                            == perf@[r@[k] as int]);
                    }
                }
            }
        }
        let ghost before = r@;
        r.insert(pos, i);
        proof {
            assert forall|k: int| 0 <= k < r.len() implies (#[trigger] r@[k]) < i + 1 by {
                if k < pos {
                    assert(r@[k] == before[k]);
                } else if k > pos {
                    assert(r@[k] == before[k - 1]);
                }
            }
            assert forall|k: int, l: int| 0 <= k < l < r.len() implies r@[k] != r@[l] by {
                if k < pos && l > pos {
                    assert(r@[k] == before[k] && r@[l] == before[l - 1]);
                } else if k > pos {
                    assert(r@[k] == before[k - 1] && r@[l] == before[l - 1]);
                } else if l < pos {
                    assert(r@[k] == before[k] && r@[l] == before[l]);
                } else if k == pos {
                    assert(r@[l] == before[l - 1]);
                } else {
                    assert(r@[k] == before[k]);
                }
            }
            assert forall|k: int, l: int|
                0 <= k < l < r.len() implies perf@[#[trigger] r@[k] as int] > perf@[#[trigger] r@[l] as int] || (
                perf@[r@[k] as int] == perf@[r@[l] as int] && r@[k] < r@[l]) by {
                if k < pos && l > pos {
                    assert(r@[k] == before[k] && r@[l] == before[l - 1]);
                } else if k > pos {
                    assert(r@[k] == before[k - 1] && r@[l] == before[l - 1]);
                } else if l < pos {
                    assert(r@[k] == before[k] && r@[l] == before[l]);
                } else if k == pos {
                    assert(r@[l] == before[l - 1]);
                } else {
                    assert(r@[k] == before[k]);
                }
            }
        }
        i += 1;
    }
    r
}

/// The best player: the one with the highest performance, the last such one
/// where several tie.
pub fn best_player(perf: &Vec<u32>) -> (r: usize)
    requires
        perf.len() > 0,
    ensures
        r < perf.len(),
        forall|k: int| 0 <= k < perf.len() ==> perf@[k] <= perf@[r as int],
        forall|k: int| r < k < perf.len() ==> perf@[k] < perf@[r as int],
{
    let mut best: usize = 0;
    let mut i: usize = 1;
    while i < perf.len()
        invariant
            1 <= i <= perf.len(),
            best < i,
            forall|k: int| 0 <= k < i ==> perf@[k] <= perf@[best as int],
            forall|k: int| best < k < i ==> perf@[k] < perf@[best as int],
        decreases perf.len() - i,
    {
        if perf[i] >= perf[best] {
            best = i;
        }
        i += 1;
    }
    best
}

} // verus!
