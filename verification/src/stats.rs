//! How evenly a batch is spread over the experts, and what row tiles cost on it.
use vstd::prelude::*;
use crate::route::Pairs;

verus! {

/// The number of pairs of expert `e`: that of its bucket, or none.
pub open spec fn is_count(pairs: &Pairs, e: int, c: int) -> bool {
    ||| exists|b: int| 0 <= b < pairs.buckets@.len() && (#[trigger] pairs.buckets@[b]).expert == e && pairs.buckets@[b].count == c
    ||| c == 0 && forall|b: int| 0 <= b < pairs.buckets@.len() ==> (#[trigger] pairs.buckets@[b]).expert != e
}

/// The number of pairs of each expert.
pub fn expert_counts(pairs: &Pairs, n_expert: usize) -> (counts: Vec<usize>)
    requires
        pairs.buckets_ok(),
        forall|b: int| 0 <= b < pairs.buckets@.len() ==> (#[trigger] pairs.buckets@[b]).expert < n_expert,
    ensures
        counts@.len() == n_expert,
        forall|e: int| 0 <= e < n_expert ==> is_count(pairs, e, #[trigger] counts@[e] as int),
{
    let ghost bs = pairs.buckets@;
    let n: usize = pairs.buckets.len();
    let mut counts: Vec<usize> = Vec::new();
    let mut b: usize = 0;
    let mut e: usize = 0;
    while e < n_expert
        invariant
            e <= n_expert,
            b <= n,
            n == pairs.buckets@.len(),
            bs == pairs.buckets@,
            pairs.buckets_ok(),
            counts@.len() == e,
            forall|c: int| 0 <= c < b ==> (#[trigger] bs[c]).expert < e,
            forall|c: int| b <= c < n ==> (#[trigger] bs[c]).expert >= e,
            forall|x: int| 0 <= x < e ==> is_count(pairs, x, #[trigger] counts@[x] as int),
        decreases n_expert - e,
    {
        if b < n && pairs.buckets[b].expert == e {
            let c: usize = pairs.buckets[b].count;
            assert(bs[b as int].expert == e && bs[b as int].count == c);
            counts.push(c);
            b = b + 1;
        } else {
            proof {
                assert forall|c: int| b <= c < n implies (#[trigger] bs[c]).expert > e by {
                    if b < c {
                        assert(bs[b as int].expert < bs[c].expert);
                    }
                }
            }
            counts.push(0);
        }
        e = e + 1;
    }
    counts
}

/// The tiles of `bm` rows that `c` rows take.
pub open spec fn tiles_of(c: int, bm: int) -> int {
    (c + bm - 1) / bm
}

/// The rows that stay empty where `c` rows take whole tiles of `bm`, and one even for none.
pub open spec fn waste_of(c: int, bm: int) -> int {
    if c == 0 {
        bm
    } else {
        tiles_of(c, bm) * bm - c
    }
}

/// The sum of a quantity over the counts.
pub open spec fn total(counts: Seq<usize>, f: spec_fn(int) -> int) -> int
    decreases counts.len(),
{
    if counts.len() == 0 {
        0
    } else {
        total(counts.drop_last(), f) + f(counts.last() as int)
    }
}

/// A last tile is never wholly empty.
proof fn lemma_waste(c: int, bm: int)
    requires
        0 <= c,
        0 < bm,
    ensures
        0 <= waste_of(c, bm) <= bm,
        0 <= tiles_of(c, bm) <= c,
        c > 0 ==> 0 <= tiles_of(c, bm) * bm <= c + bm - 1,
{
    let x = c + bm - 1;
    vstd::arithmetic::div_mod::lemma_fundamental_div_mod(x, bm);
    vstd::arithmetic::div_mod::lemma_mod_bound(x, bm);
    let q = x / bm;
    assert(bm * q == q * bm) by (nonlinear_arith);
    assert(0 <= q) by (nonlinear_arith)
        requires
            0 <= x,
            x == q * bm + x % bm,
            x % bm < bm,
            0 < bm,
    ;
    assert(0 <= q * bm) by (nonlinear_arith)
        requires
            0 <= q,
            0 < bm,
    ;
    assert(q <= c) by (nonlinear_arith)
        requires
            q * bm <= c + bm - 1,
            0 <= c,
            0 < bm,
    ;
}

/// The cost of tiles of `bm` rows: the tiles that are used and the rows that stay empty.
#[derive(Clone, Copy, PartialEq, Eq, Structural, Debug)]
pub struct TileCost {
    pub tiles: usize,
    pub waste: usize,
}

/// What tiles of `bm` rows cost on the given counts.
pub fn tile_cost(counts: &Vec<usize>, bm: usize) -> (r: TileCost)
    requires
        0 < bm,
        forall|e: int| 0 <= e < counts@.len() ==> #[trigger] counts@[e] + bm <= usize::MAX,
        counts@.len() * bm <= usize::MAX,
        total(counts@, |c: int| c) <= usize::MAX,
    ensures
        r.tiles == total(counts@, |c: int| tiles_of(c, bm as int)),
        r.waste == total(counts@, |c: int| waste_of(c, bm as int)),
{
    let ghost ft = |c: int| tiles_of(c, bm as int);
    let ghost fw = |c: int| waste_of(c, bm as int);
    let ghost fc = |c: int| c;
    let n: usize = counts.len();
    let mut tiles: usize = 0;
    let mut waste: usize = 0;
    let mut e: usize = 0;
    proof {
        assert(0 * bm == 0) by (nonlinear_arith);
    }
    while e < n
        invariant
            e <= n,
            n == counts@.len(),
            0 < bm,
            forall|i: int| 0 <= i < n ==> #[trigger] counts@[i] + bm <= usize::MAX,
            n * bm <= usize::MAX,
            total(counts@, fc) <= usize::MAX,
            ft == (|c: int| tiles_of(c, bm as int)),
            fw == (|c: int| waste_of(c, bm as int)),
            fc == (|c: int| c),
            tiles == total(counts@.take(e as int), ft),
            waste == total(counts@.take(e as int), fw),
            tiles <= total(counts@.take(e as int), fc),
            waste <= e * bm,
        decreases n - e,
    {
        let c: usize = counts[e];
        proof {
            lemma_waste(c as int, bm as int);
            let next = counts@.take(e + 1);
            assert(next.drop_last() =~= counts@.take(e as int));
            lemma_total_monotone(counts@, e + 1);
            assert((e + 1) * bm == e * bm + bm) by (nonlinear_arith);
            assert((e + 1) * bm <= n * bm) by (nonlinear_arith)
                requires
                    e + 1 <= n,
            ;
        }
        let t: usize = (c + bm - 1) / bm;
        tiles = tiles + t;
        waste = waste + if c == 0 {
            bm
        } else {
            t * bm - c
        };
        e = e + 1;
    }
    assert(counts@.take(n as int) =~= counts@);
    TileCost { tiles, waste }
}

/// A part of the counts sums to no more than all of them.
proof fn lemma_total_monotone(counts: Seq<usize>, n: int)
    requires
        0 <= n <= counts.len(),
    ensures
        total(counts.take(n), |c: int| c) <= total(counts, |c: int| c),
    decreases counts.len() - n,
{
    if n < counts.len() {
        lemma_total_monotone(counts, n + 1);
        assert(counts.take(n + 1).drop_last() =~= counts.take(n));
    } else {
        assert(counts.take(n) =~= counts);
    }
}

/// The least waste of `c` rows over tiles of 16, 32 and 64 rows.
pub open spec fn best_waste_of(c: int) -> int {
    let (a, b, d) = (waste_of(c, 16), waste_of(c, 32), waste_of(c, 64));
    if a <= b && a <= d {
        a
    } else if b <= d {
        b
    } else {
        d
    }
}

/// The rows that stay empty where each expert gets the tile that wastes least on it.
pub fn best_waste(counts: &Vec<usize>) -> (waste: usize)
    requires
        forall|e: int| 0 <= e < counts@.len() ==> #[trigger] counts@[e] + 64 <= usize::MAX,
        counts@.len() * 16 <= usize::MAX,
    ensures
        waste == total(counts@, |c: int| best_waste_of(c)),
{
    let ghost f = |c: int| best_waste_of(c);
    let n: usize = counts.len();
    let mut waste: usize = 0;
    let mut e: usize = 0;
    while e < n
        invariant
            e <= n,
            n == counts@.len(),
            forall|i: int| 0 <= i < n ==> #[trigger] counts@[i] + 64 <= usize::MAX,
            n * 16 <= usize::MAX,
            f == (|c: int| best_waste_of(c)),
            waste == total(counts@.take(e as int), f),
            waste <= e * 16,
        decreases n - e,
    {
        let c: usize = counts[e];
        proof {
            assert(counts@.take(e + 1).drop_last() =~= counts@.take(e as int));
        }
        let (a, b, d): (usize, usize, usize) = if c == 0 {
            (16, 32, 64)
        } else {
            ((c + 15) / 16 * 16 - c, (c + 31) / 32 * 32 - c, (c + 63) / 64 * 64 - c)
        };
        let least: usize = if a <= b && a <= d {
            a
        } else if b <= d {
            b
        } else {
            d
        };
        assert(least == best_waste_of(c as int));
        waste = waste + least;
        e = e + 1;
    }
    assert(counts@.take(n as int) =~= counts@);
    waste
}

/// The class of a count: 0 to 3, 4 to 7, 8 to 15, 16 to 23, 24 to 31, 32 to 47, 48 to 63, and 64 up.
pub open spec fn class_of(c: int) -> int {
    if c < 4 {
        0
    } else if c < 8 {
        1
    } else if c < 16 {
        2
    } else if c < 24 {
        3
    } else if c < 32 {
        4
    } else if c < 48 {
        5
    } else if c < 64 {
        6
    } else {
        7
    }
}

/// The class of a count.
fn class(c: usize) -> (r: usize)
    ensures
        r == class_of(c as int),
        r < 8,
{
    if c < 4 {
        0
    } else if c < 8 {
        1
    } else if c < 16 {
        2
    } else if c < 24 {
        3
    } else if c < 32 {
        4
    } else if c < 48 {
        5
    } else if c < 64 {
        6
    } else {
        7
    }
}

/// How many counts fall in each class.
pub fn histogram(counts: &Vec<usize>) -> (hist: [usize; 8])
    ensures
        forall|k: int|
            0 <= k < 8 ==> #[trigger] hist@[k] == total(
                counts@,
                |c: int|
                    if class_of(c) == k {
                        1
                    } else {
                        0
                    },
            ),
{
    let n: usize = counts.len();
    let mut hist: [usize; 8] = [0; 8];
    let mut e: usize = 0;
    while e < n
        invariant
            e <= n,
            n == counts@.len(),
            forall|k: int| 0 <= k < 8 ==> #[trigger] hist@[k] == total(counts@.take(e as int), in_class(k)) && hist@[k] <= e,
        decreases n - e,
    {
        let k: usize = class(counts[e]);
        assert(counts@.take(e + 1).drop_last() =~= counts@.take(e as int));
        hist[k] = hist[k] + 1;
        e = e + 1;
    }
    assert(counts@.take(n as int) =~= counts@);
    proof {
        assert forall|k: int| 0 <= k < 8 implies #[trigger] hist@[k] == total(
            counts@,
            |c: int|
                if class_of(c) == k {
                    1
                } else {
                    0
                },
        ) by {
            assert(hist@[k] == total(counts@, in_class(k)));
        }
    }
    hist
}

/// 1 for the counts of class `k`.
spec fn in_class(k: int) -> spec_fn(int) -> int {
    |c: int|
        if class_of(c) == k {
            1
        } else {
            0
        }
}

/// The counts from the least up.
pub fn sorted_counts(counts: &Vec<usize>) -> (out: Vec<usize>)
    ensures
        out@.to_multiset() == counts@.to_multiset(),
        forall|i: int, j: int| 0 <= i < j < out@.len() ==> #[trigger] out@[i] <= #[trigger] out@[j],
{
    broadcast use vstd::seq_lib::group_to_multiset_ensures;

    let n: usize = counts.len();
    let mut out: Vec<usize> = Vec::new();
    let mut e: usize = 0;
    assert(counts@.take(0) =~= Seq::<usize>::empty());
    while e < n
        invariant
            e <= n,
            n == counts@.len(),
            out@.len() == e,
            out@.to_multiset() == counts@.take(e as int).to_multiset(),
            forall|i: int, j: int| 0 <= i < j < out@.len() ==> #[trigger] out@[i] <= #[trigger] out@[j],
        decreases n - e,
    {
        let c: usize = counts[e];
        let mut p: usize = e;
        while p > 0 && out[p - 1] > c
            invariant
                p <= e,
                out@.len() == e,
                forall|i: int, j: int| 0 <= i < j < out@.len() ==> #[trigger] out@[i] <= #[trigger] out@[j],
                forall|i: int| p <= i < e ==> c < #[trigger] out@[i],
            decreases p,
        {
            p = p - 1;
        }
        let ghost before = out@;
        out.insert(p, c);
        proof {
            assert(counts@.take(e + 1) =~= counts@.take(e as int).push(c));
            vstd::seq_lib::to_multiset_build(counts@.take(e as int), c);
            vstd::seq_lib::to_multiset_insert(before, p as int, c);
        }
        e = e + 1;
    }
    assert(counts@.take(n as int) =~= counts@);
    out
}

/// The count of an expert is that of its bucket.
pub proof fn law_counts(pairs: &Pairs, n_expert: usize, counts: Vec<usize>, b: int)
    requires
        call_ensures(expert_counts, (pairs, n_expert), counts),
        pairs.buckets_ok(),
        0 <= b < pairs.buckets@.len(),
        pairs.buckets@[b].expert < n_expert,
    ensures
        counts@[pairs.buckets@[b].expert as int] == pairs.buckets@[b].count,
{
    let x = pairs.buckets@[b].expert as int;
    assert(is_count(pairs, x, counts@[x] as int));
    if exists|c: int|
        0 <= c < pairs.buckets@.len() && (#[trigger] pairs.buckets@[c]).expert == x && pairs.buckets@[c].count
            == counts@[x] {
        let c = choose|c: int|
            0 <= c < pairs.buckets@.len() && (#[trigger] pairs.buckets@[c]).expert == x && pairs.buckets@[c].count
                == counts@[x];
        if c < b {
            assert(pairs.buckets@[c].expert < pairs.buckets@[b].expert);
        }
        if b < c {
            assert(pairs.buckets@[b].expert < pairs.buckets@[c].expert);
        }
    }
}

/// Every expert is counted, one without a bucket with none.
pub proof fn law_idle_experts(pairs: &Pairs, n_expert: usize, counts: Vec<usize>, e: int)
    requires
        call_ensures(expert_counts, (pairs, n_expert), counts),
        0 <= e < n_expert,
        forall|c: int| 0 <= c < pairs.buckets@.len() ==> (#[trigger] pairs.buckets@[c]).expert != e,
    ensures
        counts@.len() == n_expert,
        counts@[e] == 0,
{
    assert(is_count(pairs, e, counts@[e] as int));
}

/// A total over one count more is greater by what that count adds.
proof fn lemma_total_push(a: Seq<usize>, b: Seq<usize>, f: spec_fn(int) -> int)
    requires
        b.len() == a.len() + 1,
        b.take(a.len() as int) == a,
    ensures
        total(b, f) == total(a, f) + f(b[a.len() as int] as int),
{
    assert(b.drop_last() =~= a);
}

/// The tiles of an expert are the fewest that hold its rows; a tile's rows that hold none are waste,
/// and an expert without rows wastes a tile that it does not count. The costs of the experts add up.
pub proof fn law_tile_costs_add_up(
    a: &Vec<usize>,
    b: &Vec<usize>,
    bm: usize,
    x: TileCost,
    y: TileCost,
    tiles: int,
)
    requires
        call_ensures(tile_cost, (a, bm), x),
        call_ensures(tile_cost, (b, bm), y),
        0 < bm,
        b@.len() == a@.len() + 1,
        b@.take(a@.len() as int) == a@,
        0 <= tiles,
        (tiles - 1) * bm < b@[a@.len() as int] <= tiles * bm,
    ensures
        a@.len() == 0 ==> x.tiles == 0 && x.waste == 0,
        y.tiles - x.tiles == tiles,
        y.waste - x.waste == (if tiles == 0 {
            1
        } else {
            tiles
        }) * bm - b@[a@.len() as int],
{
    let c = b@[a@.len() as int] as int;
    lemma_total_push(a@, b@, |c: int| tiles_of(c, bm as int));
    lemma_total_push(a@, b@, |c: int| waste_of(c, bm as int));
    assert((tiles - 1) * bm == tiles * bm - bm) by (nonlinear_arith);
    vstd::arithmetic::div_mod::lemma_fundamental_div_mod_converse(
        c + bm - 1,
        bm as int,
        tiles,
        c + bm - 1 - tiles * bm,
    );
    if tiles == 0 {
        assert(0 * bm == 0) by (nonlinear_arith);
    } else {
        assert(0 < c) by (nonlinear_arith)
            requires
                (tiles - 1) * bm < c,
                0 < tiles,
                0 < bm,
        ;
    }
}

/// The best tile of an expert is the one of 16, 32 or 64 rows that wastes least on it.
pub proof fn law_best_waste_adds_up(
    a: &Vec<usize>,
    b: &Vec<usize>,
    c: &Vec<usize>,
    x: usize,
    y: usize,
    t16: TileCost,
    t32: TileCost,
    t64: TileCost,
)
    requires
        call_ensures(best_waste, (a,), x),
        call_ensures(best_waste, (b,), y),
        b@.len() == a@.len() + 1,
        b@.take(a@.len() as int) == a@,
        c@.len() == 1,
        c@[0] == b@[a@.len() as int],
        call_ensures(tile_cost, (c, 16usize), t16),
        call_ensures(tile_cost, (c, 32usize), t32),
        call_ensures(tile_cost, (c, 64usize), t64),
    ensures
        a@.len() == 0 ==> x == 0,
        y - x <= t16.waste,
        y - x <= t32.waste,
        y - x <= t64.waste,
        y - x == t16.waste || y - x == t32.waste || y - x == t64.waste,
{
    lemma_total_push(a@, b@, |c: int| best_waste_of(c));
    let none = Seq::<usize>::empty();
    assert(c@.take(0) =~= none);
    lemma_total_push(none, c@, |c: int| waste_of(c, 16));
    lemma_total_push(none, c@, |c: int| waste_of(c, 32));
    lemma_total_push(none, c@, |c: int| waste_of(c, 64));
}

/// A count more raises one class by one: classes part at 4, 8, 16, 24, 32, 48 and 64.
pub proof fn law_histogram_counts(a: &Vec<usize>, b: &Vec<usize>, x: [usize; 8], y: [usize; 8], k: int)
    requires
        call_ensures(histogram, (a,), x),
        call_ensures(histogram, (b,), y),
        b@.len() == a@.len() + 1,
        b@.take(a@.len() as int) == a@,
        0 <= k < 8,
    ensures
        a@.len() == 0 ==> x@[k] == 0,
        ({
            let c = b@[a@.len() as int];
            let ends = seq![0usize, 4, 8, 16, 24, 32, 48, 64];
            y@[k] - x@[k] == if ends[k] <= c && (k == 7 || c < ends[k + 1]) {
                1int
            } else {
                0
            }
        }),
{
    let f = |c: int|
        if class_of(c) == k {
            1
        } else {
            0
        };
    assert(x@[k] == total(a@, f));
    assert(y@[k] == total(b@, f));
    lemma_total_push(a@, b@, f);
}

/// Sorting loses no count and puts a lesser one before a greater one.
pub proof fn law_counts_are_sorted(counts: &Vec<usize>, out: Vec<usize>, i: int, j: int, c: usize)
    requires
        call_ensures(sorted_counts, (counts,), out),
    ensures
        out@.len() == counts@.len(),
        0 <= i < j < out@.len() ==> out@[i] <= out@[j],
        out@.to_multiset().count(c) == counts@.to_multiset().count(c),
{
    broadcast use vstd::seq_lib::group_to_multiset_ensures;

    assert(out@.to_multiset().len() == counts@.to_multiset().len());
}

} // verus!
