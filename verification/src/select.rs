//! Selection by value. Single-precision numbers are handled by their bit patterns: the pattern of a
//! number that is not a NaN has an integer key that orders as the numbers do.
use vstd::prelude::*;

verus! {

/// Whether the bit pattern is that of a NaN.
pub open spec fn is_nan(x: u32) -> bool {
    x as int % 0x8000_0000 > 0x7f80_0000
}

/// The key of a bit pattern: its magnitude, negated where the sign bit is set. Both zeros have the
/// key 0.
pub open spec fn key_of(x: u32) -> int {
    if x < 0x8000_0000 {
        x as int
    } else {
        0x8000_0000 - x
    }
}

/// The key of negative infinity.
pub open spec fn lowest() -> int {
    -0x7f80_0000
}

/// Whether the bit pattern is that of a NaN.
fn nan(x: u32) -> (r: bool)
    ensures
        r == is_nan(x),
{
    x % 0x8000_0000 > 0x7f80_0000
}

/// The key of a bit pattern.
pub fn order_key(x: u32) -> (r: i64)
    ensures
        r == key_of(x),
{
    if x < 0x8000_0000 {
        x as i64
    } else {
        0x8000_0000 - x as i64
    }
}

/// Element `i` takes part in a maximum: it is no NaN and is above negative infinity.
pub open spec fn competes(xs: Seq<u32>, i: int) -> bool {
    !is_nan(xs[i]) && key_of(xs[i]) > lowest()
}

/// `r` is the lowest index of the greatest element, or 0 where no element takes part.
pub open spec fn is_argmax(xs: Seq<u32>, r: int) -> bool {
    if exists|i: int| 0 <= i < xs.len() && competes(xs, i) {
        &&& 0 <= r < xs.len()
        &&& competes(xs, r)
        &&& forall|j: int| 0 <= j < xs.len() && competes(xs, j) ==> key_of(xs[j]) <= key_of(xs[r])
        &&& forall|j: int| 0 <= j < r && competes(xs, j) ==> key_of(xs[j]) < key_of(xs[r])
    } else {
        r == 0
    }
}

/// The lowest index of the greatest element.
pub fn argmax(xs: &[u32]) -> (r: usize)
    ensures
        is_argmax(xs@, r as int),
{
    let mut best: i64 = -0x7f80_0000;
    let mut bi: usize = 0;
    let mut i: usize = 0;
    while i < xs.len()
        invariant
            i <= xs@.len(),
            best >= lowest(),
            best == lowest() ==> bi == 0 && forall|j: int| 0 <= j < i ==> !competes(xs@, j),
            best > lowest() ==> bi < i && competes(xs@, bi as int) && key_of(xs@[bi as int]) == best,
            forall|j: int| 0 <= j < i && competes(xs@, j) ==> key_of(xs@[j]) <= best,
            best > lowest() ==> forall|j: int| 0 <= j < bi && competes(xs@, j) ==> key_of(xs@[j]) < best,
        decreases xs@.len() - i,
    {
        let x: u32 = xs[i];
        if !nan(x) {
            let k: i64 = order_key(x);
            if k > best {
                assert(competes(xs@, i as int));
                best = k;
                bi = i;
            }
        }
        i = i + 1;
    }
    bi
}

/// The lowest index of the greatest element of each of `rows` consecutive runs of `n` elements.
pub fn argmax_rows(xs: &[u32], n: usize, rows: usize) -> (out: Vec<usize>)
    requires
        rows * n <= xs@.len(),
    ensures
        out@.len() == rows,
        forall|r: int|
            0 <= r < rows ==> is_argmax(xs@.subrange(r * n, r * n + n), #[trigger] out@[r] as int),
{
    let len: usize = xs.len();
    let mut out: Vec<usize> = Vec::new();
    let mut r: usize = 0;
    while r < rows
        invariant
            r <= rows,
            len == xs@.len(),
            rows * n <= len,
            out@.len() == r,
            forall|k: int| 0 <= k < r ==> is_argmax(xs@.subrange(k * n, k * n + n), #[trigger] out@[k] as int),
        decreases rows - r,
    {
        proof {
            assert(r * n + n <= rows * n) by (nonlinear_arith)
                requires
                    r + 1 <= rows,
            ;
            assert(0 <= r * n) by (nonlinear_arith);
        }
        let at: usize = r * n;
        let row: &[u32] = vstd::slice::slice_subrange(xs, at, at + n);
        out.push(argmax(row));
        r = r + 1;
    }
    out
}

/// The magnitude of a bit pattern.
pub open spec fn magnitude(x: u32) -> int {
    x as int % 0x8000_0000
}

/// `x` is the first element of the greatest magnitude, NaNs left out; 0 where every element is a
/// zero or a NaN.
pub open spec fn is_abs_max(xs: Seq<u32>, x: u32) -> bool {
    if exists|i: int| 0 <= i < xs.len() && !is_nan(xs[i]) && magnitude(xs[i]) > 0 {
        exists|i: int|
            {
                &&& 0 <= i < xs.len()
                &&& x == #[trigger] xs[i]
                &&& !is_nan(x)
                &&& forall|j: int| 0 <= j < xs.len() && !is_nan(xs[j]) ==> magnitude(xs[j]) <= magnitude(x)
                &&& forall|j: int| 0 <= j < i && !is_nan(xs[j]) ==> magnitude(xs[j]) < magnitude(x)
            }
    } else {
        x == 0
    }
}

/// The first element of the greatest magnitude.
pub fn abs_max(xs: &[u32]) -> (x: u32)
    ensures
        is_abs_max(xs@, x),
{
    let mut amax: u32 = 0;
    let mut x: u32 = 0;
    let ghost mut at: int = 0;
    let mut i: usize = 0;
    while i < xs.len()
        invariant
            i <= xs@.len(),
            amax == 0 ==> x == 0,
            amax > 0 ==> 0 <= at < i && x == xs@[at] && !is_nan(x) && magnitude(x) == amax,
            forall|j: int| 0 <= j < i && !is_nan(xs@[j]) ==> magnitude(xs@[j]) <= amax,
            amax > 0 ==> forall|j: int| 0 <= j < at && !is_nan(xs@[j]) ==> magnitude(xs@[j]) < amax,
        decreases xs@.len() - i,
    {
        let v: u32 = xs[i];
        let mag: u32 = v % 0x8000_0000;
        if !nan(v) && mag > amax {
            amax = mag;
            x = v;
            proof {
                at = i as int;
            }
        }
        i = i + 1;
    }
    proof {
        if amax > 0 {
            assert(x == xs@[at]);
        }
    }
    x
}

/// Element `i` ranks before element `j`: it is greater, or equal with a lower index.
pub open spec fn ranks_before(xs: Seq<u32>, i: int, j: int) -> bool {
    key_of(xs[i]) > key_of(xs[j]) || (key_of(xs[i]) == key_of(xs[j]) && i < j)
}

/// `idx` ranks the elements from the greatest down, equal ones in the order of their indices, and
/// holds the first `k` of them. This fixes `idx`.
pub open spec fn is_top(xs: Seq<u32>, idx: Seq<usize>, k: int) -> bool {
    &&& idx.len() == if k < xs.len() {
        k
    } else {
        xs.len() as int
    }
    &&& forall|a: int| 0 <= a < idx.len() ==> #[trigger] idx[a] < xs.len()
    &&& forall|a: int, b: int| 0 <= a < b < idx.len() ==> ranks_before(xs, #[trigger] idx[a] as int, #[trigger] idx[b] as int)
    &&& forall|j: int, a: int|
        0 <= j < xs.len() && 0 <= a < idx.len() && !idx.contains(j as usize) ==> #[trigger] ranks_before(
            xs,
            idx[a] as int,
            j,
        )
}

/// Where two rankings agree on the first `a` places, the second has at place `a` nothing that ranks
/// behind what the first has there, unless they are the same.
proof fn lemma_top_step(xs: Seq<u32>, p: Seq<usize>, q: Seq<usize>, k: int, a: int)
    requires
        is_top(xs, p, k),
        is_top(xs, q, k),
        xs.len() <= usize::MAX,
        0 <= a < p.len(),
        forall|b: int| 0 <= b < a ==> #[trigger] p[b] == q[b],
        p[a] != q[a],
    ensures
        ranks_before(xs, q[a] as int, p[a] as int),
{
    let x = p[a];
    if q.contains(x) {
        let b = choose|b: int| 0 <= b < q.len() && q[b] == x;
        if b < a {
            assert(p[b] == q[b]);
            assert(ranks_before(xs, p[b] as int, p[a] as int));
        }
        assert(ranks_before(xs, q[a] as int, q[b] as int));
    } else {
        assert(!q.contains((x as int) as usize));
        assert(ranks_before(xs, q[a] as int, x as int));
    }
}

proof fn lemma_top_agree(xs: Seq<u32>, p: Seq<usize>, q: Seq<usize>, k: int, n: int)
    requires
        is_top(xs, p, k),
        is_top(xs, q, k),
        xs.len() <= usize::MAX,
        0 <= n <= p.len(),
    ensures
        forall|b: int| 0 <= b < n ==> #[trigger] p[b] == q[b],
    decreases n,
{
    if n > 0 {
        lemma_top_agree(xs, p, q, k, n - 1);
        if p[n - 1] != q[n - 1] {
            lemma_top_step(xs, p, q, k, n - 1);
            lemma_top_step(xs, q, p, k, n - 1);
        }
    }
}

/// The ranking of the `k` greatest elements is unique: the elements alone decide which experts a
/// row is routed to, and in which order.
pub proof fn law_top_unique(xs: Seq<u32>, p: Seq<usize>, q: Seq<usize>, k: int)
    requires
        is_top(xs, p, k),
        is_top(xs, q, k),
        xs.len() <= usize::MAX,
    ensures
        p == q,
{
    lemma_top_agree(xs, p, q, k, p.len() as int);
    assert(p =~= q);
}

/// `idx` ranks the first `k` of the first `n` elements.
spec fn is_top_of(xs: Seq<u32>, idx: Seq<usize>, n: int, k: int) -> bool {
    &&& idx.len() == if k < n {
        k
    } else {
        n
    }
    &&& forall|a: int| 0 <= a < idx.len() ==> #[trigger] idx[a] < n
    &&& forall|a: int, b: int|
        0 <= a < b < idx.len() ==> ranks_before(xs, #[trigger] idx[a] as int, #[trigger] idx[b] as int)
    &&& forall|j: int, a: int|
        0 <= j < n && 0 <= a < idx.len() && !idx.contains(j as usize) ==> #[trigger] ranks_before(
            xs,
            idx[a] as int,
            j,
        )
    &&& n <= k ==> forall|j: int| 0 <= j < n ==> #[trigger] idx.contains(j as usize)
}

/// Element `n` behind those that rank before it, and the last dropped where that makes one too
/// many.
spec fn placed_at(idx: Seq<usize>, n: int, p: int, k: int) -> Seq<usize> {
    if p >= k {
        idx
    } else if idx.len() == k {
        idx.insert(p, n as usize).take(k)
    } else {
        idx.insert(p, n as usize)
    }
}

proof fn lemma_place_keeps_top(xs: Seq<u32>, idx: Seq<usize>, n: int, p: int, k: int)
    requires
        is_top_of(xs, idx, n, k),
        0 <= n < xs.len(),
        n <= usize::MAX,
        0 <= k,
        0 <= p <= idx.len(),
        forall|a: int| 0 <= a < p ==> ranks_before(xs, #[trigger] idx[a] as int, n),
        forall|a: int| p <= a < idx.len() ==> ranks_before(xs, n, #[trigger] idx[a] as int),
    ensures
        is_top_of(xs, placed_at(idx, n, p, k), n + 1, k),
{
    let next = placed_at(idx, n, p, k);
    let all = idx.insert(p, n as usize);
    let last = idx.len() as int;
    assert(forall|a: int| 0 <= a < p ==> all[a] == idx[a]);
    assert(forall|a: int| p < a <= last ==> all[a] == idx[a - 1]);
    assert(all[p] == n as usize);
    assert forall|a: int, b: int| 0 <= a < b < next.len() implies ranks_before(
        xs,
        #[trigger] next[a] as int,
        #[trigger] next[b] as int,
    ) by {
        if p < k {
            assert(next[a] == all[a] && next[b] == all[b]);
            if a < p && b < p {
                assert(ranks_before(xs, idx[a] as int, idx[b] as int));
            } else if a < p && b > p {
                assert(ranks_before(xs, idx[a] as int, idx[b - 1] as int));
            } else if a > p {
                assert(ranks_before(xs, idx[a - 1] as int, idx[b - 1] as int));
            } else if a == p {
                assert(ranks_before(xs, n, idx[b - 1] as int));
            }
        }
    }
    assert forall|j: int, a: int| 0 <= j < n + 1 && 0 <= a < next.len() && !next.contains(
        j as usize,
    ) implies #[trigger] ranks_before(xs, next[a] as int, j) by {
        if p >= k {
            if j < n {
                assert(ranks_before(xs, idx[a] as int, j));
            }
        } else {
            assert(next[a] == all[a]);
            if j == n {
                assert(next[p] == n as usize);
            } else if idx.contains(j as usize) {
                let c = choose|c: int| 0 <= c < idx.len() && idx[c] == j as usize;
                let d = if c < p {
                    c
                } else {
                    c + 1
                };
                assert(all[d] == j as usize);
                if d < next.len() {
                    assert(next[d] == j as usize);
                }
                if a < p {
                    assert(ranks_before(xs, idx[a] as int, idx[c] as int));
                } else if a > p {
                    assert(ranks_before(xs, idx[a - 1] as int, idx[c] as int));
                } else {
                    assert(ranks_before(xs, n, idx[c] as int));
                }
            } else {
                if a < p {
                    assert(ranks_before(xs, idx[a] as int, j));
                } else if a > p {
                    assert(ranks_before(xs, idx[a - 1] as int, j));
                } else {
                    assert(k < n);
                    assert(ranks_before(xs, idx[last - 1] as int, j));
                    assert(ranks_before(xs, n, idx[last - 1] as int));
                }
            }
        }
    }
    if n + 1 <= k {
        assert forall|j: int| 0 <= j < n + 1 implies #[trigger] next.contains(j as usize) by {
            if j == n {
                assert(next[p] == n as usize);
            } else {
                assert(idx.contains(j as usize));
                let c = choose|c: int| 0 <= c < idx.len() && idx[c] == j as usize;
                if c < p {
                    assert(next[c] == j as usize);
                } else {
                    assert(next[c + 1] == j as usize);
                }
            }
        }
    }
}

/// The indices of the `k` greatest elements, from the greatest down; equal elements keep the order
/// of their indices.
pub fn top_k(xs: &[u32], k: usize) -> (idx: Vec<usize>)
    requires
        forall|i: int| 0 <= i < xs@.len() ==> !is_nan(#[trigger] xs@[i]),
    ensures
        is_top(xs@, idx@, k as int),
{
    let len: usize = xs.len();
    let mut idx: Vec<usize> = Vec::new();
    let mut n: usize = 0;
    while n < len
        invariant
            n <= len,
            len == xs@.len(),
            is_top_of(xs@, idx@, n as int, k as int),
        decreases len - n,
    {
        let key: i64 = order_key(xs[n]);
        let m: usize = idx.len();
        let mut p: usize = m;
        while p > 0 && order_key(xs[idx[p - 1]]) < key
            invariant
                p <= m,
                m == idx@.len(),
                n < len,
                len == xs@.len(),
                is_top_of(xs@, idx@, n as int, k as int),
                key == key_of(xs@[n as int]),
                forall|a: int| p <= a < m ==> ranks_before(xs@, n as int, #[trigger] idx@[a] as int),
            decreases p,
        {
            p = p - 1;
        }
        proof {
            assert forall|a: int| 0 <= a < p implies ranks_before(xs@, #[trigger] idx@[a] as int, n as int) by {
                if a < p - 1 {
                    assert(ranks_before(xs@, idx@[a] as int, idx@[p - 1] as int));
                }
            }
            lemma_place_keeps_top(xs@, idx@, n as int, p as int, k as int);
        }
        if p < k {
            idx.insert(p, n);
            if m == k {
                idx.truncate(k);
            }
        }
        n = n + 1;
    }
    idx
}

/// The number `a` is at least the number `b`. A NaN compares with nothing.
pub open spec fn is_ge(a: u32, b: u32) -> bool {
    !is_nan(a) && !is_nan(b) && key_of(a) >= key_of(b)
}

/// The number `a` is at least the number `b`.
fn ge(a: u32, b: u32) -> (r: bool)
    ensures
        r == is_ge(a, b),
{
    !nan(a) && !nan(b) && order_key(a) >= order_key(b)
}

/// `r` is the first of the first `n` places at which the running sum reaches `goal`, or `n`.
pub open spec fn first_reach(sums: Seq<u32>, n: int, goal: u32, r: int) -> bool {
    &&& 0 <= r <= n
    &&& r < n ==> is_ge(sums[r], goal)
    &&& forall|j: int| 0 <= j < r ==> !is_ge(#[trigger] sums[j], goal)
}

/// The first place at which a running sum reaches `goal`.
fn reach(sums: &[u32], n: usize, goal: u32) -> (r: usize)
    requires
        n <= sums@.len(),
    ensures
        first_reach(sums@, n as int, goal, r as int),
{
    let mut j: usize = 0;
    while j < n && !ge(sums[j], goal)
        invariant
            j <= n <= sums@.len(),
            forall|i: int| 0 <= i < j ==> !is_ge(#[trigger] sums@[i], goal),
        decreases n - j,
    {
        j = j + 1;
    }
    j
}

/// The size of the nucleus: the candidates, from the most likely down, up to the first at which
/// the running sum of their probabilities reaches `top_p`; all of them where it never does.
pub fn nucleus_cutoff(sums: &[u32], top_p: u32) -> (r: usize)
    ensures
        exists|j: int|
            #![trigger first_reach(sums@, sums@.len() as int, top_p, j)]
            first_reach(sums@, sums@.len() as int, top_p, j) && r == if j < sums@.len() {
                j + 1
            } else {
                j
            },
{
    let n: usize = sums.len();
    let j: usize = reach(sums, n, top_p);
    if j < n {
        j + 1
    } else {
        j
    }
}

/// The candidate that a draw hits: the first of the nucleus at which the running sum reaches the
/// draw, or its last where rounding keeps the sum below the draw.
pub fn pick(sums: &[u32], cutoff: usize, draw: u32) -> (r: usize)
    requires
        0 < cutoff <= sums@.len(),
    ensures
        r < cutoff,
        exists|j: int|
            #![trigger first_reach(sums@, cutoff as int, draw, j)]
            first_reach(sums@, cutoff as int, draw, j) && r == if j < cutoff {
                j
            } else {
                cutoff - 1
            },
{
    let j: usize = reach(sums, cutoff, draw);
    if j < cutoff {
        j
    } else {
        cutoff - 1
    }
}

/// There is one first place at which a running sum reaches a goal.
pub proof fn law_first_reach_unique(sums: Seq<u32>, n: int, goal: u32, p: int, q: int)
    requires
        first_reach(sums, n, goal, p),
        first_reach(sums, n, goal, q),
    ensures
        p == q,
{
    if p < q {
        assert(!is_ge(sums[p], goal));
    }
    if q < p {
        assert(!is_ge(sums[q], goal));
    }
}

/// Where a value falls in a sorted table.
#[derive(Clone, Copy)]
pub enum Bracket {
    /// At or below the first entry.
    Low,
    /// At or above the last entry.
    High,
    /// At or above entry `mu - 1` and below entry `mu`.
    Between { mu: usize },
}

/// Where a value falls in a table sorted upwards, by binary search.
pub fn bracket(table: &[i64], x: i64) -> (r: Bracket)
    requires
        2 <= table@.len(),
        forall|i: int, j: int| 0 <= i <= j < table@.len() ==> #[trigger] table@[i] <= #[trigger] table@[j],
    ensures
        r is Low <==> x <= table@[0],
        r is High <==> x > table@[0] && x >= table@[table@.len() - 1],
        r matches Bracket::Between { mu } ==> 0 < mu < table@.len() && table@[mu - 1] <= x < table@[mu as int],
{
    let n: usize = table.len();
    if x <= table[0] {
        return Bracket::Low;
    }
    if x >= table[n - 1] {
        return Bracket::High;
    }
    let mut ml: usize = 0;
    let mut mu: usize = n - 1;
    while mu - ml > 1
        invariant
            ml < mu < n,
            n == table@.len(),
            table@[ml as int] <= x < table@[mu as int],
        decreases mu - ml,
    {
        let mav: usize = ml + (mu - ml) / 2;
        if x < table[mav] {
            mu = mav;
        } else {
            ml = mav;
        }
    }
    Bracket::Between { mu }
}

/// The key puts numbers in their order. Of two patterns without a sign the greater has the greater
/// key, setting the sign negates the key, and only the two zeros share one.
pub proof fn law_key_orders_numbers(x: u32, y: u32, kx: i64, ky: i64)
    requires
        call_ensures(order_key, (x,), kx),
        call_ensures(order_key, (y,), ky),
    ensures
        kx == key_of(x),
        x < y < 0x8000_0000 ==> kx < ky,
        x < 0x8000_0000 && y == x + 0x8000_0000 ==> ky == -kx,
        kx == ky ==> x == y || x as int % 0x8000_0000 == 0 && y as int % 0x8000_0000 == 0,
{
}

/// The chosen index holds a number that no other exceeds, and none before it equals: neither a NaN
/// (an exponent of all ones with a fraction) nor the least infinity is chosen over another number.
pub proof fn law_argmax_is_first_greatest(xs: &[u32], r: usize, j: int)
    requires
        call_ensures(argmax, (xs,), r),
        0 <= j < xs@.len(),
    ensures
        r < xs@.len(),
        xs@[j] as int % 0x8000_0000 <= 0x7f80_0000 && xs@[j] != 0xff80_0000 ==> {
            &&& xs@[r as int] as int % 0x8000_0000 <= 0x7f80_0000
            &&& xs@[r as int] != 0xff80_0000
            &&& key_of(xs@[j]) <= key_of(xs@[r as int])
            &&& j < r ==> key_of(xs@[j]) < key_of(xs@[r as int])
        },
        xs@[r as int] as int % 0x8000_0000 > 0x7f80_0000 || xs@[r as int] == 0xff80_0000 ==> r == 0,
{
    let n = xs@[j] as int % 0x8000_0000 <= 0x7f80_0000 && xs@[j] != 0xff80_0000;
    if n {
        assert(competes(xs@, j));
    }
}

/// Where there is nothing to choose from, the first index is given.
pub proof fn law_argmax_of_nothing(xs: &[u32], r: usize)
    requires
        call_ensures(argmax, (xs,), r),
        forall|j: int|
            0 <= j < xs@.len() ==> (#[trigger] xs@[j]) as int % 0x8000_0000 > 0x7f80_0000 || xs@[j] == 0xff80_0000,
    ensures
        r == 0,
{
    assert forall|i: int| 0 <= i < xs@.len() implies !competes(xs@, i) by {
        let x = xs@[i];
        assert(x as int % 0x8000_0000 > 0x7f80_0000 || x == 0xff80_0000);
    }
}

/// The rows are chosen from one by one.
pub proof fn law_argmax_rows(xs: &[u32], n: usize, rows: usize, out: Vec<usize>, row: &[u32], r: int, best: usize)
    requires
        call_ensures(argmax_rows, (xs, n, rows), out),
        0 <= r < rows,
        rows * n <= xs@.len(),
        0 < n,
        row@.len() == n,
        forall|j: int| 0 <= j < n ==> #[trigger] row@[j] == xs@[r * n + j],
        call_ensures(argmax, (row,), best),
    ensures
        out@.len() == rows,
        out@[r] == best,
{
    assert(r * n + n <= rows * n && 0 <= r * n) by (nonlinear_arith)
        requires
            0 <= r,
            r + 1 <= rows,
    ;
    let part = xs@.subrange(r * n, r * n + n);
    assert(part =~= row@);
    let a = out@[r] as int;
    let b = best as int;
    assert(is_argmax(part, a));
    assert(is_argmax(part, b));
    if exists|i: int| 0 <= i < part.len() && competes(part, i) {
        assert(key_of(part[a]) <= key_of(part[b]) && key_of(part[b]) <= key_of(part[a]));
    }
}

/// The element of the greatest magnitude, the first of several, as it stands with its sign; the sign
/// bit and NaNs do not count. Where all are zeros, the positive zero.
pub proof fn law_abs_max_is_first_greatest(xs: &[u32], x: u32, j: int)
    requires
        call_ensures(abs_max, (xs,), x),
        0 <= j < xs@.len(),
        xs@[j] as int % 0x8000_0000 <= 0x7f80_0000,
    ensures
        x as int % 0x8000_0000 <= 0x7f80_0000,
        xs@[j] as int % 0x8000_0000 <= x as int % 0x8000_0000,
        x != 0 ==> xs@.contains(x),
        x as int % 0x8000_0000 == 0 ==> x == 0,
        xs@[j] as int % 0x8000_0000 == x as int % 0x8000_0000 && xs@[j] != x && x != 0 ==> exists|i: int|
            0 <= i < j && xs@[i] == x,
{
    if exists|i: int| 0 <= i < xs@.len() && !is_nan(xs@[i]) && magnitude(xs@[i]) > 0 {
        let w = choose|i: int| 0 <= i < xs@.len() && !is_nan(xs@[i]) && magnitude(xs@[i]) > 0;
        assert(magnitude(xs@[w]) <= magnitude(x));
        let i = choose|i: int|
            {
                &&& 0 <= i < xs@.len()
                &&& x == #[trigger] xs@[i]
                &&& !is_nan(x)
                &&& forall|j: int| 0 <= j < xs@.len() && !is_nan(xs@[j]) ==> magnitude(xs@[j]) <= magnitude(x)
                &&& forall|j: int| 0 <= j < i && !is_nan(xs@[j]) ==> magnitude(xs@[j]) < magnitude(x)
            };
        assert(xs@[i] == x);
        assert(!is_nan(xs@[j]));
        assert(magnitude(xs@[j]) <= magnitude(x));
        if xs@[j] as int % 0x8000_0000 == x as int % 0x8000_0000 && xs@[j] != x {
            assert(i < j);
        }
    } else {
        assert(!is_nan(xs@[j]));
    }
}

/// Where there is no number, the greatest magnitude is zero.
pub proof fn law_abs_max_of_nothing(xs: &[u32], x: u32)
    requires
        call_ensures(abs_max, (xs,), x),
        forall|j: int| 0 <= j < xs@.len() ==> (#[trigger] xs@[j]) as int % 0x8000_0000 > 0x7f80_0000,
    ensures
        x == 0,
{
    assert forall|i: int| 0 <= i < xs@.len() implies is_nan(xs@[i]) by {
        assert(xs@[i] as int % 0x8000_0000 > 0x7f80_0000);
    }
}

/// The ranking has as many places as asked for, or as there are elements where those are fewer.
pub proof fn law_top_length(xs: &[u32], k: usize, idx: Vec<usize>)
    requires
        call_ensures(top_k, (xs, k), idx),
    ensures
        idx@.len() <= k,
        idx@.len() <= xs@.len(),
        idx@.len() == k || idx@.len() == xs@.len(),
{
}

/// The indices come from the greatest number down, each once and the lower first where two numbers
/// are equal; what is left out comes after all of them.
pub proof fn law_top_ranks(xs: &[u32], k: usize, idx: Vec<usize>, a: int, b: int, j: usize)
    requires
        call_ensures(top_k, (xs, k), idx),
        0 <= a < b < idx@.len(),
    ensures
        idx@[a] < xs@.len(),
        idx@[b] < xs@.len(),
        idx@[a] != idx@[b],
        key_of(xs@[idx@[a] as int]) >= key_of(xs@[idx@[b] as int]),
        key_of(xs@[idx@[a] as int]) == key_of(xs@[idx@[b] as int]) ==> idx@[a] < idx@[b],
        j < xs@.len() && !idx@.contains(j) ==> {
            &&& key_of(xs@[idx@[b] as int]) >= key_of(xs@[j as int])
            &&& key_of(xs@[idx@[b] as int]) == key_of(xs@[j as int]) ==> idx@[b] < j
        },
{
    assert(ranks_before(xs@, idx@[a] as int, idx@[b] as int));
    if j < xs@.len() && !idx@.contains(j) {
        assert(!idx@.contains((j as int) as usize));
        assert(ranks_before(xs@, idx@[b] as int, j as int));
    }
}

/// The first of the ranked indices is that of a greatest number, the lowest such index.
pub proof fn law_top_starts_at_greatest(xs: &[u32], k: usize, idx: Vec<usize>, j: usize)
    requires
        call_ensures(top_k, (xs, k), idx),
        0 < k,
        j < xs@.len(),
    ensures
        idx@.len() > 0,
        idx@[0] < xs@.len(),
        key_of(xs@[idx@[0] as int]) >= key_of(xs@[j as int]),
        key_of(xs@[idx@[0] as int]) == key_of(xs@[j as int]) ==> idx@[0] <= j,
{
    if idx@.contains(j) {
        let b = choose|b: int| 0 <= b < idx@.len() && idx@[b] == j;
        if 0 < b {
            assert(ranks_before(xs@, idx@[0] as int, idx@[b] as int));
        }
    } else {
        assert(!idx@.contains((j as int) as usize));
        assert(ranks_before(xs@, idx@[0] as int, j as int));
    }
}

/// The cutoff counts the candidates up to and with the first whose sum reaches the mass; where none
/// reaches it, all. A NaN reaches nothing.
pub proof fn law_cutoff_is_first_to_reach(sums: &[u32], top_p: u32, r: usize, j: int)
    requires
        call_ensures(nucleus_cutoff, (sums, top_p), r),
        0 <= j < sums@.len(),
    ensures
        0 < r <= sums@.len(),
        j < r - 1 ==> sums@[j] as int % 0x8000_0000 > 0x7f80_0000 || top_p as int % 0x8000_0000 > 0x7f80_0000 || key_of(
            sums@[j],
        ) < key_of(top_p),
        j == r - 1 && r < sums@.len() ==> {
            &&& sums@[j] as int % 0x8000_0000 <= 0x7f80_0000
            &&& top_p as int % 0x8000_0000 <= 0x7f80_0000
            &&& key_of(sums@[j]) >= key_of(top_p)
        },
{
    let m = choose|m: int|
        #![trigger first_reach(sums@, sums@.len() as int, top_p, m)]
        first_reach(sums@, sums@.len() as int, top_p, m) && r == if m < sums@.len() {
            m + 1
        } else {
            m
        };
    assert(first_reach(sums@, sums@.len() as int, top_p, m));
    if j < m {
        assert(!is_ge(sums@[j], top_p));
    }
}

/// The cutoff counts candidates, so there are as many at least.
pub proof fn law_cutoff_counts_candidates(sums: &[u32], top_p: u32, r: usize)
    requires
        call_ensures(nucleus_cutoff, (sums, top_p), r),
    ensures
        r <= sums@.len(),
{
}

/// The pick is the first candidate whose sum reaches the draw, or the last one below the cutoff.
pub proof fn law_pick_is_first_to_reach(sums: &[u32], cutoff: usize, draw: u32, r: usize, j: int)
    requires
        call_ensures(pick, (sums, cutoff, draw), r),
        0 < cutoff <= sums@.len(),
        0 <= j <= r,
    ensures
        r < cutoff,
        j < r ==> sums@[j] as int % 0x8000_0000 > 0x7f80_0000 || draw as int % 0x8000_0000 > 0x7f80_0000 || key_of(
            sums@[j],
        ) < key_of(draw),
        j == r && r + 1 < cutoff ==> {
            &&& sums@[j] as int % 0x8000_0000 <= 0x7f80_0000
            &&& draw as int % 0x8000_0000 <= 0x7f80_0000
            &&& key_of(sums@[j]) >= key_of(draw)
        },
{
    let m = choose|m: int|
        #![trigger first_reach(sums@, cutoff as int, draw, m)]
        first_reach(sums@, cutoff as int, draw, m) && r == if m < cutoff {
            m
        } else {
            cutoff - 1
        };
    assert(first_reach(sums@, cutoff as int, draw, m));
    if j < m {
        assert(!is_ge(sums@[j], draw));
    }
}

/// A value lies between the two entries that the bracket names, or beyond the end that it names.
pub proof fn law_bracket_encloses(table: &[i64], x: i64, r: Bracket)
    requires
        call_ensures(bracket, (table, x), r),
        2 <= table@.len(),
    ensures
        match r {
            Bracket::Low => x <= table@[0],
            Bracket::High => table@[0] < x && table@[table@.len() - 1] <= x,
            Bracket::Between { mu } => 0 < mu < table@.len() && table@[0] < x < table@[table@.len() - 1]
                && table@[mu - 1]
                <= x < table@[mu as int],
        },
{
}

} // verus!
